use ubuntu_miracast_server::utils::search::{
    is_free, listing_refused, listing_unavailable, probe_find_passes, probe_passes,
    InterfaceSearch, SearchStep,
};
use ubuntu_miracast_server::utils::{
    interface_info, output_text, p2p_device_list, validate_codec, validate_port,
    validate_rtsp_size, validate_wpa_param, wpa_cli_answer, wpa_cli_command, wpa_cli_unavailable,
    WpaError,
};

#[test]
fn codec_whitelist() {
    assert!(validate_codec("H264", "video"));
    assert!(!validate_codec("H265", "video"));
    assert!(validate_codec("AAC", "audio"));
    assert!(!validate_codec("MP3", "audio"));
    assert!(!validate_codec("H264", "bogus"));
}

#[test]
fn port_range() {
    assert!(!validate_port(80));
    assert!(validate_port(1024));
    assert!(validate_port(7236));
    assert!(validate_port(65535));
    assert!(!validate_port(65536));
}

#[test]
fn rtsp_size_limits() {
    assert!(validate_rtsp_size(8192, 65536));
    assert!(!validate_rtsp_size(8193, 0));
    assert!(!validate_rtsp_size(0, 65537));
}

#[test]
fn wpa_param_accepts_safe() {
    assert!(validate_wpa_param("p2p-dev-wlan0").is_ok());
    assert!(validate_wpa_param("00:11:22:33:44:55").is_ok());
    assert!(validate_wpa_param("wfd_subelem_set").is_ok());
    assert!(validate_wpa_param("Ubuntu Miracast Server").is_ok());
}

#[test]
fn wpa_param_rejects_injection() {
    assert!(matches!(validate_wpa_param(""), Err(WpaError::Value(_))));
    assert!(matches!(
        validate_wpa_param("foo; rm -rf /"),
        Err(WpaError::Value(_))
    ));
    assert!(matches!(
        validate_wpa_param("foo`whoami`"),
        Err(WpaError::Value(_))
    ));
    assert!(matches!(
        validate_wpa_param("foo$(id)"),
        Err(WpaError::Value(_))
    ));
    assert!(matches!(
        validate_wpa_param("foo|bar"),
        Err(WpaError::Value(_))
    ));
    assert!(matches!(
        validate_wpa_param(&"a".repeat(257)),
        Err(WpaError::Value(_))
    ));
}

fn refusal(p: &str) -> String {
    validate_wpa_param(p).unwrap_err().to_string()
}

#[test]
fn each_param_refusal_has_its_words() {
    assert_eq!(refusal(""), "wpa_cli parameter must not be empty");
    assert_eq!(refusal(&"a".repeat(257)), "wpa_cli parameter too long (257 > 256)");
    assert_eq!(
        refusal("a|b;c|\n"),
        "wpa_cli parameter contains dangerous characters: {'|', ';', '\\n'}"
    );
    assert_eq!(
        refusal("a\0"),
        "wpa_cli parameter contains dangerous characters: {'\\0'}"
    );
    assert_eq!(
        refusal("a\"b"),
        "wpa_cli parameter contains invalid characters: \"a\\\"b\""
    );
    assert_eq!(
        refusal("é"),
        "wpa_cli parameter contains invalid characters: \"é\""
    );
    assert_eq!(validate_wpa_param("a./b_-:9 Z").unwrap(), "a./b_-:9 Z");
}

fn words(v: &[&str]) -> Vec<String> {
    v.iter().map(|s| s.to_string()).collect()
}

#[test]
fn wpa_cli_words_are_in_order() {
    let args = words(&["set", "device_name", "a; b"]);
    assert_eq!(
        wpa_cli_command("wlan0", &args, true, Some("/tmp/x")).unwrap(),
        words(&["sudo", "wpa_cli", "-p", "/tmp/x", "-i", "wlan0", "set", "device_name", "a; b"])
    );
    assert!(matches!(
        wpa_cli_command("wlan0", &args, false, None),
        Err(WpaError::Value(_))
    ));
    assert!(matches!(
        wpa_cli_command("", &args, true, None),
        Err(WpaError::Value(_))
    ));
    assert_eq!(
        wpa_cli_command("wlan0", &words(&[]), true, None).unwrap(),
        words(&["sudo", "wpa_cli", "-i", "wlan0"])
    );
}

#[test]
fn wpa_cli_failure_prefers_stderr() {
    assert_eq!(wpa_cli_answer(true, Some(0), " OK\n", "x").unwrap(), "OK");
    assert_eq!(
        wpa_cli_answer(false, Some(255), "out", " err ").unwrap_err().to_string(),
        "wpa_cli command failed with exit code 255: err"
    );
    assert_eq!(
        wpa_cli_answer(false, None, "out", " ").unwrap_err().to_string(),
        "wpa_cli command failed with exit code -1: out"
    );
    assert_eq!(
        wpa_cli_unavailable("gone").to_string(),
        "Failed to execute wpa_cli: gone"
    );
    assert_eq!(output_text(&[b'a', 0xff]), "a\u{fffd}");
}

#[test]
fn devices_are_listed_once() {
    let list = p2p_device_list(
        Some("Selected interface 'wlan0'\np2p-dev-wlan0\n p2p-dev-wlan0 \nwlan0\n"),
        Some("p2p-dev-wlan0:wifi-p2p:disconnected\nodd:wifi-p2p:x\nwlan1:wifi:connected\n"),
    );
    assert_eq!(
        list,
        vec![
            ("p2p-dev-wlan0".to_string(), "wlan0".to_string()),
            ("odd".to_string(), "odd".to_string())
        ]
    );
    assert!(p2p_device_list(None, None).is_empty());
}

#[test]
fn interface_info_reads_driver_and_state() {
    let i = interface_info(
        "p2p-dev-wlan0",
        "wlan0",
        Some("x\ndriver: iwlwifi\r\ndriver: other\n"),
        Some("wlan0:connected\nwlan1:disconnected\n"),
    );
    assert_eq!((i.driver.as_str(), i.status.as_str()), ("iwlwifi", "connected"));
    let i = interface_info("p2p-dev-wlan1", "wlan1", None, Some("wlan1:disconnected"));
    assert_eq!((i.driver.as_str(), i.status.as_str()), ("", "disconnected"));
    let i = interface_info("a", "b", None, None);
    assert_eq!(i.status, "available");
}

#[test]
fn spare_adapter_is_preferred() {
    let mut s = InterfaceSearch::new("wlan0\np2p-dev-wlan0\nwlan1\nlo\n");
    assert!(matches!(s.step(), SearchStep::Probe(n) if n == "wlan1"));
    s.answer(true);
    assert!(matches!(s.step(), SearchStep::Found(a, b) if a == "wlan1" && b == "wlan1"));
}

#[test]
fn device_in_use_is_the_fallback() {
    let mut s = InterfaceSearch::new("p2p-dev-wlan0\np2p-dev-wlan1\nwlan0\nwlan1\n");
    assert!(matches!(s.step(), SearchStep::AskStatus(n) if n == "wlan0"));
    s.answer(false);
    assert!(matches!(s.step(), SearchStep::AskStatus(n) if n == "wlan1"));
    s.answer(false);
    assert!(matches!(s.step(), SearchStep::Found(a, b) if a == "p2p-dev-wlan1" && b == "wlan1"));
    let mut s = InterfaceSearch::new("p2p-dev-wlan0\n");
    s.answer(true);
    assert!(matches!(s.step(), SearchStep::Found(a, _) if a == "p2p-dev-wlan0"));
}

#[test]
fn search_may_find_nothing() {
    let mut s = InterfaceSearch::new("wlan0\n");
    s.answer(false);
    assert!(matches!(s.step(), SearchStep::Probe(n) if n == "wlan0"));
    s.answer(false);
    match s.step() {
        SearchStep::Failed(e) => assert_eq!(
            e.to_string(),
            "No P2P-capable interface detected. Ensure Wi-Fi is enabled and wpa_supplicant has P2P support."
        ),
        _ => panic!("expected a failure"),
    }
}

#[test]
fn probes_want_ok_and_no_connection() {
    assert!(probe_passes(Some("OK\n"), Some("wpa_state=DISCONNECTED")));
    assert!(!probe_passes(Some("OK\n"), Some("wpa_state=COMPLETED")));
    assert!(!probe_passes(Some("FAIL"), Some("")));
    assert!(!probe_passes(Some("OK"), None));
    assert!(probe_find_passes(Some("OK")));
    assert!(!is_free(None));
    assert_eq!(
        listing_unavailable("x").to_string(),
        "Failed to execute wpa_cli: x. Ensure wpa_supplicant is installed and accessible."
    );
    assert_eq!(
        listing_refused().to_string(),
        "wpa_cli returned non-zero exit code. Ensure wpa_supplicant is running with P2P support."
    );
}

#[test]
fn first_idle_adapter_is_taken() {
    let listing = "p2p-dev-wlan0\np2p-dev-wlan1\np2p-dev-wlan2\nwlan3\nwlan4\n";
    let found = |answers: &[bool]| {
        let mut s = InterfaceSearch::new(listing);
        for a in answers {
            s.answer(*a);
        }
        match s.step() {
            SearchStep::Found(a, b) => format!("{a} {b}"),
            _ => "none".to_string(),
        }
    };
    assert_eq!(found(&[true]), "wlan3 wlan3");
    assert_eq!(found(&[false, true]), "wlan4 wlan4");
    assert_eq!(found(&[false, false, true]), "p2p-dev-wlan0 wlan0");
    assert_eq!(found(&[false, false, false, true]), "p2p-dev-wlan1 wlan1");
    assert_eq!(found(&[false, false, false, false]), "none");
    assert_eq!(found(&[false, false, false, false, false]), "p2p-dev-wlan2 wlan2");
}
