use ubuntu_miracast_server::advertiser;
use ubuntu_miracast_server::advertiser::MiracastAdvertiser;
use ubuntu_miracast_server::capabilities::{
    best_go_freq, detect, is_video_driver, phy_index, pick_clean_5ghz_freq, Capabilities, GoBand,
    GoCandidate,
};
use ubuntu_miracast_server::connection::handler::HandlerAction;
use ubuntu_miracast_server::connection::{
    arm_command, classify_event, clean_event_line, connected_station, ends_banner, find_peer_ip, generate_pin,
    is_notable, lease_ip, monitor_command, monitor_step, neighbour_ip, rearm_due, station_left, ConnectionHandler,
    GroupEvent, MonitorRead, MonitorStep,
};
use ubuntu_miracast_server::models::Timestamp;
use ubuntu_miracast_server::p2p_backend::cli;
use ubuntu_miracast_server::p2p_backend::cli::{
    list_group_interfaces, new_group_interface, parse_group_interface, BringUp, BringUpStep, Phase,
    ReportStep, WpaCliBackend, WpaCommand,
};
use ubuntu_miracast_server::p2p_backend::dbus;
use ubuntu_miracast_server::p2p_backend::dbus::{build_wfd_ies, hex_decode, peer_mac, signal_step, Signal};
use ubuntu_miracast_server::p2p_backend::{
    after_arm_attempt, choose_backend, ArmStep, BackendChoice, BackendError, P2pEvent,
};
use ubuntu_miracast_server::p2p_supplicant::{
    render_config, P2PSupplicantManager, StartEvent, StartStep,
};
use ubuntu_miracast_server::utils::WpaError;

#[test]
fn advertiser_device_info_subelement_hex_is_exact() {
    assert_eq!(advertiser::encode_wfd_device_info(7236), "000600111C44012C");
}

#[test]
fn device_info_subelement_other_port() {
    assert_eq!(advertiser::encode_wfd_device_info(7237), "000600111C45012C");
}

#[test]
fn advertiser_subelement_constants_match_python() {
    assert_eq!(advertiser::WFD_ASSOCIATED_BSSID_SUBELEMENT, "0006000000000000");
    assert_eq!(advertiser::WFD_COUPLED_SINK_SUBELEMENT, "000700000000000000");
}

const IW_PHY_SAMPLE: &str = "\
	Band 4:
		Frequencies:
			* 5180.0 MHz [36] (22.0 dBm) (no IR)
			* 5200.0 MHz [40] (22.0 dBm) (no IR)
			* 5260.0 MHz [52] (22.0 dBm) (no IR, radar detection)
			* 5745.0 MHz [149] (22.0 dBm)
			* 5765.0 MHz [153] (22.0 dBm)
			* 2412 MHz [1] (20.0 dBm)
";

#[test]
fn picks_lowest_clean_5ghz_skipping_no_ir_and_dfs() {
    assert_eq!(pick_clean_5ghz_freq(IW_PHY_SAMPLE), Some(5745));
}

#[test]
fn picks_unii1_when_clean() {
    let s = "\
			* 5180.0 MHz [36] (23.0 dBm)
			* 5200.0 MHz [40] (23.0 dBm)
			* 5745.0 MHz [149] (13.0 dBm)
";
    assert_eq!(pick_clean_5ghz_freq(s), Some(5180));
}

#[test]
fn no_clean_5ghz_returns_none() {
    let s = "\
			* 5180.0 MHz [36] (22.0 dBm) (no IR)
			* 5260.0 MHz [52] (22.0 dBm) (no IR, radar detection)
			* 5845.0 MHz [169] (disabled)
			* 2412 MHz [1] (20.0 dBm)
";
    assert_eq!(pick_clean_5ghz_freq(s), None);
}

#[test]
fn excludes_6ghz() {
    let s = "			* 5955.0 MHz [1] (23.0 dBm)\n";
    assert_eq!(pick_clean_5ghz_freq(s), None);
}

fn consistent(caps: &Capabilities) {
    match caps.go_band {
        GoBand::Band5 => {
            assert!(caps.go_freq_mhz >= 5000);
            assert_eq!(caps.max_resolution, (1920, 1080));
        }
        GoBand::Band24 => {
            assert!(caps.go_freq_mhz < 5000);
            assert_eq!(caps.max_resolution, (1280, 720));
        }
    }
}

#[test]
fn detect_band_and_resolution_are_consistent() {
    let caps = detect(vec![], false, false);
    consistent(&caps);
    assert_eq!(caps.go_band, GoBand::Band24);
    assert!(!caps.audio);
    let caps = detect(
        vec![
            ("wlan0".to_string(), None),
            ("wlan1".to_string(), Some(IW_PHY_SAMPLE.to_string())),
        ],
        true,
        true,
    );
    consistent(&caps);
    assert_eq!(caps.go_band, GoBand::Band5);
    assert_eq!(
        caps.report(),
        "adapters=[wlan0,wlan1] GO=5745MHz (5GHz) res=1920x1080 hw_decode=true audio=true"
    );
}

#[test]
fn first_radio_with_a_clean_channel_wins() {
    let other = "* 5500 MHz [100]\n* 5180 MHz [36]".to_string();
    assert_eq!(
        best_go_freq(&vec![Some("nothing".to_string()), Some(IW_PHY_SAMPLE.to_string()), Some(other)]),
        Some(5745)
    );
    assert_eq!(best_go_freq(&vec![None]), None);
    assert!(is_video_driver("iHD_drv_video.so"));
    assert!(!is_video_driver("iHD_drv_video.so.1"));
    assert_eq!(phy_index(" 3\n"), Some(3));
    assert_eq!(phy_index("x"), None);
}

#[test]
fn cli_device_info_subelement_hex_is_exact() {
    assert_eq!(cli::encode_wfd_device_info(7236), "000600111C44012C");
    assert_eq!(cli::encode_wfd_device_info(7237), "000600111C45012C");
}

#[test]
fn cli_subelement_constants_match_python() {
    assert_eq!(cli::WFD_ASSOCIATED_BSSID_SUBELEMENT, "0006000000000000");
    assert_eq!(cli::WFD_COUPLED_SINK_SUBELEMENT, "000700000000000000");
}

#[test]
fn lists_iface_name_not_the_whole_ip_link_line() {
    let out = "1: lo: <LOOPBACK,UP> mtu 65536\n\
               3: p2p-0: <NO-CARRIER,BROADCAST,MULTICAST,UP> mtu 1500 qdisc noqueue state DOWN";
    assert_eq!(list_group_interfaces(out), vec!["p2p-0".to_string()]);
    assert_eq!(parse_group_interface(out), Some("p2p-0".to_string()));
}

#[test]
fn lists_iface_name_with_parent_suffix() {
    let out = "5: p2p-wlan0-0@wlan0: <BROADCAST,MULTICAST> mtu 1500";
    assert_eq!(list_group_interfaces(out), vec!["p2p-wlan0-0".to_string()]);
}

#[test]
fn no_p2p_interface_returns_empty() {
    assert!(list_group_interfaces("1: lo: <LOOPBACK,UP>\n2: wlan0: <UP>").is_empty());
    assert_eq!(parse_group_interface(""), None);
}

#[test]
fn new_group_detected_by_diff_ignoring_stale() {
    let before = vec!["p2p-wlo1-8".to_string()];
    let after = "3: p2p-wlo1-8: <UP> mtu 1500\n\
                 7: p2p-wlx3c78950c6ede-0: <UP> mtu 1500";
    let current = list_group_interfaces(after);
    let new: Vec<_> = current.iter().filter(|i| !before.contains(i)).collect();
    assert_eq!(new, vec![&"p2p-wlx3c78950c6ede-0".to_string()]);
    assert_eq!(
        new_group_interface(&current, &before),
        Some("p2p-wlx3c78950c6ede-0".to_string())
    );
    assert_eq!(new_group_interface(&before, &before), None);
}

#[test]
fn wfd_ies_device_info_prefix_for_7236() {
    let ies = build_wfd_ies(7236).expect("build");
    assert_eq!(
        &ies[0..8],
        &[0x00, 0x06, 0x00, 0x11, 0x1C, 0x44, 0x01, 0x2C]
    );
}

#[test]
fn wfd_ies_full_assembly_matches_cli_subelements() {
    let ies = build_wfd_ies(7236).expect("build");
    assert_eq!(ies.len(), 8 + 8 + 9);
    assert_eq!(
        &ies[8..16],
        &[0x00, 0x06, 0x00, 0x00, 0x00, 0x00, 0x00, 0x00]
    );
    assert_eq!(
        &ies[16..25],
        &[0x00, 0x07, 0x00, 0x00, 0x00, 0x00, 0x00, 0x00, 0x00]
    );
}

#[test]
fn hex_decode_roundtrip() {
    assert_eq!(
        hex_decode("000600111C44012C").unwrap(),
        vec![0x00, 0x06, 0x00, 0x11, 0x1C, 0x44, 0x01, 0x2C]
    );
    assert!(hex_decode("ABC").is_err());
    assert!(hex_decode("ZZ").is_err());
    assert_eq!(hex_decode("ABC").unwrap_err().to_string(), "odd-length hex: ABC");
    assert_eq!(hex_decode("0g").unwrap_err().to_string(), "bad hex byte: g");
    assert_eq!(hex_decode("ff0A").unwrap(), vec![255, 10]);
}

#[test]
fn mac_formats_lowercase_colon_separated() {
    assert_eq!(
        peer_mac(&vec![0xAA, 0xBB, 0xCC, 0x00, 0x11, 0x2F]).unwrap(),
        "aa:bb:cc:00:11:2f"
    );
    assert_eq!(
        peer_mac(&vec![1, 2]).unwrap_err().to_string(),
        "peer DeviceAddress has 2 bytes, expected 6"
    );
}

#[test]
fn pin_is_eight_digits() {
    let mut seen: Vec<String> = Vec::new();
    for _ in 0..100 {
        let pin = generate_pin();
        assert_eq!(pin.len(), 8);
        assert!(pin.chars().all(|c| c.is_ascii_digit()));
        assert!(!pin.starts_with('0'));
        seen.push(pin);
    }
    seen.dedup();
    assert!(seen.len() > 1);
}

#[test]
fn ap_sta_connected_pattern_extracts_mac() {
    assert_eq!(
        connected_station("<3>AP-STA-CONNECTED 00:11:22:33:44:55 p2p_dev_addr=..."),
        Some("00:11:22:33:44:55".to_string())
    );
    assert_eq!(connected_station("AP-STA-CONNECTED00:11:22:33:44:55"), None);
    assert_eq!(
        connected_station("AP-STA-CONNECTED x AP-STA-CONNECTED\u{a0}\t00:11:22:33:44:66"),
        Some("00:11:22:33:44:66".to_string())
    );
}

#[test]
fn ap_sta_disconnected_pattern_matches() {
    assert!(station_left("<3>AP-STA-DISCONNECTED aa:bb:cc:dd:ee:ff"));
    assert!(!station_left("AP-STA-CONNECTED aa:bb:cc:dd:ee:ff"));
    assert!(!station_left("AP-STA-DISCONNECTED aa:bb"));
}

#[test]
fn event_lines_are_cleaned() {
    assert_eq!(clean_event_line(" \r\n"), None);
    assert_eq!(clean_event_line("> "), None);
    assert_eq!(clean_event_line(">\n"), None);
    assert_eq!(clean_event_line("> <3>X \n"), Some("<3>X".to_string()));
    assert_eq!(clean_event_line(">> x"), Some("> x".to_string()));
    assert!(ends_banner("Interactive mode\n") && ends_banner(" > ") && !ends_banner("x"));
    assert!(is_notable("P2P") && !is_notable("p2p"));
}

#[test]
fn events_are_classified_in_order() {
    assert!(matches!(
        classify_event("AP-STA-CONNECTED aa:bb:cc:dd:ee:ff WPS-PIN-NEEDED"),
        GroupEvent::StationConnected(m) if m == "aa:bb:cc:dd:ee:ff"
    ));
    assert!(matches!(classify_event("WPS-PIN-NEEDED x"), GroupEvent::PinNeeded));
    assert!(matches!(
        classify_event("AP-STA-DISCONNECTED aa:bb:cc:dd:ee:ff"),
        GroupEvent::StationDisconnected
    ));
    assert!(matches!(classify_event("P2P-GROUP-REMOVED p2p-0"), GroupEvent::GroupRemoved));
    assert!(matches!(classify_event("CTRL-EVENT"), GroupEvent::Other));
    assert!(matches!(monitor_step(MonitorRead::End), MonitorStep::Stop));
    assert!(matches!(monitor_step(MonitorRead::Failed { died: true }), MonitorStep::Stop));
    assert!(matches!(monitor_step(MonitorRead::Failed { died: false }), MonitorStep::Continue));
    assert!(matches!(
        monitor_step(MonitorRead::Line("> P2P-GROUP-REMOVED")),
        MonitorStep::Stop
    ));
    assert!(matches!(
        monitor_step(MonitorRead::Line("WPS-PIN-NEEDED")),
        MonitorStep::Handle(GroupEvent::PinNeeded)
    ));
    assert!(matches!(monitor_step(MonitorRead::Line("other")), MonitorStep::Continue));
    assert!(rearm_due(90) && !rearm_due(89));
}

#[test]
fn addresses_are_found_without_regard_to_case() {
    let leases = "1700 aa:bb:cc:dd:ee:00 192.168.173.81 a\n1700 AA:BB:CC:DD:EE:FF 192.168.173.82 b c\n";
    assert_eq!(lease_ip(leases, "aa:bb:cc:dd:ee:ff"), Some("192.168.173.82".to_string()));
    assert_eq!(lease_ip(leases, "11:bb:cc:dd:ee:ff"), None);
    let table = "192.168.173.83 lladdr AA:BB:CC:DD:EE:11 REACHABLE\n";
    assert_eq!(neighbour_ip(table, "aa:bb:cc:dd:ee:11"), Some("192.168.173.83".to_string()));
    assert_eq!(
        find_peer_ip(Some(leases), Some(table), "AA:bb:CC:dd:EE:11"),
        Some("192.168.173.83".to_string())
    );
    assert_eq!(find_peer_ip(None, None, "AA:bb:CC:dd:EE:11"), None);
}

fn is_arm(a: &HandlerAction, g: &str, p: &str) -> bool {
    matches!(a, HandlerAction::ArmPin { group_interface, pin } if group_interface == g && pin == p)
}

#[test]
fn group_interface_is_armed_and_watched() {
    assert_eq!(text(&arm_command("12345678")), "wps_pin any 12345678");
    assert_eq!(monitor_command("p2p-0", None).join(" "), "sudo wpa_cli -i p2p-0");
    assert_eq!(
        monitor_command("p2p-0", Some("/tmp/c")).join(" "),
        "sudo wpa_cli -p /tmp/c -i p2p-0"
    );
    let status = cli::status_command();
    assert_eq!((text(&status), status.skip_last_validation), ("status".to_string(), true));
}

#[test]
fn handler_forgets_the_source() {
    let mut h = ConnectionHandler::new("wlan0", 15, true, 30);
    h.set_ctrl_path(Some("/tmp/c".to_string()));
    h.set_p2p_interface("wlan1");
    assert_eq!((h.ctrl_path.as_deref(), h.p2p_interface.as_str()), (Some("/tmp/c"), "wlan1"));
    h.start_listening_with("p2p-0", "12345678");
    h.station_connected_at("aa:bb:cc:dd:ee:ff", Some("192.168.173.81"), "p2p-0", Timestamp::now());
    assert_eq!(h.active_connection().unwrap().peer_ip, "192.168.173.81");
    h.disconnect_peer();
    assert!(h.active_connection().is_none());
    assert!(h.station_disconnected().is_empty());
}

#[test]
fn handler_listens_once() {
    let mut h = ConnectionHandler::new("wlan0", 15, true, 30);
    let v = h.start_listening_with("p2p-0", "12345678");
    assert_eq!(v.len(), 4);
    assert!(matches!(&v[0], HandlerAction::SetUpAddressing(g) if g == "p2p-0"));
    assert!(is_arm(&v[1], "p2p-0", "12345678"));
    assert!(matches!(&v[2], HandlerAction::ShowPin { pin, peer_info }
        if pin == "12345678" && peer_info == "Waiting for source..."));
    assert!(matches!(&v[3], HandlerAction::StartMonitor(g) if g == "p2p-0"));
    assert!(h.is_listening());
    assert!(h.start_listening("p2p-1").is_empty());
    assert!(is_arm(&h.pin_needed()[0], "p2p-0", "12345678"));
    h.stop_listening();
    assert!(!h.is_listening());
}

#[test]
fn handler_reports_source_and_loss_once() {
    let mut h = ConnectionHandler::new("wlan0", 15, true, 30);
    h.start_listening_with("p2p-0", "12345678");
    assert!(h.station_disconnected().is_empty());
    let now = Timestamp::now();
    let v = h.station_connected_at("aa:bb:cc:dd:ee:ff", None, "p2p-0", now);
    match &v[0] {
        HandlerAction::ReportConnection(c) => {
            assert_eq!(c.peer_ip, "192.168.173.80");
            assert_eq!(c.peer_name, "Miracast Source");
            assert_eq!(c.our_ip, "192.168.173.1");
        }
        _ => panic!("expected a connection"),
    }
    assert!(h.active_connection().is_some());
    let v = h.station_disconnected_with("87654321");
    assert_eq!(v.len(), 3);
    assert!(matches!(&v[0], HandlerAction::ReportLoss));
    assert!(is_arm(&v[1], "p2p-0", "87654321"));
    assert!(h.station_disconnected_with("11111111").is_empty());
    let v = h.station_connected_at("nonsense", Some("1.2.3.4"), "p2p-0", now);
    assert!(matches!(&v[0], HandlerAction::ReportError(m) if m.starts_with("peer_address: ")));
    assert!(h.active_connection().is_none());
    assert_eq!(h.rearm_with("22222222").len(), 2);
    assert_eq!(h.rearm_wps_pin().len(), 2);
    let drawn: u32 = h.current_pin.clone().unwrap().parse().unwrap();
    assert!((10_000_000..=99_999_999).contains(&drawn));
    let mut idle = ConnectionHandler::new("wlan0", 15, true, 30);
    assert_eq!(idle.rearm_with("22222222").len(), 1);
    assert!(idle.pin_needed().is_empty());
}

fn text(c: &WpaCommand) -> String {
    c.args.join(" ")
}

#[test]
fn setup_commands_are_in_order() {
    let v = cli::setup_commands("My Sink; x", 7236);
    let all: Vec<String> = v.iter().map(text).collect();
    assert_eq!(
        all,
        vec![
            "set wifi_display 1",
            "wfd_subelem_set 0 000600111C44012C",
            "wfd_subelem_set 1 0006000000000000",
            "wfd_subelem_set 6 000700000000000000",
            "set device_name My Sink; x",
            "set device_type 7-0050F204-1",
            "set p2p_go_ht40 1",
            "p2p_find type=progressive",
        ]
    );
    let skips: Vec<bool> = v.iter().map(|c| c.skip_last_validation).collect();
    assert_eq!(skips, vec![false, false, false, false, true, false, false, true]);
    assert_eq!(text(&cli::discovery_commands()[0]), "p2p_ext_listen 200 500");
    assert_eq!(cli::group_commands(7236).len(), 2);
    assert_eq!(text(&cli::arm_command("12345678")), "wps_pin any 12345678 300");
    assert_eq!(text(&cli::remove_group_command("p2p-0")), "p2p_group_remove p2p-0");
}

fn rung(freq_mhz: u32, band: GoBand, label: &'static str) -> GoCandidate {
    GoCandidate { freq_mhz, band, max_resolution: (1920, freq_mhz), label }
}

#[test]
fn ladder_is_rotated() {
    let mut b = WpaCliBackend::new(None);
    assert_eq!(b.ladder().len(), 2);
    assert_eq!(b.ladder()[0].freq_mhz, 2412);
    assert_eq!(b.rotate_discovery_channel(), None);
    assert_eq!(b.ladder()[0].freq_mhz, 0);
    let mut b = WpaCliBackend::new(Some("/tmp/x".to_string()))
        .with_interface(Some("wlan0".to_string()))
        .with_go_candidates(
            vec![
                rung(2412, GoBand::Band24, "ch1"),
                rung(2437, GoBand::Band24, "ch6"),
                rung(5180, GoBand::Band5, "ch36"),
            ],
            (1, 2),
        );
    assert_eq!(b.p2p_interface.as_deref(), Some("wlan0"));
    assert_eq!(b.rotate_discovery_channel(), Some("ch6".to_string()));
    let freqs: Vec<u32> = b.ladder().iter().map(|c| c.freq_mhz).collect();
    assert_eq!(freqs, vec![2437, 5180, 2412]);
    assert_eq!(b.rotate_discovery_channel(), None);
}

#[test]
fn bring_up_takes_the_first_rung_that_holds() {
    let mut b = BringUp::new(vec![
        rung(2412, GoBand::Band24, "a"),
        rung(2437, GoBand::Band24, "b"),
        rung(2462, GoBand::Band24, "c"),
        rung(5180, GoBand::Band5, "d"),
    ]);
    assert!(matches!(b.step(), BringUpStep::AddGroup(c) if text(&c) == "p2p_group_add persistent freq=2412"));
    b.group_added("FAIL");
    b.group_added("OK");
    assert!(matches!(b.step(), BringUpStep::AwaitInterface));
    b.interface_appeared(None);
    b.group_added("OK");
    b.interface_appeared(Some("p2p-0".to_string()));
    assert!(matches!(b.step(), BringUpStep::ReadStatus(i) if i == "p2p-0"));
    b.status_read(Some("a=1\nfreq=5180\n"));
    assert!(matches!(b.step(), BringUpStep::RemoveGroup(i) if i == "p2p-0"));
    b.group_removed();
    assert_eq!((b.phase, b.rung), (Phase::Adding, 3));
    b.group_added("OK");
    b.interface_appeared(Some("p2p-1".to_string()));
    b.status_read(Some("freq= 5180"));
    assert!(matches!(b.step(), BringUpStep::Up(i, (1920, 5180)) if i == "p2p-1"));
}

#[test]
fn bring_up_may_fail() {
    let mut b = BringUp::new(vec![rung(0, GoBand::Band5, "a")]);
    assert!(matches!(b.step(), BringUpStep::AddGroup(c) if text(&c) == "p2p_group_add persistent"));
    b.group_added("OK");
    b.interface_appeared(Some("p2p-0".to_string()));
    b.status_read(Some("nothing"));
    b.group_removed();
    assert!(matches!(b.step(), BringUpStep::Failed(e)
        if e.to_string() == "GO bring-up failed on all candidate configs (see per-rung warnings)"));
    let mut b = BringUp::new(vec![rung(0, GoBand::Band5, "a")]);
    b.group_added("OK");
    b.interface_appeared(Some("p2p-0".to_string()));
    b.status_read(None);
    assert_eq!(b.phase, Phase::Up);
}

#[test]
fn reports_put_addresses_in_lower_case() {
    match cli::report_step(MonitorRead::Line("> <3>AP-STA-CONNECTED AA:BB:CC:DD:EE:0F\n")) {
        ReportStep::Report(P2pEvent::PeerConnected { mac }) => assert_eq!(mac, "aa:bb:cc:dd:ee:0f"),
        _ => panic!("expected a report"),
    }
    assert!(matches!(
        cli::report_step(MonitorRead::Line("P2P-GROUP-REMOVED")),
        ReportStep::ReportAndStop(P2pEvent::GroupRemoved)
    ));
    assert!(matches!(cli::report_step(MonitorRead::End), ReportStep::Stop));
    assert!(cli::rearm_due(240) && !cli::rearm_due(239));
    assert!(matches!(cli::monitor_not_started("x"), P2pEvent::Error(m)
        if m == "Failed to start event monitor: x"));
    assert!(matches!(cli::monitor_ended_at_once(" y\n"), P2pEvent::Error(m)
        if m == "wpa_cli failed: y"));
}

#[test]
fn signals_are_reported() {
    assert!(matches!(
        signal_step(Signal::PeerJoined(Some("m".to_string()))),
        ReportStep::Report(P2pEvent::PeerConnected { mac }) if mac == "m"
    ));
    assert!(matches!(signal_step(Signal::PeerJoined(None)), ReportStep::Continue));
    assert!(matches!(
        signal_step(Signal::GroupFinished),
        ReportStep::ReportAndStop(P2pEvent::GroupRemoved)
    ));
    assert!(matches!(signal_step(Signal::Nothing), ReportStep::Continue));
    assert!(matches!(signal_step(Signal::Ended), ReportStep::ReportAndStop(P2pEvent::Error(_))));
    assert!(matches!(
        signal_step(Signal::PeerDisconnected),
        ReportStep::Report(P2pEvent::PeerDisconnected)
    ));
    assert!(dbus::rearm_due(90) && !dbus::rearm_due(89));
    assert!(matches!(dbus::group_not_found("p2p-0"), P2pEvent::Error(m)
        if m == "group interface p2p-0 not found on D-Bus"));
    assert!(matches!(dbus::subscription_failed("PeerJoined", "x"), P2pEvent::Error(m)
        if m == "subscribe PeerJoined failed: x"));
    assert_eq!(
        dbus::group_not_started().to_string(),
        "P2P group interface did not appear within 10 seconds"
    );
}

#[test]
fn backend_is_chosen_by_its_name() {
    assert_eq!(choose_backend(Some("DBus"), true), BackendChoice::Dbus);
    assert_eq!(choose_backend(Some("dbus"), false), BackendChoice::Cli);
    assert_eq!(choose_backend(Some("x"), true), BackendChoice::Cli);
    assert_eq!(choose_backend(None, true), BackendChoice::Cli);
    assert!(matches!(after_arm_attempt(0, true), ArmStep::Armed));
    assert!(matches!(after_arm_attempt(8, false), ArmStep::Retry));
    assert!(matches!(after_arm_attempt(9, false), ArmStep::GiveUp(_)));
    assert!(cli::arm_succeeded(Some("OK")) && !cli::arm_succeeded(Some("FAIL")));
    assert!(!cli::arm_succeeded(None));
    let e: BackendError = WpaError::Value("v".to_string()).into();
    assert!(matches!(e, BackendError::Value(m) if m == "v"));
    let e = BackendError::from(WpaError::Runtime("r".to_string()));
    assert_eq!(e.to_string(), "r");
}

#[test]
fn advertiser_announces_and_leaves() {
    let mut a = MiracastAdvertiser::new("Sink", 7236, None, Some("/c".to_string()));
    assert!(a.stop_advertising().is_none());
    let v = a.start_advertising().unwrap();
    assert_eq!(v.len(), 9);
    assert_eq!(text(&v[8]), "p2p_group_add persistent");
    assert_eq!(a.target_interface(None), "");
    a.set_p2p_interface("wlan0");
    assert_eq!(a.target_interface(None), "wlan0");
    assert_eq!(a.target_interface(Some("p2p-0")), "p2p-0");
    assert_eq!(
        a.group_refused("FAIL-BUSY").unwrap().to_string(),
        "p2p_group_add failed: FAIL-BUSY"
    );
    assert!(a.group_refused("OK").is_none());
    assert_eq!(
        a.start_failure(&a.group_missing()),
        "Failed to start advertising: P2P group interface did not appear within 10 seconds"
    );
    a.advertising_started("p2p-0");
    assert!(a.is_advertising());
    assert!(a.start_advertising().is_none());
    assert_eq!(a.group_interface().as_deref(), Some("p2p-0"));
    assert_eq!(a.ctrl_path().as_deref(), Some("/c"));
    assert_eq!(a.p2p_interface().as_deref(), Some("wlan0"));
    let plan = a.stop_advertising().unwrap();
    assert_eq!(text(&plan.remove.unwrap()), "p2p_group_remove p2p-0");
    assert!(!a.is_advertising());
    assert!(a.group_interface().is_none());
}

#[test]
fn config_template_is_byte_identical() {
    let m = P2PSupplicantManager::new("wlan0", "Ubuntu Miracast Server");
    let content = render_config(m.ctrl_path(), "Ubuntu Miracast Server");
    let expected = "ctrl_interface=/tmp/miracast-wpa-p2p\n\
                    update_config=1\n\
                    device_name=Ubuntu Miracast Server\n\
                    device_type=7-0050F204-1\n\
                    p2p_go_intent=1\n\
                    driver_param=p2p_device=1\n\
                    country=FR\n";
    assert_eq!(content, expected);
}

#[test]
fn ctrl_path_matches_python_default() {
    let m = P2PSupplicantManager::new("wlan0", "x");
    assert_eq!(m.ctrl_path(), "/tmp/miracast-wpa-p2p");
}

fn failure_of(step: StartStep) -> (String, bool, bool) {
    match step {
        StartStep::Fail { error, give_back, stop } => {
            (error.to_string(), give_back.is_some(), stop.is_some())
        }
        _ => panic!("expected a failure"),
    }
}

#[test]
fn supplicant_starts_step_by_step() {
    let mut m = P2PSupplicantManager::new("wlan0", "x");
    assert_eq!(m.interface(), "wlan0");
    assert!(m.stop().is_none());
    assert!(matches!(m.start(StartEvent::Asked), StartStep::EndStale(c)
        if c.join(" ") == "sudo pkill -f wpa_supplicant.*-i.*wlan0"));
    assert!(matches!(m.start(StartEvent::StaleEnded), StartStep::Unmanage(c)
        if c.join(" ") == "nmcli device set wlan0 managed no"));
    assert!(matches!(m.start(StartEvent::Unmanaged(true)), StartStep::WriteConfig(t)
        if t == render_config("/tmp/miracast-wpa-p2p", "x")));
    assert!(matches!(m.start(StartEvent::Written(None)), StartStep::MakeDirectory));
    assert!(matches!(m.start(StartEvent::DirectoryMade(None)), StartStep::Spawn(c)
        if c.join(" ") == "sudo wpa_supplicant -i wlan0 -c /tmp/miracast-wpa-p2p.conf -D nl80211 \
                           -f /tmp/miracast-wpa-p2p.log"));
    assert!(matches!(m.start(StartEvent::Spawned(None)), StartStep::AwaitSocket(p)
        if p == "/tmp/miracast-wpa-p2p/wlan0"));
    assert!(matches!(m.start(StartEvent::SocketAwaited(true)), StartStep::Running));
    assert!(matches!(m.start(StartEvent::Asked), StartStep::Nothing));
    let s = m.stop().unwrap();
    assert!(s.end_process);
    assert_eq!(s.give_back.unwrap().join(" "), "nmcli device set wlan0 managed yes");
    assert!(m.stop().is_none());
    assert_eq!(m.socket_path(), "/tmp/miracast-wpa-p2p/wlan0");
    assert_eq!(P2PSupplicantManager::new("/run/x", "x").socket_path(), "/run/x");
    assert_eq!(P2PSupplicantManager::new("a/b", "x").socket_path(), "/tmp/miracast-wpa-p2p/a/b");
    assert_eq!(m.kill_command(7, true).join(" "), "sudo kill -9 7");
    assert_eq!(m.kill_command(7, false).join(" "), "sudo kill 7");
}

#[test]
fn failed_supplicant_is_undone() {
    let mut m = P2PSupplicantManager::new("wlan0", "x");
    m.start(StartEvent::Unmanaged(true));
    assert_eq!(
        failure_of(m.start(StartEvent::Written(Some("no")))),
        ("Failed to write wpa_supplicant config: no".to_string(), false, false)
    );
    assert_eq!(
        failure_of(m.start(StartEvent::DirectoryMade(Some("no")))),
        ("Failed to create ctrl dir: no".to_string(), false, false)
    );
    assert_eq!(
        failure_of(m.start(StartEvent::Spawned(Some("no")))),
        ("Failed to start wpa_supplicant: no".to_string(), true, false)
    );
    m.start(StartEvent::Spawned(None));
    assert_eq!(
        failure_of(m.start(StartEvent::SocketAwaited(false))),
        (
            "wpa_supplicant started but control socket not created within 5 seconds. \
             Check /tmp/miracast-wpa-p2p.log for errors."
                .to_string(),
            false,
            true
        )
    );
    assert!(m.stop().is_none());
}

#[test]
fn supplicant_takes_commands() {
    let m = P2PSupplicantManager::new("wlan0", "x");
    let args = vec!["status".to_string(), "x".to_string()];
    assert_eq!(
        m.wpa_cli_command(&args).join(" "),
        "sudo wpa_cli -p /tmp/miracast-wpa-p2p -i wlan0 status x"
    );
    assert_eq!(m.wpa_cli_answer(&args, Some((true, " a ", ""))).unwrap(), "a");
    assert_eq!(
        m.wpa_cli_answer(&args, Some((false, " a ", ""))).unwrap_err().0,
        "wpa_cli command failed: status x: a"
    );
    assert_eq!(
        m.wpa_cli_answer(&args, None).unwrap_err().0,
        "wpa_cli command timed out: status x"
    );
}

#[test]
fn adapters_are_taken_in_the_order_of_their_names() {
    let only = |mhz: &str| Some(format!("* {mhz} MHz [1]"));
    let caps = detect(
        vec![
            ("wlan1".to_string(), only("5745")),
            ("wlan10".to_string(), None),
            ("wlan0".to_string(), only("5180")),
        ],
        false,
        false,
    );
    assert_eq!(caps.wifi_interfaces, vec!["wlan0", "wlan1", "wlan10"]);
    assert_eq!(caps.go_freq_mhz, 5180);
    let caps = detect(
        vec![("b".to_string(), only("5180")), ("a".to_string(), only("5745"))],
        false,
        false,
    );
    assert_eq!(caps.wifi_interfaces, vec!["a", "b"]);
    assert_eq!(caps.go_freq_mhz, 5745);
}
