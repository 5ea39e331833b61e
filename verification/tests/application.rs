use ubuntu_miracast_server::config::{ServerConfig, StoredConfig};
use ubuntu_miracast_server::events::{Event, StreamStats};
use ubuntu_miracast_server::history::ServerSessionHistory;
use ubuntu_miracast_server::json::{Json, Real};
use ubuntu_miracast_server::models::{ReceiverStats, ServerSessionRecord, SourceInfo, Timestamp};
use ubuntu_miracast_server::service::{
    failure, goes_on_after, idle_steps, method_of, rollback, run_as_service, unreachable_manager,
    ServerServiceManager, ServiceAction, ServiceContext, ServiceInput, ServiceSettings, ServiceStep,
    SERVICE_NAME, SERVICE_TEMPLATE,
};
use ubuntu_miracast_server::ui::app::{
    choose_adapter, effective_interface, graceful_shutdown, handle_event, on_wifi, switch_interface,
    AppAction, AppContext, ShellStep,
};
use ubuntu_miracast_server::ui::display_view::{
    click_toggles, key_effect, DisplayState, DisplayView, Key, KeyEffect,
};
use ubuntu_miracast_server::ui::sessions_view::{clear_confirmed, refresh, row_subtitle, row_title};
use ubuntu_miracast_server::ui::settings_view::{
    build, device_name_changed, interface_label, row_changed, rtsp_port_changed, InterfaceChoices,
    SettingRow,
};
use ubuntu_miracast_server::utils::InterfaceInfo;

#[test]
fn service_template_byte_identical() {
    assert!(SERVICE_TEMPLATE.contains("Description=Ubuntu Miracast Server (Wi-Fi Display Sink)"));
    assert!(SERVICE_TEMPLATE.contains("ExecStart=/usr/bin/ubuntu-miracast-server --service"));
    assert!(SERVICE_TEMPLATE.contains("Restart=on-failure"));
    assert!(SERVICE_TEMPLATE.contains("RestartSec=5"));
    assert!(SERVICE_TEMPLATE.contains("Environment=DISPLAY=:0"));
    assert!(SERVICE_TEMPLATE.contains("WantedBy=default.target"));
    assert!(SERVICE_TEMPLATE.ends_with("WantedBy=default.target\n"));
}

#[test]
fn service_name_matches() {
    assert_eq!(SERVICE_NAME, "ubuntu-miracast-server.service");
}

fn unit(installed: bool, file: Option<&str>, active: Option<&str>) -> ServerServiceManager {
    ServerServiceManager::new(
        installed,
        file.map(|s| s.to_string()),
        active.map(|s| s.to_string()),
    )
}

#[test]
fn unit_steps_follow_its_state() {
    let m = unit(false, None, None);
    assert!(!m.is_installed() && !m.is_enabled() && !m.is_running());
    assert_eq!(
        m.enable(),
        vec![
            ServiceAction::MakeDirectory,
            ServiceAction::WriteUnit,
            ServiceAction::Reload,
            ServiceAction::Enable
        ]
    );
    assert_eq!(m.start().last(), Some(&ServiceAction::Start));
    assert_eq!(m.uninstall(), vec![ServiceAction::TryReload]);
    let m = unit(true, Some("enabled\n"), Some("active"));
    assert!(m.is_enabled() && m.is_running());
    assert_eq!(m.start(), vec![ServiceAction::Start]);
    assert_eq!(m.stop(), vec![ServiceAction::Stop]);
    assert_eq!(m.disable(), vec![ServiceAction::Disable]);
    assert_eq!(
        m.uninstall(),
        vec![
            ServiceAction::Stop,
            ServiceAction::Disable,
            ServiceAction::RemoveUnit,
            ServiceAction::TryReload
        ]
    );
    assert_eq!(m.install().len(), 3);
    assert_eq!(rollback(ServiceAction::Reload), vec![ServiceAction::RemoveUnit]);
    assert!(rollback(ServiceAction::WriteUnit).is_empty());
    assert!(goes_on_after(ServiceAction::TryReload));
    assert!(!goes_on_after(ServiceAction::Reload) && !goes_on_after(ServiceAction::RemoveUnit));
    assert_eq!(method_of(ServiceAction::Enable), Some("EnableUnitFiles"));
    assert_eq!(method_of(ServiceAction::WriteUnit), None);
    assert_eq!(
        failure(ServiceAction::Start, "x").to_string(),
        "systemctl start failed: x"
    );
    assert_eq!(
        unreachable_manager(ServiceAction::Reload, "x").to_string(),
        "Failed to daemon-reload service: x"
    );
}

fn config() -> ServerConfig {
    ServerConfig::new(StoredConfig::Missing).0
}

#[test]
fn service_settings_come_from_the_configuration() {
    let mut c = config();
    let s = ServiceSettings::from_config(&c, None, None);
    assert_eq!(s.device_name, "Ubuntu Miracast Server");
    assert_eq!((s.rtsp_port, s.rtp_port, s.go_intent), (7236, 1028, 15));
    assert_eq!(s.interface, None);
    c.set("network", "p2p_interface", Json::text("wlan1")).unwrap();
    let s = ServiceSettings::from_config(&c, Some("X".to_string()), None);
    assert_eq!(s.device_name, "X");
    assert_eq!(s.interface.as_deref(), Some("wlan1"));
    let s = ServiceSettings::from_config(&c, None, Some("wlan2".to_string()));
    assert_eq!(s.interface.as_deref(), Some("wlan2"));
}

fn context() -> ServiceContext {
    ServiceContext {
        interface_known: true,
        has_handler: true,
        has_source: true,
        receiving: true,
        idle_secs: 0,
        idle_timeout: 0,
    }
}

#[test]
fn service_reacts_to_its_inputs() {
    let c = context();
    assert_eq!(
        run_as_service(ServiceInput::Signal, &c),
        vec![
            ServiceStep::StopReceiving,
            ServiceStep::RecordStopped,
            ServiceStep::StopAdvertising,
            ServiceStep::StopListening,
            ServiceStep::Exit
        ]
    );
    assert_eq!(
        run_as_service(ServiceInput::AdvertisingError, &c),
        vec![ServiceStep::StopListening, ServiceStep::Exit]
    );
    assert_eq!(
        run_as_service(ServiceInput::StreamStopped, &c),
        vec![ServiceStep::RecordSession, ServiceStep::RearmPin]
    );
    assert_eq!(
        run_as_service(ServiceInput::StreamError, &c),
        vec![ServiceStep::StopReceiving, ServiceStep::RecordStopped, ServiceStep::RearmPin]
    );
    assert_eq!(
        run_as_service(ServiceInput::AdvertisingStarted, &c),
        vec![ServiceStep::StartListening]
    );
    assert_eq!(
        run_as_service(ServiceInput::ConnectionReceived, &c),
        vec![ServiceStep::StartReceiving]
    );
    assert!(run_as_service(ServiceInput::Nothing, &c).is_empty());
    let bare = ServiceContext {
        interface_known: false,
        has_handler: false,
        has_source: false,
        receiving: false,
        ..c
    };
    assert!(run_as_service(ServiceInput::AdvertisingStarted, &bare).is_empty());
    assert!(run_as_service(ServiceInput::StreamStopped, &bare).is_empty());
    assert_eq!(
        run_as_service(ServiceInput::ChannelClosed, &bare),
        vec![ServiceStep::Exit]
    );
}

#[test]
fn service_ends_when_idle_for_long_enough() {
    let c = ServiceContext { receiving: false, idle_timeout: 60, idle_secs: 60, ..context() };
    assert_eq!(
        idle_steps(&c),
        vec![ServiceStep::StopListening, ServiceStep::StopAdvertising, ServiceStep::Exit]
    );
    assert!(idle_steps(&ServiceContext { idle_secs: 59, ..c }).is_empty());
    assert!(idle_steps(&ServiceContext { receiving: true, ..c }).is_empty());
    assert!(idle_steps(&ServiceContext { idle_timeout: 0, ..c }).is_empty());
}

fn app() -> AppContext {
    AppContext {
        device_name: "Sink".to_string(),
        receiving: false,
        has_source: true,
        has_handler: true,
        fullscreen: true,
        fullscreen_on_stream: true,
        shutting_down: false,
    }
}

fn status(v: &[AppAction]) -> String {
    match &v[0] {
        AppAction::SetStatus(t) => t.clone(),
        _ => panic!("expected a status"),
    }
}

#[test]
fn application_reacts_to_events() {
    let v = handle_event(&Event::AdvertisingStarted { group_interface: "p2p-0".to_string() }, &app());
    assert_eq!(status(&v), "Advertising as 'Sink'");
    assert!(matches!(&v[2], AppAction::StartListening(g) if g == "p2p-0"));
    let v = handle_event(&Event::AdvertisingStarted { group_interface: String::new() }, &app());
    assert_eq!(v.len(), 2);
    let v = handle_event(
        &Event::PinDisplay { pin: "123".to_string(), peer_info: String::new() },
        &app(),
    );
    assert_eq!(status(&v), "PIN: 123 — Waiting for source to connect");
    let v = handle_event(&Event::StreamStarted, &app());
    assert!(matches!(v[2], AppAction::Fullscreen));
    let v = handle_event(&Event::StreamStopped(ReceiverStats::default()), &app());
    assert_eq!(status(&v), "Stream ended");
    assert!(matches!(v[1], AppAction::RecordSession));
    assert!(matches!(v[4], AppAction::Unfullscreen));
    assert!(matches!(v[5], AppAction::RearmPin));
    let v = handle_event(&Event::StreamError("x".to_string()), &app());
    assert!(matches!(v[1], AppAction::StopReceiving));
    assert!(matches!(v[2], AppAction::RecordStopped));
    assert_eq!(v.len(), 7);
    let ending = AppContext { shutting_down: true, ..app() };
    assert_eq!(handle_event(&Event::ConnectionError("x".to_string()), &ending).len(), 2);
    assert_eq!(status(&handle_event(&Event::AdvertisingError("x".to_string()), &app())), "Error: x");
    assert_eq!(status(&handle_event(&Event::ConnectionLost, &app())), "Connection lost");
    assert_eq!(status(&handle_event(&Event::AdvertisingStopped, &app())), "Advertising stopped");
    assert!(handle_event(&Event::ResolutionChanged { width: 1, height: 1 }, &app()).is_empty());
}

#[test]
fn application_ends_in_order_and_once() {
    assert_eq!(
        graceful_shutdown(false, true, true, true, true),
        vec![
            ShellStep::StopReceiving,
            ShellStep::RecordStopped,
            ShellStep::DisconnectPeer,
            ShellStep::StopListening,
            ShellStep::StopAdvertising,
            ShellStep::StopSupplicant
        ]
    );
    assert!(graceful_shutdown(true, true, true, true, true).is_empty());
    assert_eq!(
        graceful_shutdown(false, false, true, false, false),
        vec![ShellStep::StopAdvertising]
    );
    assert_eq!(switch_interface("wlan1", true, true).len(), 6);
    assert!(switch_interface("", true, true).is_empty());
}

#[test]
fn idle_adapter_is_taken() {
    let adapters = vec!["wlan0".to_string(), "wlan1".to_string()];
    assert_eq!(choose_adapter(None, &adapters, &vec![true, false]).as_deref(), Some("wlan1"));
    assert_eq!(choose_adapter(None, &adapters, &vec![true, true]), None);
    assert_eq!(
        choose_adapter(Some("p2p-dev-wlan9"), &adapters, &vec![false, false]).as_deref(),
        Some("wlan9")
    );
    assert_eq!(choose_adapter(Some("wlx"), &vec![], &vec![]).as_deref(), Some("wlx"));
    assert!(on_wifi(Some("wpa_state=COMPLETED")) && !on_wifi(None) && !on_wifi(Some("x")));
    assert_eq!(effective_interface(Some("a"), Some("b")).as_deref(), Some("a"));
    assert_eq!(effective_interface(None, Some("b")).as_deref(), Some("b"));
    assert_eq!(effective_interface(None, None), None);
}

fn stats(width: u32, duration: i64) -> StreamStats {
    StreamStats {
        bitrate: Real::Thousandths(0),
        peak_bitrate: Real::Thousandths(0),
        frames_decoded: 0,
        frames_dropped: 0,
        resolution: (width, 720),
        data_received: 0,
        duration,
    }
}

#[test]
fn display_follows_the_stream() {
    let mut d = DisplayView::new();
    d.set_state_idle("Sink");
    assert_eq!(d.device_label, "Discoverable as: Sink");
    d.set_pin("123");
    assert_eq!(d.pin.as_deref(), Some("123"));
    assert!(!d.pointer_moved());
    d.update_stats(&stats(1280, 65), "4.2");
    assert_eq!(d.stats_label, "");
    d.hide_pin();
    d.set_state_connected("Phone");
    assert_eq!((d.state.name(), d.source_label.as_str()), ("connected", "Phone"));
    d.set_state_receiving();
    assert!(d.stats_shown && d.pointer_moved() && d.controls_shown);
    d.update_stats(&stats(1280, 65), "4.2");
    assert_eq!(d.stats_label, "1280x720 | 4.2 Mbps | 1:05");
    d.update_stats(&stats(0, 3600), "0.0");
    assert_eq!(d.stats_label, "Unknown | 0.0 Mbps | 60:00");
    d.update_stats(&stats(1, -61), "0.0");
    assert_eq!(d.stats_label, "1x720 | 0.0 Mbps | -1:-1");
    d.pointer_rested();
    assert!(!d.controls_shown);
    d.set_state_idle("");
    assert_eq!((d.device_label.as_str(), d.stats_shown), ("", false));
    assert_eq!(d.state, DisplayState::Idle);
    assert!(click_toggles(2) && !click_toggles(1));
    assert_eq!(key_effect(Key::F11, false), KeyEffect::Fullscreen);
    assert_eq!(key_effect(Key::F11, true), KeyEffect::Unfullscreen);
    assert_eq!(key_effect(Key::Escape, true), KeyEffect::Unfullscreen);
    assert_eq!(key_effect(Key::Escape, false), KeyEffect::PassOn);
    assert_eq!(key_effect(Key::Other, true), KeyEffect::PassOn);
}

#[test]
fn session_rows_say_what_is_known() {
    let mut r = ServerSessionRecord {
        source_info: SourceInfo::default(),
        stats: ReceiverStats { duration: 125, ..Default::default() },
        timestamp: Timestamp { secs: 1_700_000_000, nanos: 0, offset: 0 },
    };
    assert_eq!(row_title(&r), "Unknown Source");
    assert_eq!(row_subtitle(&r, "1.0 MB"), "2023-11-14 22:13 · 2m 5s · 1.0 MB");
    r.source_info.name = "Phone".to_string();
    r.stats.resolution = (1920, 1080);
    r.stats.duration = -61;
    assert_eq!(row_title(&r), "Phone");
    assert_eq!(
        row_subtitle(&r, "0.0 MB"),
        "2023-11-14 22:13 · -1m -1s · 1920x1080 · 0.0 MB"
    );
    let mut h = ServerSessionHistory::new(None);
    assert!(!refresh(&h).1);
    h.add_session(&SourceInfo::default(), &ReceiverStats::default());
    assert_eq!(refresh(&h).0.len(), 1);
    assert!(clear_confirmed("clear") && !clear_confirmed("cancel"));
}

#[test]
fn settings_show_the_configuration() {
    let mut c = config();
    c.set("general", "log_level", Json::text("ERROR")).unwrap();
    c.set("streaming", "max_resolution", Json::text("odd")).unwrap();
    let g = build(&c);
    let titles: Vec<&str> = g.iter().map(|x| x.title).collect();
    assert_eq!(titles, vec!["General", "Streaming", "Network", "Service Mode"]);
    assert!(matches!(&g[0].rows[0], SettingRow::Entry { value, .. } if value == "Ubuntu Miracast Server"));
    assert!(matches!(&g[0].rows[3], SettingRow::Choice { selected: 3, .. }));
    assert!(matches!(&g[1].rows[0], SettingRow::Entry { value, .. } if value == "7236"));
    assert!(matches!(&g[1].rows[2], SettingRow::Choice { selected: 0, .. }));
    assert!(matches!(&g[2].rows[3], SettingRow::Spin { min: 1, max: 120, number: 30, .. }));
    assert!(matches!(&g[3].rows[0], SettingRow::Switch { active: false, .. }));
}

#[test]
fn settings_store_what_is_valid() {
    let mut c = config();
    assert!(!device_name_changed(&mut c, "  "));
    assert!(device_name_changed(&mut c, " Den "));
    assert_eq!(c.get_str("general", "device_name", ""), "Den");
    assert!(!rtsp_port_changed(&mut c, "80"));
    assert!(!rtsp_port_changed(&mut c, "x"));
    assert!(rtsp_port_changed(&mut c, " 8000 "));
    assert_eq!(c.get_i64("streaming", "rtsp_port", 0), 8000);
    assert!(!row_changed(&mut c, "network", "go_intent", Json::integer(16)));
    assert!(row_changed(&mut c, "service", "enabled", Json::flag(true)));
    assert!(c.get_bool("service", "enabled", false));
}

#[test]
fn interfaces_can_be_chosen() {
    let info = |i: &str, d: &str| InterfaceInfo {
        interface: i.to_string(),
        parent: "wlan0".to_string(),
        driver: d.to_string(),
        status: String::new(),
    };
    assert_eq!(interface_label(&info("p2p-dev-wlan0", "")), "p2p-dev-wlan0 (wlan0)");
    let c = InterfaceChoices::new(&vec![info("p2p-dev-wlan0", "iwlwifi")]);
    assert_eq!(c.labels, vec!["(auto-detect)", "p2p-dev-wlan0 (wlan0 — iwlwifi)"]);
    assert_eq!(c.selected("p2p-dev-wlan0"), 1);
    assert_eq!(c.selected("other"), 0);
    assert_eq!(c.selected(""), 0);
}
