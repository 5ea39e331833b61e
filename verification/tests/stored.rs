use ubuntu_miracast_server::config::{validate, ServerConfig, StoredConfig};
use ubuntu_miracast_server::history::{ServerSessionHistory, MAX_RECORDS};
use ubuntu_miracast_server::json::{Json, Number};
use ubuntu_miracast_server::models::{ReceiverStats, SourceInfo, Timestamp};

fn fresh() -> ServerConfig {
    let (cfg, write) = ServerConfig::new(StoredConfig::Missing);
    assert!(write);
    cfg
}

#[test]
fn defaults_are_present() {
    let cfg = fresh();
    assert_eq!(cfg.get_str("general", "device_name", "x"), "Ubuntu Miracast Server");
    assert_eq!(cfg.get_i64("streaming", "rtsp_port", 0), 7236);
    assert_eq!(cfg.get_i64("network", "rtp_port", 0), 1028);
    assert!(cfg.get_bool("streaming", "audio_enabled", false));
    assert_eq!(cfg.get_i64("service", "idle_timeout", 9), 0);
    assert_eq!(cfg.get_i64("advanced", "buffer_size_ms", 0), 100);
    assert_eq!(cfg.get_str("display", "preferred_resolution", ""), "1920x1080");
}

#[test]
fn set_validates_range() {
    let mut cfg = fresh();
    assert!(cfg.set("network", "go_intent", Json::integer(20)).is_err());
    assert!(cfg.set("network", "go_intent", Json::integer(10)).is_ok());
    assert_eq!(cfg.get_i64("network", "go_intent", 0), 10);
}

#[test]
fn set_rejects_bool_for_int_key() {
    let mut cfg = fresh();
    assert!(cfg.set("streaming", "rtsp_port", Json::flag(true)).is_err());
}

#[test]
fn persisted_value_survives_reload() {
    let mut cfg = fresh();
    cfg.set("network", "rtp_port", Json::integer(2000)).unwrap();
    let (cfg2, write) = ServerConfig::new(StoredConfig::Parsed(cfg.config));
    assert!(!write);
    assert_eq!(cfg2.get_i64("network", "rtp_port", 0), 2000);
}

#[test]
fn refused_value_changes_nothing() {
    let mut cfg = fresh();
    assert_eq!(
        cfg.set("network", "connection_timeout", Json::integer(0)).unwrap_err(),
        "network.connection_timeout must be >= 1, got 0"
    );
    assert_eq!(
        cfg.set("network", "go_intent", Json::integer(99)).unwrap_err(),
        "network.go_intent must be <= 15, got 99"
    );
    assert_eq!(
        cfg.set("network", "go_intent", Json::Number(Number::Large(u64::MAX))).unwrap_err(),
        "network.go_intent must be <= 15, got 18446744073709551615"
    );
    assert_eq!(cfg.get_i64("network", "connection_timeout", 5), 30);
    assert_eq!(cfg.get_i64("network", "go_intent", 5), 15);
}

#[test]
fn each_kind_is_named() {
    let kind = |v: Json| validate("streaming", "rtsp_port", &v).unwrap_err();
    assert_eq!(kind(Json::Null), "streaming.rtsp_port must be int, got null");
    assert_eq!(kind(Json::flag(true)), "streaming.rtsp_port must be int, got bool");
    assert_eq!(kind(Json::text("1")), "streaming.rtsp_port must be int, got str");
    assert_eq!(kind(Json::list(vec![])), "streaming.rtsp_port must be int, got list");
    assert_eq!(kind(Json::object(vec![])), "streaming.rtsp_port must be int, got dict");
    assert!(validate("streaming", "other", &Json::Null).is_ok());
    assert!(validate("streaming", "rtsp_port", &Json::integer(65535)).is_ok());
}

#[test]
fn broken_file_is_left_alone() {
    let (cfg, write) = ServerConfig::new(StoredConfig::Malformed);
    assert!(!write);
    assert_eq!(cfg.get_i64("streaming", "rtsp_port", 0), 7236);
    let (_, write) = ServerConfig::new(StoredConfig::Unreadable);
    assert!(write);
    let (cfg, write) = ServerConfig::new(StoredConfig::Parsed(Json::list(vec![])));
    assert!(write);
    assert_eq!(cfg.get_i64("streaming", "rtsp_port", 0), 7236);
}

#[test]
fn keys_are_stored_where_they_can_be() {
    let (mut cfg, _) = ServerConfig::new(StoredConfig::Parsed(Json::object(vec![(
        "odd".to_string(),
        Json::integer(1),
    )])));
    cfg.set("new", "a", Json::text("x")).unwrap();
    cfg.set("new", "b", Json::flag(true)).unwrap();
    cfg.set("odd", "a", Json::text("x")).unwrap();
    assert_eq!(cfg.get_str("new", "a", ""), "x");
    assert!(cfg.get_bool("new", "b", false));
    assert_eq!(cfg.get_str("odd", "a", "none"), "none");
    assert_eq!(cfg.get_i64("new", "a", 3), 3);
    assert_eq!(cfg.get("new", "a", Json::Null).as_str(), Some("x"));
    assert!(matches!(cfg.get("new", "c", Json::Null), Json::Null));
    cfg.save(Some(Json::object(vec![])));
    assert_eq!(cfg.get_str("new", "a", ""), "");
    cfg.save(None);
    assert!(cfg.config.is_object());
}

#[test]
fn numbers_are_asked_for_what_they_are() {
    assert_eq!(Json::integer(-1).as_u64(), None);
    assert_eq!(Json::integer(3).as_u64(), Some(3));
    let large = Json::Number(Number::Large(u64::MAX));
    assert_eq!(large.as_i64(), None);
    assert_eq!(large.as_u64(), Some(u64::MAX));
    assert_eq!(large.as_string(), "18446744073709551615");
    assert_eq!(Json::Null.as_string(), "null");
    assert_eq!(Json::flag(false).as_string(), "false");
    assert_eq!(Json::integer(i64::MIN).as_string(), "-9223372036854775808");
}

fn sample(name: &str) -> (SourceInfo, ReceiverStats) {
    (
        SourceInfo {
            name: name.to_string(),
            address: "00:11:22:33:44:55".to_string(),
            model: "Test".to_string(),
            ..Default::default()
        },
        ReceiverStats {
            duration: 10,
            data_received: 100,
            frames_decoded: 50,
            frames_dropped: 1,
            ..Default::default()
        },
    )
}

#[test]
fn add_and_read_back_newest_first() {
    let mut h = ServerSessionHistory::new(None);
    let now = Timestamp::now();
    let (si1, st1) = sample("first");
    h.add_session_at(&si1, &st1, now);
    let (si2, st2) = sample("second");
    h.add_session_at(&si2, &st2, Timestamp { secs: now.secs + 1, ..now });
    let sessions = h.get_sessions();
    assert_eq!(sessions.len(), 2);
    assert_eq!(sessions[0].source_info.name, "second");
}

#[test]
fn persists_across_reload() {
    let mut h = ServerSessionHistory::new(None);
    let (si, st) = sample("persisted");
    h.add_session(&si, &st);
    let h2 = ServerSessionHistory::new(Some(&h.to_json()));
    assert_eq!(h2.sessions.len(), 1);
    assert_eq!(h2.sessions[0].source_info.name, "persisted");
}

#[test]
fn cap_discards_oldest() {
    let mut h = ServerSessionHistory::new(None);
    for i in 0..(MAX_RECORDS + 10) {
        let (si, st) = sample(&format!("s{i}"));
        h.add_session(&si, &st);
    }
    assert_eq!(h.sessions.len(), MAX_RECORDS);
    assert_eq!(h.sessions[0].source_info.name, "s10");
}

#[test]
fn clear_empties() {
    let mut h = ServerSessionHistory::new(None);
    let (si, st) = sample("x");
    h.add_session(&si, &st);
    h.clear(false);
    assert_eq!(h.sessions.len(), 1);
    h.clear(true);
    assert!(h.sessions.is_empty());
    let h2 = ServerSessionHistory::new(Some(&h.to_json()));
    assert!(h2.sessions.is_empty());
}

#[test]
fn malformed_file_starts_empty() {
    let h = ServerSessionHistory::new(None);
    assert!(h.sessions.is_empty());
    let h = ServerSessionHistory::new(Some(&Json::object(vec![])));
    assert!(h.sessions.is_empty());
}

#[test]
fn records_of_one_time_keep_their_order() {
    let mut h = ServerSessionHistory::new(None);
    let now = Timestamp::now();
    for (name, secs) in [("a", 5), ("b", 7), ("c", 5), ("d", 7)] {
        let (si, st) = sample(name);
        h.add_session_at(&si, &st, Timestamp { secs, ..now });
    }
    let names: Vec<String> = h.get_sessions().iter().map(|r| r.source_info.name.clone()).collect();
    assert_eq!(names, vec!["b", "d", "a", "c"]);
}

#[test]
fn unreadable_records_are_left_out() {
    let mut h = ServerSessionHistory::new(None);
    let (si, st) = sample("kept");
    h.add_session(&si, &st);
    let mut items = match h.to_json() {
        Json::Array(v) => v,
        _ => unreachable!(),
    };
    items.insert(0, Json::integer(3));
    let h2 = ServerSessionHistory::new(Some(&Json::list(items)));
    assert_eq!(h2.sessions.len(), 1);
    assert_eq!(h2.sessions[0].source_info.name, "kept");
}
