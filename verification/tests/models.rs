use ubuntu_miracast_server::json::{Json, Number, Real};
use ubuntu_miracast_server::models::{
    parse_iso, IncomingConnection, ReceiverStats, ServerSessionRecord, SourceInfo, Timestamp,
};

fn connection(mac: &str, ip: &str, at: Timestamp) -> Result<IncomingConnection, String> {
    IncomingConnection::try_new(mac, ip, "phone", "p2p-wlan0-0", "192.168.173.1", at, true)
        .map_err(|e| e.0)
}

#[test]
fn valid_connection_constructs() {
    let c = connection("00:11:22:33:44:55", "192.168.173.80", Timestamp::now());
    assert!(c.is_ok());
}

#[test]
fn bad_mac_rejected() {
    let c = connection("not-a-mac", "192.168.173.80", Timestamp::now());
    assert!(c.unwrap_err().starts_with("peer_address:"));
}

#[test]
fn leading_zero_octet_rejected() {
    let c = connection("00:11:22:33:44:55", "192.168.173.080", Timestamp::now());
    assert!(c.unwrap_err().contains("no leading zeros"));
}

#[test]
fn future_timestamp_rejected() {
    let now = Timestamp::now();
    let future = Timestamp { secs: now.secs + 60, ..now };
    let c = connection("00:11:22:33:44:55", "192.168.173.80", future);
    assert!(c.unwrap_err().contains("must not be in the future"));
}

#[test]
fn frames_decoded_lt_dropped_rejected() {
    let s = ReceiverStats {
        frames_decoded: 5,
        frames_dropped: 10,
        ..Default::default()
    };
    assert!(s.validate().is_err());
}

fn record() -> ServerSessionRecord {
    ServerSessionRecord {
        source_info: SourceInfo {
            name: "phone".into(),
            address: "00:11:22:33:44:55".into(),
            model: "Pixel".into(),
            resolution: (1920, 1080),
            codec: "H264".into(),
            audio_codec: "AAC".into(),
        },
        stats: ReceiverStats {
            duration: 42,
            data_received: 12345,
            frames_decoded: 100,
            frames_dropped: 2,
            resolution: (1920, 1080),
            codec: "H264".into(),
            ..Default::default()
        },
        timestamp: Timestamp::now(),
    }
}

#[test]
fn record_roundtrips_through_json() {
    let rec = record();
    let v = rec.to_dict();
    let back = ServerSessionRecord::from_dict(&v).unwrap();
    assert_eq!(back.source_info, rec.source_info);
    assert_eq!(back.stats.duration, 42);
    assert_eq!(back.stats.frames_dropped, 2);
}

fn member(name: &str, v: Json) -> (String, Json) {
    (name.to_string(), v)
}

#[test]
fn from_dict_missing_field_errors() {
    let v = Json::object(vec![
        member("source_info", Json::object(vec![])),
        member("stats", Json::object(vec![])),
    ]);
    assert_eq!(
        ServerSessionRecord::from_dict(&v).unwrap_err().0,
        "missing required field: timestamp"
    );
}

#[test]
fn times_are_kept_to_the_microsecond() {
    let mut rec = record();
    rec.timestamp = Timestamp { secs: 1_700_000_000, nanos: 123_456_789, offset: 3600 };
    rec.stats.end_time = Some(Timestamp { secs: 1_700_000_001, nanos: 0, offset: -1800 });
    let v = rec.to_dict();
    assert_eq!(
        v.get("timestamp").unwrap().as_str(),
        Some("2023-11-14T23:13:20.123456+01:00")
    );
    let back = ServerSessionRecord::from_dict(&v).unwrap();
    assert_eq!((back.timestamp.secs, back.timestamp.nanos), (1_700_000_000, 123_456_000));
    assert_eq!(back.stats.end_time.unwrap().secs, 1_700_000_001);
    assert_eq!(rec.timestamp.to_minute(), "2023-11-14 23:13");
}

fn changed(path: &[&str], value: Option<Json>) -> Json {
    let mut root = match record().to_dict() {
        Json::Object(v) => v,
        _ => unreachable!(),
    };
    if path.len() == 1 {
        root.retain(|m| m.0 != path[0]);
        if let Some(v) = value {
            root.push(member(path[0], v));
        }
    } else {
        for m in root.iter_mut() {
            if m.0 == path[0] {
                if let Json::Object(inner) = &mut m.1 {
                    inner.retain(|x| x.0 != path[1]);
                }
            }
        }
        if let Some(v) = value {
            for m in root.iter_mut() {
                if m.0 == path[0] {
                    if let Json::Object(inner) = &mut m.1 {
                        inner.push(member(path[1], v));
                        break;
                    }
                }
            }
        }
    }
    Json::object(root)
}

#[test]
fn each_bad_record_has_its_words() {
    let words = |v: Json| ServerSessionRecord::from_dict(&v).unwrap_err().0;
    assert_eq!(words(Json::Null), "data must be a dictionary");
    assert_eq!(
        words(changed(&["source_info"], None)),
        "missing required field: source_info"
    );
    assert_eq!(
        words(changed(&["source_info"], Some(Json::Null))),
        "source_info must be a dictionary"
    );
    assert_eq!(
        words(changed(&["source_info", "model"], None)),
        "source_info missing required field: model"
    );
    assert_eq!(
        words(changed(&["stats"], Some(Json::flag(true)))),
        "stats must be a dictionary"
    );
    assert_eq!(
        words(changed(&["stats", "frames_decoded"], None)),
        "stats missing required field: frames_decoded"
    );
    assert!(words(changed(&["stats", "start_time"], Some(Json::text("soon"))))
        .starts_with("failed to deserialize ServerSessionRecord: "));
    assert!(words(changed(&["timestamp"], Some(Json::integer(5))))
        .starts_with("failed to deserialize ServerSessionRecord: "));
}

#[test]
fn odd_values_are_taken_as_far_as_they_go() {
    let v = changed(&["source_info", "name"], Some(Json::integer(5)));
    assert_eq!(ServerSessionRecord::from_dict(&v).unwrap().source_info.name, "5");
    let v = changed(
        &["source_info", "name"],
        Some(Json::list(vec![Json::integer(1), Json::integer(2)])),
    );
    assert_eq!(ServerSessionRecord::from_dict(&v).unwrap().source_info.name, "[1,2]");
    let v = changed(&["stats", "errors"], None);
    assert_eq!(ServerSessionRecord::from_dict(&v).unwrap().stats.errors, 0);
    let v = changed(&["stats", "average_bitrate"], Some(Json::integer(7)));
    let back = ServerSessionRecord::from_dict(&v).unwrap();
    assert!(matches!(back.stats.average_bitrate, Real::Nearest(7)));
    let v = changed(
        &["stats", "resolution"],
        Some(Json::list(vec![
            Json::Number(Number::Large(u64::MAX)),
            Json::integer(3),
            Json::Null,
        ])),
    );
    let back = ServerSessionRecord::from_dict(&v).unwrap();
    assert_eq!(back.stats.resolution, (u32::MAX, 3));
    let v = changed(&["stats", "end_time"], None);
    assert!(ServerSessionRecord::from_dict(&v).unwrap().stats.end_time.is_none());
}

#[test]
fn each_bad_connection_has_its_words() {
    let now = Timestamp::now();
    assert_eq!(
        connection("00:11:22:33:44:5", "1.2.3.4", now).unwrap_err(),
        "peer_address: must be a valid MAC address in XX:XX:XX:XX:XX:XX format"
    );
    assert_eq!(
        connection("00:11:22:33:44:55", "1.2.3", now).unwrap_err(),
        "peer_ip: must be a valid IPv4 address in dotted-decimal notation"
    );
    assert_eq!(
        connection("00:11:22:33:44:55", "1.2.3.x", now).unwrap_err(),
        "peer_ip: must be a valid IPv4 address in dotted-decimal notation"
    );
    assert_eq!(
        connection("00:11:22:33:44:55", "1.2.3.256", now).unwrap_err(),
        "peer_ip: must be a valid IPv4 address (octets must be 0-255)"
    );
    let long = IncomingConnection::try_new(
        "aA:11:22:33:44:55",
        "0.0.0.0",
        "",
        "p2p-wlan0-0123456",
        "1.1.1.1",
        now,
        false,
    );
    assert_eq!(
        long.unwrap_err().to_string(),
        "group_interface: must be between 2 and 16 characters"
    );
    let own = IncomingConnection::try_new("aA:11:22:33:44:55", "0.0.0.0", "", "p2", "", now, false);
    assert!(own.unwrap_err().0.starts_with("our_ip: "));
}

#[test]
fn each_bad_number_has_its_words() {
    let base = || ReceiverStats::default();
    let words = |s: ReceiverStats| s.validate().unwrap_err().0;
    assert!(base().validate().is_ok());
    assert_eq!(
        words(ReceiverStats { duration: -1, ..base() }),
        "duration: must be a non-negative integer"
    );
    assert_eq!(
        words(ReceiverStats { data_received: -1, ..base() }),
        "data_received: must be a non-negative integer"
    );
    assert_eq!(
        words(ReceiverStats { frames_decoded: -1, ..base() }),
        "frames_decoded: must be a non-negative integer"
    );
    assert_eq!(
        words(ReceiverStats { frames_dropped: -1, ..base() }),
        "frames_dropped: must be a non-negative integer"
    );
    assert_eq!(
        words(ReceiverStats { frames_dropped: 1, ..base() }),
        "frames_decoded: must be greater than or equal to frames_dropped"
    );
}

#[test]
fn times_are_read_at_their_instant() {
    let t = parse_iso("1970-01-01T01:00:00.5+01:00").unwrap();
    assert_eq!((t.secs, t.nanos), (0, 500_000_000));
    assert!(parse_iso("1970-01-01").is_err());
    let a = Timestamp { secs: 10, nanos: 1, offset: 0 };
    let b = Timestamp { secs: 12, nanos: 0, offset: 0 };
    assert_eq!(b.seconds_since(&a), 1);
    assert_eq!(a.seconds_since(&b), 0);
    assert!(b.is_later(&a) && !a.is_later(&a));
}

#[test]
fn required_numbers_must_be_integers() {
    let half = || Json::Number(Number::Real(Real::Read {
        bits: 0.5f64.to_bits(),
        written: "0.5".to_string(),
    }));
    for key in ["duration", "data_received", "frames_decoded", "frames_dropped"] {
        for bad in [
            Json::text("x"),
            Json::Null,
            half(),
            Json::Number(Number::Large(u64::MAX)),
        ] {
            let v = changed(&["stats", key], Some(bad));
            assert_eq!(
                ServerSessionRecord::from_dict(&v).unwrap_err().0,
                format!("stats.{key}: must be an integer")
            );
        }
        let v = changed(&["stats", key], Some(Json::integer(7)));
        assert!(ServerSessionRecord::from_dict(&v).is_ok());
    }
    let mut v = changed(&["stats", "start_time"], Some(Json::text("soon")));
    if let Json::Object(root) = &mut v {
        for m in root.iter_mut() {
            if let Json::Object(inner) = &mut m.1 {
                inner.retain(|x| x.0 != "duration");
                inner.push(member("duration", Json::Null));
            }
        }
    }
    assert!(ServerSessionRecord::from_dict(&v)
        .unwrap_err()
        .0
        .starts_with("failed to deserialize ServerSessionRecord: "));
}

#[test]
fn optional_members_are_of_their_kind_or_missing() {
    let words = |path: [&str; 2], v: Json| {
        ServerSessionRecord::from_dict(&changed(&path, Some(v))).unwrap_err().0
    };
    for bad in [Json::text("1"), Json::Null, Json::list(vec![]), Json::flag(true)] {
        assert_eq!(
            words(["stats", "average_bitrate"], bad.copy()),
            "stats.average_bitrate: must be a number"
        );
        assert_eq!(
            words(["stats", "peak_bitrate"], bad.copy()),
            "stats.peak_bitrate: must be a number"
        );
        assert_eq!(words(["stats", "errors"], bad.copy()), "stats.errors: must be an integer");
        assert_eq!(
            words(["stats", "resolution"], bad.copy()),
            "stats.resolution: must be a list of two non-negative integers"
        );
        assert_eq!(
            words(["source_info", "resolution"], bad),
            "source_info.resolution: must be a list of two non-negative integers"
        );
    }
    for bad in [
        vec![Json::integer(1)],
        vec![Json::integer(-1), Json::integer(1)],
        vec![Json::integer(1), Json::text("1")],
    ] {
        assert_eq!(
            words(["stats", "resolution"], Json::list(bad)),
            "stats.resolution: must be a list of two non-negative integers"
        );
    }
    for path in [
        ["stats", "average_bitrate"],
        ["stats", "peak_bitrate"],
        ["stats", "resolution"],
        ["source_info", "resolution"],
        ["source_info", "codec"],
    ] {
        assert!(ServerSessionRecord::from_dict(&changed(&path, None)).is_ok());
    }
}

#[test]
fn leap_second_is_read_back() {
    let mut rec = record();
    rec.timestamp = Timestamp { secs: 1_483_228_799, nanos: 1_500_000_000, offset: 3600 };
    let v = rec.to_dict();
    assert_eq!(
        v.get("timestamp").unwrap().as_str(),
        Some("2017-01-01T00:59:60.500000+01:00")
    );
    let back = ServerSessionRecord::from_dict(&v).unwrap();
    assert_eq!(
        (back.timestamp.secs, back.timestamp.nanos, back.timestamp.offset),
        (1_483_228_799, 1_500_000_000, 0)
    );
}

#[test]
fn values_are_written_as_json() {
    let v = Json::object(vec![
        member("a\"\\\n", Json::list(vec![Json::Null, Json::flag(true), Json::integer(-3)])),
        member("b", Json::text("\u{1}é/\t\u{8}\u{c}\r\u{7f}")),
        member("c", Json::object(vec![])),
        member("d", Json::Number(Number::Large(u64::MAX))),
    ]);
    assert_eq!(
        v.to_text(),
        "{\"a\\\"\\\\\\n\":[null,true,-3],\"b\":\"\\u0001é/\\t\\b\\f\\r\u{7f}\",\"c\":{},\"d\":18446744073709551615}"
    );
    assert_eq!(Json::text("x").as_string(), "x");
    assert_eq!(Json::text("x").to_text(), "\"x\"");
    assert_eq!(Json::list(vec![]).as_string(), "[]");
    assert_eq!(Real::Thousandths(1500).to_text(), "1.5");
    assert_eq!(Real::Thousandths(0).to_text(), "0.0");
    assert_eq!(Real::Thousandths(1).to_text(), format!("{:?}", 1.0f64 / 1000.0));
    assert_eq!(Real::Nearest(3).to_text(), "3.0");
    assert_eq!(Real::NearestLarge(u64::MAX).to_text(), "1.8446744073709552e+19");
    let read = Real::Read { bits: 2.25f64.to_bits(), written: "2.25".to_string() };
    assert_eq!(read.to_text(), "2.25");
}
