use ubuntu_miracast_server::json::Real;
use ubuntu_miracast_server::models::{IncomingConnection, Timestamp};
use ubuntu_miracast_server::receiver::monitor::{build_stats, stream_stats, Counters, StreamMonitor};
use ubuntu_miracast_server::receiver::pipeline::{
    audio_codec_for, blames_audio, choose_audio_sink, negotiated_resolution, on_bus_error,
    pulse_cookie, pulse_socket, route_pad, uid_of_user, validate_audio_codec, validate_port,
    validate_video_codec, Attempt, AttemptOutcome, Available, BusReaction, Launch, LaunchStep,
    PadRoute, PipelineBuilder, PropertyValue,
};
use ubuntu_miracast_server::receiver::session::{
    after_connect_attempt, build_capability_body, on_stream_read, parse_content_length, parse_cseq,
    parse_m4_params, parse_server_port, parse_session_id, rtsp_address, ConnectStep, Frame,
    ReadOutcome, Session, SessionAction, Stage, StreamStep,
};
use ubuntu_miracast_server::receiver::MiracastReceiver;

#[test]
fn cseq_parsing() {
    assert_eq!(parse_cseq("OPTIONS * RTSP/1.0\r\nCSeq: 42\r\n\r\n"), 42);
    assert_eq!(parse_cseq("no cseq here"), 0);
    assert_eq!(parse_cseq("CSEQ: x\r\ncseq: -7"), -7);
}

#[test]
fn session_id_parsing() {
    assert_eq!(
        parse_session_id("RTSP/1.0 200 OK\r\nSession: 1234ABCD;timeout=30\r\n\r\n"),
        "1234ABCD"
    );
    assert_eq!(
        parse_session_id("RTSP/1.0 200 OK\r\nSession: 55\r\n\r\n"),
        "55"
    );
    assert_eq!(parse_session_id("no session"), "0");
}

#[test]
fn server_port_parsing() {
    let d = "RTSP/1.0 200 OK\r\nTransport: RTP/AVP/UDP;unicast;client_port=1028;server_port=5000\r\n\r\n";
    assert_eq!(parse_server_port(d), "5000");
    assert_eq!(parse_server_port("Transport: x\r\nTRANSPORT: a;server_port= 6 "), "6");
    assert_eq!(parse_server_port("server_port=5"), "");
}

#[test]
fn capability_body_matches_python_lazycast_values() {
    let body = build_capability_body(1028, (1920, 1080), "");
    assert!(body.contains("wfd_client_rtp_ports: RTP/AVP/UDP;unicast 1028 0 mode=play\r\n"));
    assert!(body.contains("wfd_audio_codecs: AAC 00000001 00\r\n"));
    assert!(body.contains(
        "wfd_video_formats: 38 00 02 10 0001DFFF 00000000 00000000 00 0000 0000 00 none none\r\n"
    ));
    assert!(body.contains("wfd_connector_type: 05\r\n"));
    assert!(!body.contains("wfd_idr_request_capability"));
    let body2 = build_capability_body(1028, (1920, 1080), "wfd_idr_request_capability");
    assert!(body2.contains("wfd_idr_request_capability: 1\r\n"));
}

fn sent(a: &SessionAction) -> &str {
    match a {
        SessionAction::Send(t) => t,
        _ => panic!("expected a message"),
    }
}

#[test]
fn rtsp_m1_to_m7_handshake_reaches_stream_started() {
    let conn = IncomingConnection::try_new(
        "00:11:22:33:44:55",
        "127.0.0.1",
        "Mock Source",
        "p2p-test-0",
        "192.168.173.1",
        Timestamp::now(),
        true,
    )
    .expect("valid connection");
    let mut receiver = MiracastReceiver::new(7236, 1028, true, false, (1920, 1080));
    let mut s = receiver.start_receiving(&conn, Timestamp::now()).unwrap();
    assert!(receiver.is_receiving());
    assert!(receiver.start_receiving(&conn, Timestamp::now()).is_none());

    let m1 = "OPTIONS * RTSP/1.0\r\nCSeq: 1\r\nRequire: org.wfa.wfd1.0\r\n\r\n";
    let v = s.receive(Some(m1)).unwrap();
    assert_eq!(
        sent(&v[0]),
        "RTSP/1.0 200 OK\r\nCSeq: 1\r\nPublic: org.wfa.wfd1.0, SET_PARAMETER, GET_PARAMETER\r\n\r\n"
    );
    assert_eq!(
        sent(&v[1]),
        "OPTIONS * RTSP/1.0\r\nCSeq: 101\r\nRequire: org.wfa.wfd1.0\r\n\r\n"
    );

    let m2 = "RTSP/1.0 200 OK\r\nCSeq: 101\r\nPublic: org.wfa.wfd1.0, SET_PARAMETER, GET_PARAMETER, SETUP, PLAY, TEARDOWN\r\n\r\n";
    assert!(s.receive(Some(m2)).unwrap().is_empty());

    let body = "wfd_video_formats\r\nwfd_audio_codecs\r\nwfd_client_rtp_ports\r\n";
    let m3 = format!(
        "GET_PARAMETER rtsp://localhost/wfd1.0 RTSP/1.0\r\nCSeq: 2\r\nContent-Type: text/parameters\r\nContent-Length: {}\r\n\r\n{body}",
        body.len()
    );
    let v = s.receive(Some(&m3)).unwrap();
    let m3_reply = sent(&v[0]);
    assert!(m3_reply.contains("wfd_client_rtp_ports"));
    let (head, offered) = m3_reply.split_once("\r\n\r\n").unwrap();
    assert!(head.contains(&format!("Content-Length: {}", offered.len())));

    let m4_body = "wfd_video_formats: 00 00 02 10 0001FEFF 00000000 00000000 00 0000 0000 00 none none\r\nwfd_audio_codecs: AAC 00000001 00\r\nwfd_client_rtp_ports: RTP/AVP/UDP;unicast 1028 0 mode=play\r\n";
    let m4 = format!(
        "SET_PARAMETER rtsp://localhost/wfd1.0 RTSP/1.0\r\nCSeq: 3\r\nContent-Type: text/parameters\r\nContent-Length: {}\r\n\r\n{m4_body}",
        m4_body.len()
    );
    let v = s.receive(Some(&m4)).unwrap();
    assert_eq!(sent(&v[0]), "RTSP/1.0 200 OK\r\nCSeq: 3\r\n\r\n");

    let m5 = "SET_PARAMETER rtsp://localhost/wfd1.0 RTSP/1.0\r\nCSeq: 4\r\nContent-Type: text/parameters\r\nContent-Length: 27\r\n\r\nwfd_trigger_method: SETUP\r\n";
    let v = s.receive(Some(m5)).unwrap();
    assert_eq!(sent(&v[0]), "RTSP/1.0 200 OK\r\nCSeq: 4\r\n\r\n");
    assert_eq!(
        sent(&v[1]),
        "SETUP rtsp://127.0.0.1/wfd1.0/streamid=0 RTSP/1.0\r\nCSeq: 102\r\nTransport: RTP/AVP/UDP;unicast;client_port=1028\r\n\r\n"
    );

    let m6 = "RTSP/1.0 200 OK\r\nCSeq: 102\r\nSession: 1234ABCD;timeout=30\r\nTransport: RTP/AVP/UDP;unicast;client_port=1028;server_port=5000\r\n\r\n";
    let v = s.receive(Some(m6)).unwrap();
    assert!(matches!(v[0], SessionAction::StartPipeline));
    assert_eq!(
        sent(&v[1]),
        "PLAY rtsp://127.0.0.1/wfd1.0/streamid=0 RTSP/1.0\r\nCSeq: 103\r\nSession: 1234ABCD\r\n\r\n"
    );
    assert_eq!(s.server_port, "5000");

    let v = s.receive(Some("RTSP/1.0 200 OK\r\nCSeq: 103\r\n\r\n")).unwrap();
    assert!(matches!(v[0], SessionAction::StreamStarted));
    assert_eq!(s.stage, Stage::Streaming);
    receiver.take_choices(&s);
    assert_eq!(receiver.rtp_port, 1028);
}

#[test]
fn silence_is_told_by_its_stage() {
    let words = [
        "No M1 received from source",
        "No M2 response from source",
        "No M3 received from source",
        "No M4 received from source",
        "No M5 received from source",
        "No M6 response from source",
        "No M7 response from source",
    ];
    let mut s = Session::new("1.2.3.4".to_string(), 1028, "AAC".to_string(), (1920, 1080));
    for w in words {
        assert_eq!(s.receive(None).unwrap_err(), w);
        s.receive(Some("x")).unwrap();
    }
    assert_eq!(s.stage, Stage::Streaming);
    assert_eq!(s.session_id, "0");
}

#[test]
fn chosen_parameters_are_taken() {
    let m4 = "X\r\n\r\nwfd_audio_codecs: LPCM 1\r\nwfd_client_rtp_ports: RTP/AVP/UDP;unicast 2000 0 mode=play";
    assert_eq!(parse_m4_params(1028, "AAC".to_string(), m4), (2000, "LPCM".to_string()));
    let bad = "X\r\n\r\nwfd_client_rtp_ports: RTP/AVP/UDP;unicast 80 0 mode=play";
    assert_eq!(parse_m4_params(1028, "AAC".to_string(), bad), (1028, "AAC".to_string()));
    let none = "wfd_client_rtp_ports: RTP/AVP/UDP;unicast 2000 0";
    assert_eq!(parse_m4_params(1028, "LPCM".to_string(), none), (1028, "LPCM".to_string()));
}

#[test]
fn frames_tell_what_is_missing() {
    assert_eq!(parse_content_length("A\r\ncontent-LENGTH: 12\r\nContent-Length: 5"), 12);
    assert_eq!(parse_content_length("Content-Length: -1"), 0);
    let first = b"X\r\nContent-Length: 20000\r\n\r\nab";
    let f = Frame::of(first).unwrap();
    assert_eq!(f.body_start, first.len() - 2);
    assert_eq!(f.next_read(first.len()), 16384);
    assert_eq!(f.next_read(first.len() + 16384), 3614);
    assert_eq!(f.next_read(first.len() + 20000), 0);
    assert!(Frame::of(b"X\r\n\r\nab").is_none());
    assert!(Frame::of(b"Content-Length: 3\r\n").is_none());
}

#[test]
fn running_stream_answers_and_ends() {
    let down = "SET_PARAMETER x RTSP/1.0\r\nCSeq: 9\r\n\r\nwfd_trigger_method: TEARDOWN\r\n";
    assert!(matches!(on_stream_read(ReadOutcome::Data(down), true), StreamStep::ReplyAndStop(t)
        if t == "RTSP/1.0 200 OK\r\nCSeq: 9\r\n\r\n"));
    assert!(matches!(
        on_stream_read(ReadOutcome::Data("TEARDOWN x\r\nCSeq: 3"), true),
        StreamStep::ReplyAndStop(_)
    ));
    assert!(matches!(
        on_stream_read(ReadOutcome::Data("GET_PARAMETER x\r\nCSeq: 3"), true),
        StreamStep::Reply(t) if t == "RTSP/1.0 200 OK\r\nCSeq: 3\r\n\r\n"
    ));
    assert!(matches!(
        on_stream_read(ReadOutcome::Data("x\r\nTEARDOWN"), true),
        StreamStep::Continue
    ));
    assert!(matches!(on_stream_read(ReadOutcome::Closed, true), StreamStep::Stop));
    assert!(matches!(on_stream_read(ReadOutcome::Nothing, true), StreamStep::Wait));
    assert!(matches!(on_stream_read(ReadOutcome::Failed, true), StreamStep::Stop));
    assert!(matches!(on_stream_read(ReadOutcome::Failed, false), StreamStep::Leave));
}

#[test]
fn connecting_is_tried_for_half_a_minute() {
    assert_eq!(rtsp_address("1.2.3.4", 7236), "1.2.3.4:7236");
    let step = |c, r, ms| after_connect_attempt(c, r, ms, "1.2.3.4", 7236, 6);
    assert!(matches!(step(true, true, 0), ConnectStep::Connected));
    assert!(matches!(step(false, true, 29_999), ConnectStep::Retry));
    assert!(matches!(step(false, false, 0), ConnectStep::Stopped));
    assert!(matches!(step(false, true, 30_000), ConnectStep::GiveUp(m)
        if m == "Failed to connect to source RTSP at 1.2.3.4:7236 after 6 attempts"));
}

fn everything() -> Available {
    Available {
        vaapidecodebin: true,
        nvh264dec: true,
        gtk4paintablesink: true,
        aacparse: true,
        avdec_aac: true,
        audioconvert: true,
        pulsesink: true,
        autoaudiosink: true,
    }
}

#[test]
fn pipeline_is_planned() {
    let b = PipelineBuilder::new(false);
    let p = b.build_pipeline(1028, "H264", "AAC", true, true, &everything()).unwrap();
    let names: Vec<&str> = p.elements.iter().map(|e| e.factory).collect();
    assert_eq!(
        names,
        vec![
            "udpsrc", "rtpjitterbuffer", "rtpmp2tdepay", "tsdemux", "queue", "h264parse",
            "vaapidecodebin", "videoconvert", "gtk4paintablesink", "queue", "aacparse",
            "avdec_aac", "audioconvert", "pulsesink",
        ]
    );
    assert!(p.audio);
    assert_eq!(p.links.len(), 11);
    assert!(p.settings.iter().any(|s| s.element == 0
        && s.property == "port"
        && matches!(s.value, PropertyValue::Int(1028))));
    assert!(p.settings.iter().any(|s| s.element == 9
        && s.property == "max-size-time"
        && matches!(s.value, PropertyValue::Long(200_000_000))));
    let bare = Available {
        vaapidecodebin: false,
        nvh264dec: false,
        gtk4paintablesink: false,
        pulsesink: false,
        autoaudiosink: false,
        ..everything()
    };
    let p = PipelineBuilder::new(true).build_pipeline(1028, "H264", "AAC", true, true, &bare).unwrap();
    assert_eq!(p.elements.len(), 9);
    assert_eq!(p.elements[6].factory, "avdec_h264");
    assert_eq!(p.elements[8].factory, "fakesink");
    assert!(!p.audio);
    assert_eq!(choose_audio_sink(&Available { pulsesink: false, ..everything() }), Some("autoaudiosink"));
}

#[test]
fn pipeline_refusals_have_their_words() {
    let b = PipelineBuilder::new(true);
    let e = |port, v, a, on| b.build_pipeline(port, v, a, on, false, &everything()).unwrap_err();
    assert_eq!(
        e(80, "H264", "AAC", true),
        "Port must be integer in range 1024-65535, got 80"
    );
    assert_eq!(
        e(1028, "H265", "AAC", true),
        "Video codec 'H265' not in whitelist: [\"H264\"]"
    );
    assert_eq!(
        e(1028, "H264", "LPCM", true),
        "Audio codec 'LPCM' not in whitelist: [\"AAC\"]"
    );
    assert!(b.build_pipeline(1028, "H264", "LPCM", false, false, &everything()).is_ok());
    assert!(validate_port(65535).is_ok() && validate_video_codec("H264").is_ok());
    assert!(validate_audio_codec("AAC").is_ok());
}

#[test]
fn pads_are_routed() {
    assert_eq!(route_pad("video/x-h264", true), PadRoute::Video);
    assert_eq!(route_pad("x-H264", true), PadRoute::Video);
    assert_eq!(route_pad("audio/mpeg", true), PadRoute::Audio);
    assert_eq!(route_pad("x-AAC", true), PadRoute::Audio);
    assert_eq!(route_pad("audio/mpeg", false), PadRoute::Ignore);
    assert_eq!(route_pad("text", true), PadRoute::Ignore);
}

#[test]
fn launch_falls_back_in_order() {
    let mut l = Launch::new(true, true);
    assert_eq!(l.attempts.len(), 4);
    assert_eq!(l.attempt(), Attempt { hardware: true, audio: true });
    let s = l.report(AttemptOutcome::Refused { audio_culprit: true });
    assert!(matches!(s, LaunchStep::Try(Attempt { hardware: true, audio: false })));
    assert!(l.use_hw_decode);
    let s = l.report(AttemptOutcome::Refused { audio_culprit: false });
    assert!(matches!(s, LaunchStep::Try(Attempt { hardware: false, audio: true })));
    assert!(!l.use_hw_decode);
    l.report(AttemptOutcome::Refused { audio_culprit: true });
    assert!(matches!(l.report(AttemptOutcome::Refused { audio_culprit: false }), LaunchStep::Failed(m)
        if m == "Pipeline failed to transition to PLAYING (hardware and software decode both failed)"));
    let mut l = Launch::new(false, false);
    assert_eq!(l.attempts.len(), 1);
    assert!(matches!(l.report(AttemptOutcome::NotBuilt("x".to_string())), LaunchStep::Failed(m)
        if m == "Failed to start pipeline: x"));
    assert!(matches!(l.report(AttemptOutcome::Playing), LaunchStep::Started));
    assert!(blames_audio("GstPulseSink:audiosink") && !blames_audio("x"));
}

#[test]
fn decoding_errors_fall_back_to_software() {
    assert!(matches!(on_bus_error("Could not DECODE stream", true), BusReaction::FallBack));
    assert!(matches!(on_bus_error("Could not decode", false), BusReaction::Report(m)
        if m == "Pipeline error: Could not decode"));
    assert!(matches!(on_bus_error("other", true), BusReaction::Report(_)));
    assert_eq!(audio_codec_for(true, "LPCM"), "LPCM");
    assert_eq!(audio_codec_for(false, "LPCM"), "AAC");
    assert_eq!(negotiated_resolution((0, 0), 1920, 1080), Some((1920, 1080)));
    assert_eq!(negotiated_resolution((1920, 1080), 1920, 1080), None);
}

#[test]
fn users_are_found_in_the_password_file() {
    let passwd = "root:x:0:0:root:/root:/bin/sh\nme:x:1000:1000::/home/me:/bin/sh\nbad:x:y\nshort\n";
    assert_eq!(uid_of_user(passwd, "me"), Some(1000));
    assert_eq!(uid_of_user(passwd, "bad"), None);
    assert_eq!(uid_of_user(passwd, "short"), None);
    assert_eq!(uid_of_user(passwd, "you"), None);
    assert_eq!(pulse_socket(1000), "/run/user/1000/pulse/native");
    assert_eq!(pulse_cookie(1000), "/run/user/1000/pulse/cookie");
}

const SEC: u64 = 1_000_000_000;

#[test]
fn monitor_counts_rates_and_silence() {
    let mut m = StreamMonitor::new(0);
    let r = m.tick(SEC, 1000, 10, 0, SEC);
    assert_eq!(r.bitrate_milli, 8_000_000);
    assert_eq!(m.peak_milli, 8_000_000);
    assert_eq!(r.lost_after_ns, None);
    let r = m.tick(2 * SEC, 1100, 100, 10, SEC);
    assert_eq!(r.bitrate_milli, 800_000);
    assert_eq!(m.peak_milli, 8_000_000);
    assert!(r.drop_warning);
    let r = m.tick(16 * SEC, 50, 100, 10, SEC);
    assert_eq!(r.bitrate_milli, 0);
    assert_eq!(m.history.len(), 1);
    assert!(!r.drop_warning);
    assert_eq!(r.lost_after_ns, Some(15 * SEC));
    let r = m.tick(17 * SEC, u64::MAX, 200, 12, 0);
    assert_eq!(r.bitrate_milli, u64::MAX);
    assert_eq!(r.lost_after_ns, None);
    assert!(!r.drop_warning);
}

#[test]
fn one_in_twenty_is_not_too_much() {
    let mut m = StreamMonitor::new(0);
    m.tick(SEC, 0, 0, 0, 0);
    assert!(!m.tick(2 * SEC, 0, 95, 5, 0).drop_warning);
    let mut m = StreamMonitor::new(0);
    m.tick(SEC, 0, 0, 0, 0);
    assert!(m.tick(2 * SEC, 0, 94, 6, 0).drop_warning);
}

#[test]
fn session_is_summed_up() {
    let c = Counters {
        data_received: 7,
        current_milli: 1500,
        peak_milli: 2500,
        frames_decoded: 3,
        frames_dropped: 1,
        errors: 2,
        width: 1280,
        height: 720,
    };
    let start = Timestamp { secs: 100, nanos: 500_000_000, offset: 0 };
    let end = Timestamp { secs: 103, nanos: 0, offset: 0 };
    let s = build_stats(&c, Some(start), end, "H264");
    assert_eq!(s.duration, 2);
    assert_eq!(s.resolution, (1280, 720));
    assert!(matches!(s.average_bitrate, Real::Thousandths(1500)));
    assert!(matches!(s.peak_bitrate, Real::Thousandths(2500)));
    assert_eq!(build_stats(&c, None, end, "H264").duration, 0);
    assert_eq!(stream_stats(&c, Some(start), end).duration, 2);
    let mut r = MiracastReceiver::new(7236, 1028, true, true, (1280, 720));
    assert!(r.source_info().is_none());
    let s = r.stop_receiving(&c, end);
    assert_eq!(s.start_time, end);
    assert_eq!(s.codec, "H264");
    assert!(!r.is_receiving());
}

#[test]
fn refusal_comes_before_the_elements() {
    let partial = Available { aacparse: false, ..everything() };
    let b = PipelineBuilder::new(true);
    assert_eq!(
        b.build_pipeline(80, "H264", "AAC", true, false, &partial).unwrap_err(),
        "Port must be integer in range 1024-65535, got 80"
    );
    assert_eq!(
        b.build_pipeline(1028, "H265", "AAC", true, false, &partial).unwrap_err(),
        "Video codec 'H265' not in whitelist: [\"H264\"]"
    );
    let p = b.build_pipeline(1028, "H264", "AAC", false, false, &partial).unwrap();
    assert!(!p.audio);
}

#[test]
fn numbers_are_of_the_kind_that_a_property_takes() {
    let p = PipelineBuilder::new(false)
        .build_pipeline(1028, "H264", "AAC", true, true, &everything())
        .unwrap();
    let value = |element: usize, property: &str| {
        p.settings
            .iter()
            .find(|s| s.element == element && s.property == property)
            .map(|s| s.value)
            .unwrap()
    };
    assert!(matches!(value(0, "port"), PropertyValue::Int(1028)));
    assert!(matches!(value(1, "latency"), PropertyValue::UInt(_)));
    assert!(matches!(value(9, "max-size-buffers"), PropertyValue::UInt(_)));
    assert!(matches!(value(9, "max-size-time"), PropertyValue::Long(200_000_000)));
}
