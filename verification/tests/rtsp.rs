use ubuntu_miracast_server::rtsp::{
    build_capability_response_body, build_options_request, build_options_response, build_response,
    check_declared_length, parse_audio_codecs, parse_rtsp_request, parse_rtsp_text,
    parse_video_formats, parse_wfd_parameters, resolution_from_cea_bitmap,
    try_parse_rtsp_request, validate_request_size, Headers, RtspMethod, WfdAudioCodec,
    WfdVideoFormat, MAX_BODY_SIZE, RTSP_BAD_REQUEST, RTSP_METHOD_NOT_ALLOWED, RTSP_NOT_FOUND,
    RTSP_NOT_IMPLEMENTED, RTSP_REQUEST_ENTITY_TOO_LARGE,
};

#[test]
fn options_response_serializes_expected_wire_bytes() {
    let resp = build_options_response(1);
    let wire = String::from_utf8(resp.serialize()).unwrap();
    assert!(wire.starts_with("RTSP/1.0 200 OK\r\nCSeq: 1\r\n"));
    assert!(wire.contains(
        "Public: org.wfa.wfd1.0, GET_PARAMETER, SET_PARAMETER, SETUP, PLAY, TEARDOWN"
    ));
    assert!(wire.ends_with("Content-Length: 0\r\n\r\n"));
}

#[test]
fn video_format_default_wfd_string() {
    let s = WfdVideoFormat::default().to_wfd_string();
    assert_eq!(
        s,
        "00 00 02 10 0001DEFF 00000000 00000000 00 0000 0000 00 none none"
    );
}

#[test]
fn audio_codec_default_wfd_string() {
    assert_eq!(WfdAudioCodec::default().to_wfd_string(), "AAC 00000007 00");
}

#[test]
fn parse_request_extracts_cseq_and_method() {
    let raw = b"OPTIONS * RTSP/1.0\r\nCSeq: 5\r\nRequire: org.wfa.wfd1.0\r\n\r\n";
    let req = parse_rtsp_request(raw).unwrap();
    assert_eq!(req.method, RtspMethod::Options);
    assert_eq!(req.cseq, 5);
    assert_eq!(req.uri, "*");
}

#[test]
fn missing_cseq_is_error() {
    let raw = b"OPTIONS * RTSP/1.0\r\nRequire: org.wfa.wfd1.0\r\n\r\n";
    let err = parse_rtsp_request(raw).unwrap_err();
    assert_eq!(err.status_code, RTSP_BAD_REQUEST);
}

#[test]
fn unknown_method_is_501() {
    let raw = b"FROB * RTSP/1.0\r\nCSeq: 1\r\n\r\n";
    let err = parse_rtsp_request(raw).unwrap_err();
    assert_eq!(err.status_code, RTSP_NOT_IMPLEMENTED);
}

#[test]
fn cea_bitmap_resolution() {
    assert_eq!(resolution_from_cea_bitmap(0x0000_0100), (1920, 1080));
    assert_eq!(resolution_from_cea_bitmap(0x0000_0040), (1280, 720));
    assert_eq!(resolution_from_cea_bitmap(0x0000_0001), (640, 480));
    assert_eq!(resolution_from_cea_bitmap(0), (1920, 1080));
}

#[test]
fn capability_body_has_expected_lines() {
    let body = build_capability_response_body(1028, None, None);
    assert!(body.contains("wfd_client_rtp_ports: RTP/AVP/UDP;unicast 1028 0 mode=play"));
    assert!(body.contains("wfd_content_protection: none"));
    assert!(body.contains("wfd_coupled_sink: none"));
}

#[test]
fn parse_wfd_params_reads_rtp_port_and_codec() {
    let body = "wfd_audio_codecs: AAC 00000001 00\n\
                wfd_client_rtp_ports: RTP/AVP/UDP;unicast 1028 0 mode=play\n\
                wfd_video_formats: 00 00 02 10 0001FEFF 3FFFFFFF 00000FFF 00 0000 0000 00 none none";
    let p = parse_wfd_parameters(body);
    assert_eq!(p.rtp_port, 1028);
    assert_eq!(p.audio_codec, "AAC");
    assert_eq!(p.video_codec, "H264");
}

#[test]
fn oversize_content_length_rejected() {
    let raw = format!(
        "SET_PARAMETER * RTSP/1.0\r\nCSeq: 1\r\nContent-Length: {}\r\n\r\n",
        MAX_BODY_SIZE + 1
    );
    let err = validate_request_size(raw.as_bytes()).unwrap_err();
    assert_eq!(err.status_code, RTSP_REQUEST_ENTITY_TOO_LARGE);
    assert_eq!(err.to_string(), "Content-Length 65537 exceeds 65536 bytes");
}

#[test]
fn each_refusal_has_its_words() {
    let text = |raw: &[u8]| parse_rtsp_request(raw).unwrap_err().message;
    assert_eq!(text(b""), "Empty request");
    assert_eq!(text(b"PLAY \t\r\n"), "Malformed request line: \"PLAY\"");
    assert_eq!(text(b"a\"b c\r\n"), "Malformed request line: \"a\\\"b c\"");
    assert_eq!(text(b"FROB * RTSP/1.0\r\n\r\n"), "Unknown method: FROB");
    assert_eq!(
        text(b"PLAY * HTTP/1.1\r\nCSeq: 1\r\n\r\n"),
        "Invalid protocol version: HTTP/1.1"
    );
    assert_eq!(
        text(b"PLAY * RTSP/1.0\r\nX: 1\r\n\r\n"),
        "Missing required CSeq header"
    );
    assert_eq!(
        text(b"PLAY * RTSP/1.0\r\nCSeq: x\r\n\r\n"),
        "Invalid CSeq value: \"x\""
    );
    assert_eq!(
        text(b"PLAY * RTSP/1.0\r\nCSeq: -4\r\n\r\n"),
        "Invalid CSeq value: -4"
    );
}

#[test]
fn large_header_and_body_are_refused() {
    let mut raw = b"PLAY * RTSP/1.0\r\nX: ".to_vec();
    raw.extend(vec![b'a'; 8192]);
    let err = parse_rtsp_request(&raw).unwrap_err();
    assert_eq!(err.status_code, RTSP_REQUEST_ENTITY_TOO_LARGE);
    assert_eq!(err.message, "Request header exceeds maximum size");
    assert_eq!(
        validate_request_size(&raw).unwrap_err().message,
        "Request headers exceed 8192 bytes (no body separator)"
    );
    let mut raw = b"PLAY * RTSP/1.0\r\nCSeq: 1\r\n\r\n".to_vec();
    raw.extend(vec![b'a'; 65537]);
    let err = parse_rtsp_request(&raw).unwrap_err();
    assert_eq!(err.message, "Request body exceeds maximum size");
    assert_eq!(
        validate_request_size(&raw).unwrap_err().message,
        "Request body exceeds 65536 bytes"
    );
    let raw = vec![b'a'; 8192 + 65536 + 1];
    assert_eq!(
        validate_request_size(&raw).unwrap_err().message,
        "Request exceeds maximum allowed size"
    );
    let mut raw = vec![b'a'; 8193];
    raw.extend(b"\r\n\r\n");
    assert_eq!(
        validate_request_size(&raw).unwrap_err().message,
        "Request headers exceed 8192 bytes"
    );
}

#[test]
fn declared_length_is_checked_on_its_first_line() {
    assert!(check_declared_length("A: 1\r\nCONTENT-length: 12\r\nContent-Length: x").is_ok());
    let err = check_declared_length("Content-Length: -1").unwrap_err();
    assert_eq!((err.message.as_str(), err.status_code), ("Negative Content-Length", 400));
    let err = check_declared_length("Content-Length: 1x").unwrap_err();
    assert_eq!(
        (err.message.as_str(), err.status_code),
        ("Invalid Content-Length value", 400)
    );
    assert!(validate_request_size(b"PLAY * RTSP/1.0\r\nContent-Length: 3\r\n\r\nabc").is_ok());
}

#[test]
fn body_is_cut_to_the_declared_length() {
    let req = parse_rtsp_text("set_parameter x RTSP/1.0\nCSEQ: 7\ncontent-length: 3\n\nabcdef").unwrap();
    assert_eq!(req.method, RtspMethod::SetParameter);
    assert_eq!(req.cseq, 7);
    assert_eq!(req.content_length, 3);
    assert_eq!(req.body, "abc");
    let req = parse_rtsp_text("PLAY x RTSP/1.0\r\nCSeq: 7\r\nContent-Length: zz\r\n\r\nabcdef").unwrap();
    assert_eq!(req.content_length, 0);
    assert_eq!(req.body, "abcdef");
}

#[test]
fn length_inside_a_character_gives_nothing() {
    let raw = "PLAY x RTSP/1.0\r\nCSeq: 7\r\nContent-Length: 1\r\n\r\né".as_bytes();
    assert!(try_parse_rtsp_request(raw).is_none());
    let raw = "PLAY x RTSP/1.0\r\nCSeq: 7\r\nContent-Length: 2\r\n\r\néa".as_bytes();
    assert_eq!(try_parse_rtsp_request(raw).unwrap().unwrap().body, "é");
}

#[test]
fn bytes_that_are_no_text_are_replaced() {
    let mut raw = b"PLAY x RTSP/1.0\r\nCSeq: 7\r\n\r\na".to_vec();
    raw.push(0xff);
    raw.push(b'b');
    assert_eq!(parse_rtsp_request(&raw).unwrap().body, "a\u{fffd}b");
}

#[test]
fn later_fields_replace_earlier_ones() {
    let req = parse_rtsp_text("PLAY x RTSP/1.0\r\nA : 1\r\n\tB:2\r\nA: 3\r\ncseq: 1\r\nnonsense\r\n\r\n")
        .unwrap();
    assert_eq!(req.headers.get("A").unwrap(), "3");
    assert_eq!(req.headers.get("B").unwrap(), "2");
    assert_eq!(req.headers.len(), 3);
    assert!(req.headers.get("C").is_none());
}

#[test]
fn response_fields_keep_their_order() {
    let resp = build_response(
        RTSP_NOT_FOUND,
        9,
        Some(vec![("Z", "1"), ("A", "2"), ("Z", "3")]),
        "é",
    );
    assert_eq!(
        String::from_utf8(resp.serialize()).unwrap(),
        "RTSP/1.0 404 Not Found\r\nCSeq: 9\r\nZ: 3\r\nA: 2\r\nContent-Length: 2\r\n\r\né"
    );
    let plain = build_response(RTSP_METHOD_NOT_ALLOWED, -1, None, "");
    assert_eq!(
        String::from_utf8(plain.serialize()).unwrap(),
        "RTSP/1.0 405 Method Not Allowed\r\nCSeq: -1\r\nContent-Length: 0\r\n\r\n"
    );
    assert_eq!(build_response(451, 1, None, "").status_phrase(), "Parameter Not Understood");
    assert_eq!(build_response(999, 1, None, "").status_phrase(), "Unknown");
    assert_eq!(build_response(413, 1, None, "").status_phrase(), "Request Entity Too Large");
}

#[test]
fn set_field_is_read_back() {
    let mut h = Headers::new();
    h.insert("A".to_string(), "1".to_string());
    h.insert("B".to_string(), "2".to_string());
    h.insert("A".to_string(), "3".to_string());
    assert_eq!(h.get("A").unwrap(), "3");
    assert_eq!(h.get("B").unwrap(), "2");
    assert_eq!((h.len(), h.name_at(0), h.value_at(0)), (2, "A", "3"));
}

#[test]
fn our_options_request_is_understood() {
    let raw = build_options_request(101);
    assert_eq!(
        raw,
        b"OPTIONS * RTSP/1.0\r\nCSeq: 101\r\nRequire: org.wfa.wfd1.0\r\n\r\n".to_vec()
    );
    let req = parse_rtsp_request(&raw).unwrap();
    assert_eq!(req.method, RtspMethod::Options);
    assert_eq!(req.cseq, 101);
    assert_eq!(req.headers.get("Require").unwrap(), "org.wfa.wfd1.0");
}

#[test]
fn formats_are_read_back() {
    let mut v = WfdVideoFormat::default();
    v.native_index = 0x1234;
    v.cea_bitmap = 0xFFFF_FFFF;
    v.max_hres = "0780".to_string();
    let back = parse_video_formats(&v.to_wfd_string());
    assert_eq!(back.native_index, 0x1234);
    assert_eq!(back.cea_bitmap, 0xFFFF_FFFF);
    assert_eq!(back.max_hres, "0780");
    assert_eq!(back.to_wfd_string(), v.to_wfd_string());
    let short = parse_video_formats("+7 zz");
    assert_eq!(short.native_index, 7);
    assert_eq!(short.preferred_display_mode, 0);
    assert_eq!(short.profile, 2);
    let a = parse_audio_codecs("LPCM 0000000A 05");
    assert_eq!((a.codec.as_str(), a.modes_bitmap, a.latency), ("LPCM", 10, 5));
    assert_eq!(parse_audio_codecs(" ").codec, "AAC");
}

#[test]
fn offer_follows_the_resolution() {
    let full = WfdVideoFormat::for_max_resolution(1920, 1080);
    assert_eq!(
        full.to_wfd_string(),
        "38 00 02 10 0001DFFF 00000000 00000000 00 0000 0000 00 none none"
    );
    assert_eq!(resolution_from_cea_bitmap(full.cea_bitmap), (1920, 1080));
    let hd = WfdVideoFormat::for_max_resolution(1280, 720);
    assert_eq!(resolution_from_cea_bitmap(hd.cea_bitmap), (1280, 720));
}

#[test]
fn parameters_of_a_body_are_read() {
    let p = parse_wfd_parameters(
        "WFD_Content_Protection: none\r\nwfd_presentation_URL: rtsp://a:1/b none\r\n\
         wfd_client_rtp_ports: x\r\nnothing\r\nwfd_video_formats: 00 00 01 01 00000040",
    );
    assert_eq!(p.content_protection, "none");
    assert_eq!(p.presentation_url, "rtsp://a:1/b none");
    assert_eq!(p.client_rtp_ports, "x");
    assert_eq!(p.rtp_port, 0);
    assert_eq!(p.resolution, (1280, 720));
    assert!(p.audio_codecs.is_none());
    let offered = parse_wfd_parameters(&build_capability_response_body(1028, None, None));
    assert_eq!(offered.rtp_port, 1028);
    assert_eq!(
        offered.video_formats.unwrap().to_wfd_string(),
        WfdVideoFormat::default().to_wfd_string()
    );
    assert_eq!(offered.audio_codecs.unwrap().to_wfd_string(), "AAC 00000007 00");
}

#[test]
fn offered_capabilities_are_read_back() {
    let v = WfdVideoFormat::for_max_resolution(1280, 720);
    let a = WfdAudioCodec { codec: "LPCM".to_string(), modes_bitmap: 2, latency: 1 };
    let p = parse_wfd_parameters(&build_capability_response_body(2000, Some(&v), Some(&a)));
    assert_eq!(p.rtp_port, 2000);
    assert_eq!(p.client_rtp_ports, "RTP/AVP/UDP;unicast 2000 0 mode=play");
    assert_eq!(p.resolution, (1280, 720));
    assert_eq!(p.content_protection, "none");
    assert_eq!((p.video_codec.as_str(), p.audio_codec.as_str()), ("H264", "LPCM"));
    assert_eq!(p.video_formats.unwrap().to_wfd_string(), v.to_wfd_string());
    assert_eq!(p.audio_codecs.unwrap().to_wfd_string(), a.to_wfd_string());
}

#[test]
fn line_ends_are_read_alike() {
    for lines in [
        vec!["PLAY rtsp://x RTSP/1.0", "CSeq: 3", "Session: 7"],
        vec!["OPTIONS * RTSP/1.0", "CSeq: x"],
        vec!["nonsense"],
    ] {
        for body in ["", "a: b\nc", "a: b\r\nc"] {
            let long = parse_rtsp_text(&(lines.join("\r\n") + "\r\n\r\n" + body));
            let short = parse_rtsp_text(&(lines.join("\n") + "\n\n" + body));
            match (long, short) {
                (Ok(a), Ok(b)) => {
                    assert_eq!((a.method, a.uri, a.cseq, a.body), (b.method, b.uri, b.cseq, b.body));
                    assert_eq!(a.headers.get("Session"), b.headers.get("Session"));
                }
                (Err(a), Err(b)) => {
                    assert_eq!((a.status_code, a.message), (b.status_code, b.message));
                }
                _ => unreachable!(),
            }
        }
    }
}

#[test]
fn size_check_leaves_nothing_to_the_parser() {
    let line = "PLAY * RTSP/1.0\r\nCSeq: 1\r\nX: ";
    for n in [8150usize, 8159, 8160, 8161, 8162, 8163, 8164, 8165, 8200] {
        for end in ["\r\n\r\n", "\n\n", "\r\n\r\né\r\n\r\n", ""] {
            let raw = format!("{line}{}é{end}", "x".repeat(n));
            let checked = validate_request_size(raw.as_bytes());
            if let Err(e) = parse_rtsp_request(raw.as_bytes()) {
                if e.status_code == RTSP_REQUEST_ENTITY_TOO_LARGE {
                    assert_eq!(
                        checked.unwrap_err().status_code,
                        RTSP_REQUEST_ENTITY_TOO_LARGE
                    );
                }
            }
        }
    }
    let raw = format!("{line}{}\r\n\r\n", "x".repeat(8200));
    assert_eq!(
        parse_rtsp_request(raw.as_bytes()).unwrap_err().status_code,
        RTSP_REQUEST_ENTITY_TOO_LARGE
    );
}
