use schnake::signal::{
    frame_signal, ice_wait_over, open_signal, parse_sdp_kind, sdp_has_candidate, sdp_kind_name,
    signal_bytes, signal_text, SdpKind, SignalBody, SignalError,
};

#[test]
fn framed_signal_round_trips() {
    let json = br#"{"sdp_type":"offer","sdp":"v=0\r\na=candidate:1 1 udp 1 1.2.3.4 5 typ host\r\n"}"#;
    let payload = frame_signal(json);
    assert_eq!(&payload[..4], b"SNK1");
    assert_ne!(&payload[4..], &json[..]);
    assert_eq!(
        miniz_oxide::inflate::decompress_to_vec_zlib(&payload[4..]).unwrap(),
        json.to_vec()
    );
    match open_signal(&payload) {
        Ok(SignalBody::Json(bytes)) => assert_eq!(bytes, json.to_vec()),
        _ => panic!("expected JSON"),
    }
}

#[test]
fn framed_empty_signal_round_trips() {
    let payload = frame_signal(b"");
    match open_signal(&payload) {
        Ok(SignalBody::Json(bytes)) => assert!(bytes.is_empty()),
        _ => panic!("expected JSON"),
    }
}

#[test]
fn bad_compression_is_reported() {
    match open_signal(b"SNK1not zlib") {
        Err(e) => assert_eq!(e, SignalError::BadCompression),
        Ok(_) => panic!("expected an error"),
    }
}

#[test]
fn text_signal_is_trimmed() {
    match open_signal(b"  {\"sdp_type\":\"answer\",\"sdp\":\"x\"}\n") {
        Ok(SignalBody::Text(t)) => assert_eq!(t, "{\"sdp_type\":\"answer\",\"sdp\":\"x\"}"),
        _ => panic!("expected text"),
    }
    match open_signal(b"SNK") {
        Ok(SignalBody::Text(t)) => assert_eq!(t, "SNK"),
        _ => panic!("expected text"),
    }
}

#[test]
fn non_utf8_and_blank_signals_are_refused() {
    match open_signal(&[0xff, 0xfe, 0x41]) {
        Err(e) => assert_eq!(e, SignalError::NotUtf8),
        Ok(_) => panic!("expected an error"),
    }
    match open_signal(b" \t\r\n") {
        Err(e) => assert_eq!(e, SignalError::Empty),
        Ok(_) => panic!("expected an error"),
    }
    match open_signal(b"") {
        Err(e) => assert_eq!(e, SignalError::Empty),
        Ok(_) => panic!("expected an error"),
    }
}

#[test]
fn sdp_kinds() {
    assert_eq!(sdp_kind_name(SdpKind::Offer), "offer");
    assert_eq!(sdp_kind_name(SdpKind::Answer), "answer");
    assert_eq!(sdp_kind_name(SdpKind::Pranswer), "pranswer");
    assert_eq!(sdp_kind_name(SdpKind::Rollback), "rollback");
    assert_eq!(sdp_kind_name(SdpKind::Unknown), "unknown");
    assert_eq!(parse_sdp_kind("offer"), Some(SdpKind::Offer));
    assert_eq!(parse_sdp_kind("answer"), Some(SdpKind::Answer));
    assert_eq!(parse_sdp_kind("pranswer"), None);
    assert_eq!(parse_sdp_kind("Offer"), None);
    for k in [SdpKind::Offer, SdpKind::Answer, SdpKind::Pranswer, SdpKind::Rollback, SdpKind::Unknown] {
        let back = parse_sdp_kind(&sdp_kind_name(k));
        if k == SdpKind::Offer || k == SdpKind::Answer {
            assert_eq!(back, Some(k));
        } else {
            assert_eq!(back, None);
        }
    }
}

#[test]
fn candidates_are_found() {
    assert!(sdp_has_candidate("v=0\r\na=candidate:1 1 udp"));
    assert!(sdp_has_candidate("a=candidate"));
    assert!(!sdp_has_candidate("a=candidat"));
    assert!(!sdp_has_candidate(""));
    assert!(!sdp_has_candidate("v=0\r\na=ice-ufrag:x"));
}

#[test]
fn ice_waiting() {
    assert!(ice_wait_over(true, false, 0));
    assert!(!ice_wait_over(false, true, 749));
    assert!(ice_wait_over(false, true, 750));
    assert!(!ice_wait_over(false, false, 2999));
    assert!(ice_wait_over(false, false, 3000));
}

#[test]
fn compressed_payloads_get_the_prefix() {
    assert_eq!(schnake::signal::frame_compressed(&[1, 2, 3]), vec![b'S', b'N', b'K', b'1', 1, 2, 3]);
    assert_eq!(schnake::signal::frame_compressed(&[]), b"SNK1".to_vec());
}

#[test]
fn framed_payload_survives_qr_text() {
    let payload = frame_signal(br#"{"sdp_type":"answer","sdp":"v=0"}"#);
    let text = signal_text(&payload);
    assert_eq!(text.chars().count(), payload.len());
    assert!(text.starts_with("SNK1"));
    assert_eq!(signal_bytes(&text), payload);
    let all: Vec<u8> = [b'S', b'N', b'K', b'1'].iter().copied().chain(0u8..=255).collect();
    assert_eq!(signal_bytes(&signal_text(&all)), all);
}

#[test]
fn plain_text_signal_keeps_its_utf8() {
    let text = " {\"sdp_type\":\"offer\",\"sdp\":\"café\"} ";
    assert_eq!(signal_bytes(text), text.as_bytes().to_vec());
    match open_signal(&signal_bytes(text)) {
        Ok(SignalBody::Text(t)) => assert_eq!(t, text.trim()),
        _ => panic!("expected text"),
    }
    assert_eq!(signal_bytes("SNK1€"), "SNK1€".as_bytes().to_vec());
    assert_eq!(signal_bytes("SNK1é"), vec![b'S', b'N', b'K', b'1', 0xe9]);
}
