use rustvncserver::protocol::{
    check_security_choice, parse_client_version, parse_message, security_offer_bytes,
    security_result_bytes, server_version_bytes, ClientMessage, ParseOutcome, RfbVersion,
};
use rustvncserver::rfb::{ProtocolReason, ServerEvent, VncError};
use rustvncserver::session::SessionState;
use rustvncserver::wire::server_init_bytes;

#[test]
fn handshake_with_no_password() {
    // the server greets with its version
    assert_eq!(server_version_bytes(), b"RFB 003.008\n".to_vec());
    // the client answers 3.8
    let v = parse_client_version(b"RFB 003.008\n").unwrap();
    assert_eq!(v, RfbVersion::V38);
    // no password: one security type, None
    assert_eq!(security_offer_bytes(false, v), vec![0x01, 0x01]);
    // the client picks it
    assert!(check_security_choice(1, false).is_ok());
    // the server confirms
    assert_eq!(security_result_bytes(true, v), vec![0, 0, 0, 0]);
    // and a 4 by 2 desktop named T announces itself
    let init = server_init_bytes(4, 2, &b"T".to_vec());
    assert_eq!(&init[0..4], &[0, 4, 0, 2]);
    assert_eq!(init[init.len() - 1], b'T');
}

#[test]
fn versions_and_rejections() {
    assert_eq!(parse_client_version(b"RFB 003.003\n").unwrap(), RfbVersion::V33);
    assert_eq!(parse_client_version(b"RFB 003.007\n").unwrap(), RfbVersion::V37);
    assert!(matches!(
        parse_client_version(b"RFB 003.005\n"),
        Err(VncError::ProtocolError { reason: ProtocolReason::BadVersion })
    ));
    assert!(matches!(
        parse_client_version(b"HTTP/1.1 200\n"),
        Err(VncError::ProtocolError { reason: ProtocolReason::BadVersion })
    ));
}

#[test]
fn security_offer_with_password() {
    assert_eq!(security_offer_bytes(true, RfbVersion::V38), vec![0x01, 0x02]);
    assert_eq!(security_offer_bytes(true, RfbVersion::V33), vec![0, 0, 0, 2]);
    assert!(matches!(
        check_security_choice(1, true),
        Err(VncError::ProtocolError { reason: ProtocolReason::BadSecurityType })
    ));
}

#[test]
fn failed_result_carries_a_reason_under_38() {
    let r = security_result_bytes(false, RfbVersion::V38);
    assert_eq!(&r[0..4], &[0, 0, 0, 1]);
    assert_eq!(&r[4..8], &[0, 0, 0, 11]);
    assert_eq!(&r[8..], b"auth failed");
    assert_eq!(security_result_bytes(false, RfbVersion::V37), vec![0, 0, 0, 1]);
}

#[test]
fn parses_each_message_type() {
    // SetPixelFormat
    let mut m = vec![0u8, 0, 0, 0];
    m.extend_from_slice(&[32, 24, 0, 1, 0, 255, 0, 255, 0, 255, 16, 8, 0, 0, 0, 0]);
    match parse_message(&m, 0) {
        ParseOutcome::Parsed { consumed, msg: ClientMessage::SetPixelFormat { format } } => {
            assert_eq!(consumed, 20);
            assert_eq!(format.len(), 16);
            assert_eq!(format[0], 32);
        },
        _ => panic!("expected SetPixelFormat"),
    }
    // SetEncodings with two entries
    let m = vec![2u8, 0, 0, 2, 0, 0, 0, 7, 0xFF, 0xFF, 0xFF, 0x21];
    match parse_message(&m, 0) {
        ParseOutcome::Parsed { consumed, msg: ClientMessage::SetEncodings { encodings } } => {
            assert_eq!(consumed, 12);
            assert_eq!(encodings, vec![7, -223]);
        },
        _ => panic!("expected SetEncodings"),
    }
    // FramebufferUpdateRequest
    let m = vec![3u8, 1, 0, 1, 0, 2, 0, 3, 0, 4];
    match parse_message(&m, 0) {
        ParseOutcome::Parsed { consumed, msg: ClientMessage::UpdateRequest { incremental, rect } } => {
            assert_eq!(consumed, 10);
            assert!(incremental);
            assert_eq!((rect.x, rect.y, rect.w, rect.h), (1, 2, 3, 4));
        },
        _ => panic!("expected UpdateRequest"),
    }
    // KeyEvent
    let m = vec![4u8, 1, 0, 0, 0, 0, 0xFF, 0x0D];
    match parse_message(&m, 0) {
        ParseOutcome::Parsed { consumed, msg: ClientMessage::KeyEvent { down, key } } => {
            assert_eq!(consumed, 8);
            assert!(down);
            assert_eq!(key, 0xFF0D);
        },
        _ => panic!("expected KeyEvent"),
    }
    // PointerEvent
    let m = vec![5u8, 3, 0, 10, 0, 20];
    match parse_message(&m, 0) {
        ParseOutcome::Parsed { consumed, msg: ClientMessage::PointerEvent { buttons, x, y } } => {
            assert_eq!(consumed, 6);
            assert_eq!((buttons, x, y), (3, 10, 20));
        },
        _ => panic!("expected PointerEvent"),
    }
    // ClientCutText
    let m = vec![6u8, 0, 0, 0, 0, 0, 0, 2, b'h', b'i'];
    match parse_message(&m, 0) {
        ParseOutcome::Parsed { consumed, msg: ClientMessage::CutText { text } } => {
            assert_eq!(consumed, 10);
            assert_eq!(text, b"hi".to_vec());
        },
        _ => panic!("expected CutText"),
    }
}

#[test]
fn incomplete_and_malformed() {
    assert!(matches!(parse_message(&[], 0), ParseOutcome::Incomplete));
    assert!(matches!(parse_message(&[4u8, 1], 0), ParseOutcome::Incomplete));
    assert!(matches!(parse_message(&[9u8], 0), ParseOutcome::Malformed));
}

#[test]
fn one_event_per_input_message_in_order() {
    // a key press, a pointer move and a cut text in one stream
    let mut stream = vec![4u8, 1, 0, 0, 0, 0, 0, 65];
    stream.extend_from_slice(&[5u8, 1, 0, 7, 0, 9]);
    stream.extend_from_slice(&[6u8, 0, 0, 0, 0, 0, 0, 1, b'x']);
    // a non-event message in between must not emit anything
    stream.extend_from_slice(&[3u8, 1, 0, 0, 0, 0, 0, 4, 0, 2]);
    let mut s = SessionState::new(42);
    let (events, used) = s.process_input(&stream).unwrap();
    assert_eq!(used, stream.len());
    assert_eq!(events.len(), 3);
    assert!(matches!(
        events[0],
        ServerEvent::KeyPress { client_id: 42, down: true, key: 65 }
    ));
    assert!(matches!(
        events[1],
        ServerEvent::PointerMove { client_id: 42, x: 7, y: 9, button_mask: 1 }
    ));
    match &events[2] {
        ServerEvent::CutText { client_id, text } => {
            assert_eq!(*client_id, 42);
            assert_eq!(text, &b"x".to_vec());
        },
        _ => panic!("expected CutText"),
    }
}

#[test]
fn unknown_message_type_is_a_protocol_error() {
    let mut s = SessionState::new(1);
    assert!(matches!(
        s.process_input(&[77u8, 1, 2, 3]),
        Err(VncError::ProtocolError { reason: ProtocolReason::BadMessageType })
    ));
}
