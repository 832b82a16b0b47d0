use rustvncserver::framebuffer::Framebuffer;
use rustvncserver::protocol::ClientMessage;
use rustvncserver::rfb::{Rect, VncError, ProtocolReason, ENC_COPYRECT, ENC_TIGHT};
use rustvncserver::server::{cut_text_message, repeater_frame, ServerCore};
use rustvncserver::session::{SessionState, MIN_UPDATE_INTERVAL_MS};

fn green_frame(w: u16, h: u16) -> Vec<u8> {
    let mut v = Vec::new();
    for _ in 0..(w as usize * h as usize) {
        v.extend_from_slice(&[0x00, 0xFF, 0x00, 0x00]);
    }
    v
}

fn tight_session(id: u64) -> SessionState {
    let mut s = SessionState::new(id);
    let msg = ClientMessage::SetEncodings { encodings: vec![ENC_TIGHT, ENC_COPYRECT] };
    assert!(s.handle_message(&msg).is_none());
    s
}

#[test]
fn solid_rect_update_message() {
    // a 2x2 green frame, full update requested with Tight negotiated:
    // one rectangle (0,0,2,2) in Tight, payload a solid fill
    let mut fb = Framebuffer::new(2, 2).unwrap();
    let u = fb.update_from_slice(&green_frame(2, 2)).unwrap();
    let dirty = u.dirty.unwrap();
    let mut s = tight_session(7);
    let req = ClientMessage::UpdateRequest {
        incremental: false,
        rect: Rect { x: 0, y: 0, w: 2, h: 2 },
    };
    s.handle_message(&req);
    s.add_pending(dirty);
    let msg = s.take_flush(&fb, None, MIN_UPDATE_INTERVAL_MS).unwrap();
    let mut expect: Vec<u8> = vec![0, 0, 0, 1];
    expect.extend_from_slice(&[0, 0, 0, 0, 0, 2, 0, 2]);
    expect.extend_from_slice(&[0, 0, 0, 7]);
    expect.extend_from_slice(&[0x80, 0x00, 0xFF, 0x00, 0x00]);
    assert_eq!(msg, expect);
    // the flush cleared the request and the pending region
    assert!(s.take_flush(&fb, None, 10 * MIN_UPDATE_INTERVAL_MS).is_none());
}

#[test]
fn scrolled_update_sends_copyrect_then_fresh_rows() {
    // a 4x4 frame scrolled down one row: a CopyRect for the moved
    // region, then one Tight rectangle for the fresh top row
    let mut fb = Framebuffer::new(4, 4).unwrap();
    let mut base = Vec::new();
    for i in 0..16u32 {
        base.extend_from_slice(&[(i * 3) as u8, (i * 5) as u8, (i * 7) as u8, 0]);
    }
    fb.update_from_slice(&base).unwrap();
    let mut next = vec![0u8; 64];
    next[16..].copy_from_slice(&base[..48]);
    for i in 0..4 {
        next[i * 4..i * 4 + 4].copy_from_slice(&[0x11, 0x22, 0x33, 0x00]);
    }
    let u = fb.update_from_slice(&next).unwrap();
    let dirty = u.dirty.unwrap();
    let scroll = u.scroll;
    assert!(scroll.is_some());
    let mut s = tight_session(9);
    let req = ClientMessage::UpdateRequest {
        incremental: false,
        rect: Rect { x: 0, y: 0, w: 4, h: 4 },
    };
    s.handle_message(&req);
    s.add_pending(dirty);
    let msg = s.take_flush(&fb, scroll, MIN_UPDATE_INTERVAL_MS).unwrap();
    let mut expect: Vec<u8> = vec![0, 0, 0, 2];
    // CopyRect destination (0,1,4,3), source (0,0)
    expect.extend_from_slice(&[0, 0, 0, 1, 0, 4, 0, 3]);
    expect.extend_from_slice(&[0, 0, 0, 1]);
    expect.extend_from_slice(&[0, 0, 0, 0]);
    // fresh top row (0,0,4,1) in Tight: a solid fill
    expect.extend_from_slice(&[0, 0, 0, 0, 0, 4, 0, 1]);
    expect.extend_from_slice(&[0, 0, 0, 7]);
    expect.extend_from_slice(&[0x80, 0x11, 0x22, 0x33, 0x00]);
    assert_eq!(msg, expect);
}

#[test]
fn raw_fallback_without_tight() {
    let mut fb = Framebuffer::new(2, 1).unwrap();
    fb.update_from_slice(&green_frame(2, 1)).unwrap();
    let mut s = SessionState::new(3);
    let req = ClientMessage::UpdateRequest {
        incremental: false,
        rect: Rect { x: 0, y: 0, w: 2, h: 1 },
    };
    s.handle_message(&req);
    let msg = s.take_flush(&fb, None, MIN_UPDATE_INTERVAL_MS).unwrap();
    let mut expect: Vec<u8> = vec![0, 0, 0, 1];
    expect.extend_from_slice(&[0, 0, 0, 0, 0, 2, 0, 1]);
    expect.extend_from_slice(&[0, 0, 0, 0]);
    expect.extend_from_slice(&green_frame(2, 1));
    assert_eq!(msg, expect);
}

#[test]
fn flush_waits_for_request_and_interval() {
    let mut fb = Framebuffer::new(2, 2).unwrap();
    fb.update_from_slice(&green_frame(2, 2)).unwrap();
    let mut s = tight_session(1);
    // nothing requested yet
    s.add_pending(Rect { x: 0, y: 0, w: 2, h: 2 });
    assert!(s.take_flush(&fb, None, 1000).is_none());
    let req = ClientMessage::UpdateRequest {
        incremental: true,
        rect: Rect { x: 0, y: 0, w: 2, h: 2 },
    };
    s.handle_message(&req);
    // interval not yet elapsed
    assert!(s.take_flush(&fb, None, MIN_UPDATE_INTERVAL_MS - 1).is_none());
    assert!(s.take_flush(&fb, None, MIN_UPDATE_INTERVAL_MS).is_some());
}

#[test]
fn pseudo_encodings_set_quality_and_compression() {
    let mut s = SessionState::new(1);
    let msg = ClientMessage::SetEncodings { encodings: vec![7, -32 + 9, -256 + 2] };
    s.handle_message(&msg);
    assert_eq!(s.jpeg_quality, 95);
    assert_eq!(s.compression, 2);
    // the last level named wins
    let msg = ClientMessage::SetEncodings { encodings: vec![-32, -23] };
    s.handle_message(&msg);
    assert_eq!(s.jpeg_quality, 95);
}

#[test]
fn registry_gives_unique_positive_ids() {
    let mut srv = ServerCore::new(4, 2, b"T".to_vec(), None).unwrap();
    let a = srv.register_client().unwrap();
    let b = srv.register_client().unwrap();
    assert!(a >= 1);
    assert!(b > a);
    assert_eq!(srv.client_count(), 2);
    assert!(srv.remove_client(a));
    assert!(!srv.remove_client(a));
    assert_eq!(srv.client_count(), 1);
}

#[test]
fn shutdown_quiesces_the_registry() {
    let mut srv = ServerCore::new(4, 2, b"T".to_vec(), Some(b"pw".to_vec())).unwrap();
    srv.register_client().unwrap();
    srv.register_client().unwrap();
    srv.shutdown();
    assert_eq!(srv.client_count(), 0);
    assert!(srv.register_client().is_none());
}

#[test]
fn server_rejects_bad_dimensions() {
    assert!(matches!(
        ServerCore::new(0, 2, Vec::new(), None),
        Err(VncError::InvalidDimensions)
    ));
    assert!(matches!(
        ServerCore::new(2, 9000, Vec::new(), None),
        Err(VncError::InvalidDimensions)
    ));
}

#[test]
fn cut_text_message_layout() {
    let m = cut_text_message(&b"hello".to_vec());
    assert_eq!(&m[0..4], &[3, 0, 0, 0]);
    assert_eq!(&m[4..8], &[0, 0, 0, 5]);
    assert_eq!(&m[8..], b"hello");
}

#[test]
fn repeater_field_is_exactly_250_nul_padded_bytes() {
    let f = repeater_frame(&b"ID:1234567890".to_vec()).unwrap();
    assert_eq!(f.len(), 250);
    assert_eq!(&f[0..13], b"ID:1234567890");
    assert!(f[13..].iter().all(|&b| b == 0));
    let too_long = vec![b'x'; 251];
    assert!(matches!(
        repeater_frame(&too_long),
        Err(VncError::ProtocolError { reason: ProtocolReason::BadRepeaterId })
    ));
}

#[test]
fn exclusive_client_evicts_the_others() {
    let mut srv = ServerCore::new(4, 2, b"T".to_vec(), None).unwrap();
    let a = srv.register_client().unwrap();
    let b = srv.register_client().unwrap();
    let c = srv.register_client().unwrap();
    let evicted = srv.evict_others(b);
    assert_eq!(srv.client_count(), 1);
    assert_eq!(evicted.len(), 2);
    assert!(evicted.contains(&a));
    assert!(evicted.contains(&c));
    assert!(!evicted.contains(&b));
}

#[test]
fn incompatible_pixel_format_refuses_tight() {
    // a client that set a non-BGRX format gets Raw even with Tight
    let mut fb = Framebuffer::new(2, 1).unwrap();
    fb.update_from_slice(&green_frame(2, 1)).unwrap();
    let mut s = tight_session(4);
    let other_format: Vec<u8> = vec![16, 16, 1, 1, 0, 31, 0, 63, 0, 31, 11, 5, 0, 0, 0, 0];
    s.handle_message(&ClientMessage::SetPixelFormat { format: other_format });
    s.handle_message(&ClientMessage::UpdateRequest {
        incremental: false,
        rect: Rect { x: 0, y: 0, w: 2, h: 1 },
    });
    let msg = s.take_flush(&fb, None, MIN_UPDATE_INTERVAL_MS).unwrap();
    // encoding number zero: Raw
    assert_eq!(&msg[12..16], &[0, 0, 0, 0]);
    // restoring the server format restores Tight
    let server_format: Vec<u8> = vec![32, 24, 0, 1, 0, 255, 0, 255, 0, 255, 16, 8, 0, 0, 0, 0];
    s.handle_message(&ClientMessage::SetPixelFormat { format: server_format });
    s.handle_message(&ClientMessage::UpdateRequest {
        incremental: false,
        rect: Rect { x: 0, y: 0, w: 2, h: 1 },
    });
    let msg = s.take_flush(&fb, None, 3 * MIN_UPDATE_INTERVAL_MS).unwrap();
    assert_eq!(&msg[12..16], &[0, 0, 0, 7]);
}

#[test]
fn resize_is_announced_once_to_clients_that_asked() {
    let mut s = SessionState::new(5);
    s.set_announced_size(4, 4);
    // without the pseudo-encoding nothing is sent
    assert!(s.desktop_size_announcement(8, 8).is_none());
    s.handle_message(&ClientMessage::SetEncodings { encodings: vec![7, -223] });
    let note = s.desktop_size_announcement(8, 8).unwrap();
    let mut expect: Vec<u8> = vec![0, 0, 0, 1];
    expect.extend_from_slice(&[0, 0, 0, 0, 0, 8, 0, 8]);
    expect.extend_from_slice(&[0xFF, 0xFF, 0xFF, 0x21]);
    assert_eq!(note, expect);
    // announced once, not repeated
    assert!(s.desktop_size_announcement(8, 8).is_none());
}
