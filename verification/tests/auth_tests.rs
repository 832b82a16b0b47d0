use rustvncserver::auth::{bitrev8, vnc_auth_verify, vnc_challenge_response, AuthThrottle};
use rustvncserver::des::des_encrypt_block;

#[test]
fn des_known_block() {
    // the worked example of the standard
    let c = des_encrypt_block(0x133457799BBCDFF1, 0x0123456789ABCDEF);
    assert_eq!(c, 0x85E813540F0AB405);
}

#[test]
fn bit_reversal() {
    assert_eq!(bitrev8(0b0000_0001), 0b1000_0000);
    assert_eq!(bitrev8(0b1100_0000), 0b0000_0011);
    assert_eq!(bitrev8(0xFF), 0xFF);
    assert_eq!(bitrev8(0x00), 0x00);
}

#[test]
fn challenge_response_value() {
    let password: Vec<u8> = b"abcdefgh".to_vec();
    let challenge: Vec<u8> = (0u8..16).collect();
    let resp = vnc_challenge_response(&password, &challenge);
    let expect: Vec<u8> = vec![
        0xEA, 0xE3, 0xA1, 0xCB, 0x74, 0xCA, 0x6D, 0xAA, 0xC1, 0x83, 0xF6, 0x64, 0x60, 0x19, 0x0B,
        0xB5,
    ];
    assert_eq!(resp, expect);
}

#[test]
fn verify_accepts_only_the_right_response() {
    let password: Vec<u8> = b"abcdefgh".to_vec();
    let challenge: Vec<u8> = (100u8..116).collect();
    let good = vnc_challenge_response(&password, &challenge);
    assert!(vnc_auth_verify(&password, &challenge, &good));
    let mut bad = good.clone();
    bad[0] ^= 1;
    assert!(!vnc_auth_verify(&password, &challenge, &bad));
    assert!(!vnc_auth_verify(&password, &challenge, &good[..15]));
}

#[test]
fn short_passwords_are_nul_padded() {
    // a short password behaves like itself padded with NUL bytes
    let challenge: Vec<u8> = (0u8..16).collect();
    let short: Vec<u8> = b"abc".to_vec();
    let padded: Vec<u8> = b"abc\0\0\0\0\0".to_vec();
    assert_eq!(
        vnc_challenge_response(&short, &challenge),
        vnc_challenge_response(&padded, &challenge)
    );
}

#[test]
fn long_passwords_are_truncated() {
    let challenge: Vec<u8> = (0u8..16).collect();
    let eight: Vec<u8> = b"abcdefgh".to_vec();
    let longer: Vec<u8> = b"abcdefghij".to_vec();
    assert_eq!(
        vnc_challenge_response(&eight, &challenge),
        vnc_challenge_response(&longer, &challenge)
    );
}

#[test]
fn three_consecutive_failures_block_a_peer() {
    let mut gate = AuthThrottle::new();
    let peer = b"203.0.113.9".to_vec();
    let other = b"203.0.113.10".to_vec();
    assert!(!gate.blocked(&peer));
    gate.record_failure(&peer);
    gate.record_failure(&peer);
    assert!(!gate.blocked(&peer));
    gate.record_failure(&peer);
    assert!(gate.blocked(&peer));
    assert!(!gate.blocked(&other));
    // a success clears the streak
    gate.record_success(&peer);
    assert!(!gate.blocked(&peer));
}
