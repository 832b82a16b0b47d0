use rustvncserver::wire::{
    decode_compact_len, get_u16_be, get_u32_be, push_compact_len, push_i32_be, push_pixel_format,
    push_u16_be, push_u32_be, server_init_bytes,
};

fn compact(len: u32) -> Vec<u8> {
    let mut v = Vec::new();
    push_compact_len(&mut v, len);
    v
}

#[test]
fn compact_len_one_byte() {
    assert_eq!(compact(0), vec![0]);
    assert_eq!(compact(5), vec![5]);
    assert_eq!(compact(127), vec![127]);
}

#[test]
fn compact_len_two_bytes() {
    assert_eq!(compact(128), vec![0x80, 0x01]);
    assert_eq!(compact(16383), vec![0xFF, 0x7F]);
}

#[test]
fn compact_len_three_bytes() {
    assert_eq!(compact(16384), vec![0x80, 0x80, 0x01]);
    assert_eq!(compact(0x3FFFFF), vec![0xFF, 0xFF, 0xFF]);
}

#[test]
fn compact_len_round_trips() {
    let cases: [u32; 12] = [0, 1, 64, 127, 128, 129, 8192, 16383, 16384, 65535, 2097151, 4194303];
    for &l in cases.iter() {
        let mut v = compact(l);
        v.push(0xAB); // trailing bytes must not disturb the decode
        let (got, n) = decode_compact_len(&v, 0).unwrap();
        assert_eq!(got, l);
        assert_eq!(n, v.len() - 1);
    }
}

#[test]
fn compact_len_length_formula() {
    // one byte per seven binary digits, rounded up (one byte for zero)
    for (l, expect) in [(0u32, 1usize), (127, 1), (128, 2), (16383, 2), (16384, 3)] {
        assert_eq!(compact(l).len(), expect);
    }
}

#[test]
fn decode_compact_len_short_input() {
    assert!(decode_compact_len(&[], 0).is_none());
    assert!(decode_compact_len(&[0x80], 0).is_none());
    assert!(decode_compact_len(&[0x80, 0x80], 0).is_none());
}

#[test]
fn big_endian_integers() {
    let mut v = Vec::new();
    push_u16_be(&mut v, 0x1234);
    push_u32_be(&mut v, 0xDEADBEEF);
    push_i32_be(&mut v, -223);
    assert_eq!(&v[0..2], &[0x12, 0x34]);
    assert_eq!(&v[2..6], &[0xDE, 0xAD, 0xBE, 0xEF]);
    assert_eq!(&v[6..10], &[0xFF, 0xFF, 0xFF, 0x21]);
    assert_eq!(get_u16_be(&v, 0), 0x1234);
    assert_eq!(get_u32_be(&v, 2), 0xDEADBEEF);
}

#[test]
fn pixel_format_is_bgrx_32() {
    let mut v = Vec::new();
    push_pixel_format(&mut v);
    assert_eq!(
        v,
        vec![32, 24, 0, 1, 0, 255, 0, 255, 0, 255, 16, 8, 0, 0, 0, 0]
    );
}

#[test]
fn server_init_layout() {
    let name: Vec<u8> = b"T".to_vec();
    let v = server_init_bytes(4, 2, &name);
    assert_eq!(&v[0..4], &[0, 4, 0, 2]);
    assert_eq!(v.len(), 2 + 2 + 16 + 4 + 1);
    assert_eq!(&v[20..24], &[0, 0, 0, 1]);
    assert_eq!(v[24], b'T');
}
