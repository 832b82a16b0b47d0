use rustvncserver::pixel::{build_palette, check_solid_color, rgba_to_rgb24_pixels};
use rustvncserver::tight::{decode_tight, encode_tight_palette, encode_tight_solid, TightEncoding};
use std::io::Write;

fn bgrx(b: u8, g: u8, r: u8) -> [u8; 4] {
    [b, g, r, 0]
}

fn image(px: &[[u8; 4]]) -> Vec<u8> {
    let mut v = Vec::new();
    for p in px {
        v.extend_from_slice(p);
    }
    v
}

fn zlib(data: &[u8], level: u32) -> Vec<u8> {
    let mut enc = flate2::write::ZlibEncoder::new(Vec::new(), flate2::Compression::new(level));
    enc.write_all(data).unwrap();
    enc.finish().unwrap()
}

#[test]
fn solid_rect_payload() {
    // a green 2x2 frame: one fill control byte, one packed colour
    let data = image(&[bgrx(0, 0xFF, 0), bgrx(0, 0xFF, 0), bgrx(0, 0xFF, 0), bgrx(0, 0xFF, 0)]);
    let enc = TightEncoding;
    let payload = enc.encode(&data, 2, 2, 75, 6);
    assert_eq!(payload, vec![0x80, 0x00, 0xFF, 0x00, 0x00]);
}

#[test]
fn solid_helpers_agree() {
    let data = image(&[bgrx(1, 2, 3); 6]);
    let px = rgba_to_rgb24_pixels(&data);
    assert_eq!(check_solid_color(&px), Some(0x030201));
    assert_eq!(encode_tight_solid(0x030201), vec![0x80, 0x01, 0x02, 0x03, 0x00]);
}

#[test]
fn palette_rect_payload() {
    // 2x2 checkerboard of colours a and b, encoded against its palette:
    // control 0x81, the two colours, then the zlib-compressed indices
    let a = bgrx(0x10, 0x20, 0x30);
    let b = bgrx(0x40, 0x50, 0x60);
    let data = image(&[a, b, b, a]);
    let px = rgba_to_rgb24_pixels(&data);
    let pal = build_palette(&px);
    assert_eq!(pal.len(), 2);
    let payload = encode_tight_palette(&px, 2, 2, &pal, 6);
    let z = zlib(&[0, 1, 1, 0], 6);
    let mut expect = vec![0x81u8];
    expect.extend_from_slice(&[0x10, 0x20, 0x30, 0x00]);
    expect.extend_from_slice(&[0x40, 0x50, 0x60, 0x00]);
    expect.push(z.len() as u8);
    expect.extend_from_slice(&z);
    assert_eq!(payload, expect);
}

#[test]
fn palette_round_trip() {
    // a 4x4 two-colour pattern takes the palette path of the full
    // encoder, and decoding returns the pixels exactly
    let a = bgrx(9, 8, 7);
    let b = bgrx(1, 2, 3);
    let mut cells = Vec::new();
    for i in 0..16 {
        cells.push(if (i / 4 + i) % 2 == 0 { a } else { b });
    }
    let data = image(&cells);
    let enc = TightEncoding;
    let payload = enc.encode(&data, 4, 4, 75, 6);
    assert_eq!(payload[0], 0x81);
    let px = rgba_to_rgb24_pixels(&data);
    let back = decode_tight(&payload, 4, 4).expect("decodes");
    assert_eq!(back, px);
}

#[test]
fn solid_round_trip() {
    let payload = encode_tight_solid(0x00AB12);
    let back = decode_tight(&payload, 3, 2).expect("decodes");
    assert_eq!(back, vec![0x00AB12; 6]);
}

#[test]
fn decode_rejects_garbage() {
    assert!(decode_tight(&[], 2, 2).is_none());
    assert!(decode_tight(&[0x90, 0x00], 2, 2).is_none());
    assert!(decode_tight(&[0x80, 1, 2], 2, 2).is_none());
    // palette frame cut short
    assert!(decode_tight(&[0x81, 1, 2, 3, 0], 2, 2).is_none());
}

#[test]
fn jpeg_rect_framing_and_quality() {
    // many distinct colours force the JPEG path; the stream decodes to
    // an image close to the original for quality well above fifty
    let w: u16 = 16;
    let h: u16 = 16;
    let mut data = Vec::new();
    for y in 0..h as usize {
        for x in 0..w as usize {
            data.extend_from_slice(&[(x * 16) as u8, (y * 16) as u8, ((x + y) * 8) as u8, 0]);
        }
    }
    let enc = TightEncoding;
    let payload = enc.encode(&data, w, h, 90, 6);
    assert_eq!(payload[0], 0x90);
    // compact length of the stream, then the stream itself
    let (jl, nb) = rustvncserver::wire::decode_compact_len(&payload, 1).unwrap();
    let stream = &payload[1 + nb..];
    assert_eq!(stream.len(), jl as usize);
    let mut dec = jpeg_decoder::Decoder::new(stream);
    let out = dec.decode().expect("jpeg stream decodes");
    let info = dec.info().unwrap();
    assert_eq!((info.width, info.height), (w, h));
    let mut err2: f64 = 0.0;
    let mut n: f64 = 0.0;
    for i in 0..(w as usize * h as usize) {
        // the encoder took RGB order: red was the third BGRX byte
        let r0 = data[i * 4 + 2] as f64;
        let g0 = data[i * 4 + 1] as f64;
        let b0 = data[i * 4] as f64;
        let r1 = out[i * 3] as f64;
        let g1 = out[i * 3 + 1] as f64;
        let b1 = out[i * 3 + 2] as f64;
        err2 += (r0 - r1) * (r0 - r1) + (g0 - g1) * (g0 - g1) + (b0 - b1) * (b0 - b1);
        n += 3.0;
    }
    let rms = (err2 / n).sqrt();
    // far below the roughly 104 a random image would give
    assert!(rms < 60.0, "rms {rms} out of bounds");
}
