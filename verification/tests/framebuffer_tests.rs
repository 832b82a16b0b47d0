use rustvncserver::framebuffer::Framebuffer;
use rustvncserver::rfb::VncError;

fn fill(w: u16, h: u16, f: impl Fn(usize, usize) -> [u8; 4]) -> Vec<u8> {
    let mut v = Vec::new();
    for y in 0..h as usize {
        for x in 0..w as usize {
            v.extend_from_slice(&f(x, y));
        }
    }
    v
}

#[test]
fn update_then_read_returns_same_bytes() {
    let mut fb = Framebuffer::new(3, 2).unwrap();
    let buf: Vec<u8> = (0..3 * 2 * 4).map(|i| i as u8).collect();
    fb.update_from_slice(&buf).unwrap();
    assert_eq!(fb.bytes().as_slice(), buf.as_slice());
}

#[test]
fn update_rejects_wrong_length() {
    let mut fb = Framebuffer::new(3, 2).unwrap();
    let buf = vec![0u8; 7];
    assert!(matches!(fb.update_from_slice(&buf), Err(VncError::SizeMismatch)));
    assert_eq!(fb.bytes().len(), 3 * 2 * 4);
}

#[test]
fn new_rejects_bad_dimensions() {
    assert!(matches!(Framebuffer::new(0, 5), Err(VncError::InvalidDimensions)));
    assert!(matches!(Framebuffer::new(5, 8193), Err(VncError::InvalidDimensions)));
    assert!(Framebuffer::new(8192, 1).is_ok());
}

#[test]
fn dirty_rows_are_exact() {
    let mut fb = Framebuffer::new(4, 4).unwrap();
    let base = fill(4, 4, |_, _| [1, 2, 3, 0]);
    fb.update_from_slice(&base).unwrap();
    // change only rows 1 and 2
    let mut next = base.clone();
    next[1 * 16 + 0] = 9;
    next[2 * 16 + 5] = 9;
    let u = fb.update_from_slice(&next).unwrap();
    let d = u.dirty.unwrap();
    assert_eq!((d.x, d.y, d.w, d.h), (0, 1, 4, 2));
}

#[test]
fn identical_update_is_clean() {
    let mut fb = Framebuffer::new(2, 2).unwrap();
    let img = fill(2, 2, |_, _| [5, 6, 7, 0]);
    fb.update_from_slice(&img).unwrap();
    let u = fb.update_from_slice(&img).unwrap();
    assert!(u.dirty.is_none());
    assert!(u.scroll.is_none());
}

#[test]
fn cropped_update_touches_exactly_the_rect() {
    let mut fb = Framebuffer::new(4, 3).unwrap();
    let base = fill(4, 3, |x, y| [x as u8, y as u8, 7, 0]);
    fb.update_from_slice(&base).unwrap();
    let tile = fill(2, 2, |_, _| [0xAA, 0xBB, 0xCC, 0]);
    let rc = fb.update_cropped(&tile, 1, 1, 2, 2).unwrap();
    assert_eq!((rc.x, rc.y, rc.w, rc.h), (1, 1, 2, 2));
    let cur = fb.bytes();
    for y in 0..3usize {
        for x in 0..4usize {
            let off = (y * 4 + x) * 4;
            if (1..3).contains(&x) && (1..3).contains(&y) {
                assert_eq!(&cur[off..off + 4], &[0xAA, 0xBB, 0xCC, 0]);
            } else {
                assert_eq!(&cur[off..off + 4], &base[off..off + 4]);
            }
        }
    }
}

#[test]
fn cropped_update_is_clipped() {
    let mut fb = Framebuffer::new(4, 4).unwrap();
    let tile = fill(3, 3, |_, _| [1, 1, 1, 0]);
    let rc = fb.update_cropped(&tile, 2, 2, 3, 3).unwrap();
    assert_eq!((rc.x, rc.y, rc.w, rc.h), (2, 2, 2, 2));
}

#[test]
fn cropped_update_rejects_wrong_length() {
    let mut fb = Framebuffer::new(4, 4).unwrap();
    let tile = vec![0u8; 5];
    assert!(matches!(
        fb.update_cropped(&tile, 0, 0, 2, 2),
        Err(VncError::SizeMismatch)
    ));
}

#[test]
fn resize_keeps_overlap_and_zeroes_the_rest() {
    let mut fb = Framebuffer::new(2, 2).unwrap();
    let img = fill(2, 2, |x, y| [x as u8 + 1, y as u8 + 1, 3, 0]);
    fb.update_from_slice(&img).unwrap();
    fb.resize(3, 2).unwrap();
    assert_eq!(fb.get_width(), 3);
    assert_eq!(fb.get_height(), 2);
    let cur = fb.bytes();
    for y in 0..2usize {
        for x in 0..3usize {
            let off = (y * 3 + x) * 4;
            if x < 2 {
                let old = &img[(y * 2 + x) * 4..(y * 2 + x) * 4 + 4];
                assert_eq!(&cur[off..off + 4], old);
            } else {
                assert_eq!(&cur[off..off + 4], &[0, 0, 0, 0]);
            }
        }
    }
    assert!(matches!(fb.resize(0, 1), Err(VncError::InvalidDimensions)));
}

#[test]
fn scroll_down_by_one_row_is_detected() {
    let mut fb = Framebuffer::new(4, 4).unwrap();
    let base = fill(4, 4, |x, y| [x as u8, (y * 3) as u8, (x + y) as u8, 0]);
    fb.update_from_slice(&base).unwrap();
    // shift the content down one row, row zero fresh
    let mut next = vec![0u8; 4 * 4 * 4];
    next[16..].copy_from_slice(&base[..3 * 16]);
    for i in 0..16 {
        next[i] = 0x44;
    }
    let u = fb.update_from_slice(&next).unwrap();
    let c = u.scroll.expect("scroll candidate expected");
    assert_eq!(c.dx, 0);
    assert_eq!(c.dy, 1);
    assert_eq!((c.rect.x, c.rect.y, c.rect.w, c.rect.h), (0, 1, 4, 3));
}

#[test]
fn generation_advances_per_commit() {
    let mut fb = Framebuffer::new(2, 2).unwrap();
    assert_eq!(fb.get_generation(), 0);
    let img = fill(2, 2, |_, _| [1, 2, 3, 0]);
    fb.update_from_slice(&img).unwrap();
    assert_eq!(fb.get_generation(), 1);
    fb.resize(3, 3).unwrap();
    assert_eq!(fb.get_generation(), 2);
}
