//! JPEG compression behind a trusted wrapper.

use vstd::prelude::*;

verus! {

/// What the JPEG encoder emits for given RGB bytes, dimensions and
/// quality.  The build uses the encoder's scalar code path, whose
/// output is a function of these arguments alone.
pub uninterp spec fn jpeg_bytes_of(rgb: Seq<u8>, w: int, h: int, q: int) -> Seq<u8>;

/// Relies on jpeg_encoder::Encoder::encode with ColorType::Rgb: for
/// non-zero dimensions and a buffer of exactly `w * h * 3` bytes it
/// writes one JPEG stream into the Vec, a function of its arguments.
#[verifier::external_body]
pub(crate) fn jpeg_compress_rgb(rgb: &[u8], w: u16, h: u16, q: u8) -> (r: Option<Vec<u8>>)
    requires
        1 <= w,
        1 <= h,
        rgb@.len() == w * h * 3,
        1 <= q <= 100,
    ensures
        r matches Some(v) ==> v@ == jpeg_bytes_of(rgb@, w as int, h as int, q as int),
{
    let mut out: Vec<u8> = Vec::new();
    let enc = jpeg_encoder::Encoder::new(&mut out, q);
    match enc.encode(rgb, w, h, jpeg_encoder::ColorType::Rgb) {
        Ok(()) => Some(out),
        Err(_) => None,
    }
}

} // verus!
