//! Zlib compression behind trusted wrappers, and the mapping from the
//! RFB compression knob to a zlib level.

use vstd::prelude::*;
use std::io::Read;
use std::io::Write;

verus! {

/// What the zlib compressor emits for given input bytes and level.
/// The build uses flate2's pure-Rust backend, whose output is a
/// function of these two arguments alone.
pub uninterp spec fn zlib_deflate_of(data: Seq<u8>, level: int) -> Seq<u8>;

/// Relies on flate2::write::ZlibEncoder (miniz_oxide backend): the
/// compressed stream depends on the input bytes and the level alone.
#[verifier::external_body]
pub(crate) fn zlib_compress(data: &[u8], level: u8) -> (r: Option<Vec<u8>>)
    requires
        level <= 9,
    ensures
        r matches Some(v) ==> v@ == zlib_deflate_of(data@, level as int),
{
    let mut enc = flate2::write::ZlibEncoder::new(
        Vec::new(),
        flate2::Compression::new(level as u32),
    );
    if enc.write_all(data).is_err() {
        return None;
    }
    enc.finish().ok()
}

/// Relies on flate2::read::ZlibDecoder: zlib decompression is lossless,
/// so a stream the compressor produced decompresses to what went in.
#[verifier::external_body]
pub(crate) fn zlib_decompress(data: &[u8]) -> (r: Option<Vec<u8>>)
    ensures
        r is None ==> !(exists|orig: Seq<u8>, level: int| data@ == zlib_deflate_of(orig, level)),
        r matches Some(v) ==> forall|orig: Seq<u8>, level: int|
            data@ == zlib_deflate_of(orig, level) ==> v@ == orig,
{
    let mut dec = flate2::read::ZlibDecoder::new(data);
    let mut out: Vec<u8> = Vec::new();
    match dec.read_to_end(&mut out) {
        Ok(_) => Some(out),
        Err(_) => None,
    }
}

/// The zlib level for an RFB compression knob: 0 is fastest, 1-3 that
/// level, 4-6 the default level, 7-9 best.
pub open spec fn spec_zlib_level(compression: u8) -> u8 {
    if compression == 0 {
        1
    } else if compression <= 3 {
        compression
    } else if compression <= 6 {
        6
    } else {
        9
    }
}

/// Map the RFB compression knob to a zlib level.
pub fn zlib_level_for(compression: u8) -> (r: u8)
    ensures
        r == spec_zlib_level(compression),
        r <= 9,
{
    if compression == 0 {
        1
    } else if compression <= 3 {
        compression
    } else if compression <= 6 {
        6
    } else {
        9
    }
}

} // verus!
