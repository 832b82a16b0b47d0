//! The Raw encoding: pixels sent verbatim in the fixed 32-bpp format.

use vstd::prelude::*;

verus! {

/// Implements the RFB Raw encoding.
pub struct RawEncoding;

impl RawEncoding {
    /// Emit the rectangle's bytes unchanged: the stored format is
    /// already the advertised wire format.
    pub fn encode(&self, data: &[u8], width: u16, height: u16, quality: u8, compression: u8) -> (r:
        Vec<u8>)
        ensures
            r@ == data@,
    {
        let mut out: Vec<u8> = Vec::new();
        crate::wire::push_bytes(&mut out, data);
        out
    }
}

} // verus!
