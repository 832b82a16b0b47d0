//! Row-major index arithmetic for pixel buffers.
//!
//! A frame of `w` by `h` pixels is stored as `w * h * 4` bytes: pixel
//! `(px, py)` owns bytes `(py * w + px) * 4 + k` for `k` in `0 .. 4`.

use vstd::prelude::*;

verus! {

/// Byte offset of channel `k` of pixel `(px, py)` in a `w`-wide frame.
pub open spec fn byte_index(w: int, py: int, px: int, k: int) -> int {
    (py * w + px) * 4 + k
}

/// The coordinates can be read back from a byte offset by division.
pub proof fn lemma_byte_index_coords(w: int, py: int, px: int, k: int)
    requires
        w >= 1,
        0 <= py,
        0 <= px < w,
        0 <= k < 4,
    ensures
        byte_index(w, py, px, k) / (4 * w) == py,
        (byte_index(w, py, px, k) % (4 * w)) / 4 == px,
        byte_index(w, py, px, k) % 4 == k,
        byte_index(w, py, px, k) >= 0,
{
    let i = byte_index(w, py, px, k);
    assert((py * w + px) * 4 + k == py * (4 * w) + (4 * px + k)) by (nonlinear_arith);
    assert(4 * px + k < 4 * w) by (nonlinear_arith)
        requires
            px < w,
            k < 4,
    ;
    assert((py * w + px) * 4 + k >= 0) by (nonlinear_arith)
        requires
            0 <= py,
            0 <= px,
            0 <= k,
            w >= 1,
    ;
    vstd::arithmetic::div_mod::lemma_fundamental_div_mod_converse(
        i,
        4 * w,
        py,
        4 * px + k,
    );
    vstd::arithmetic::div_mod::lemma_fundamental_div_mod_converse(4 * px + k, 4, px, k);
}

/// Distinct coordinates occupy distinct byte offsets.
pub proof fn lemma_byte_index_inj(w: int, py1: int, px1: int, k1: int, py2: int, px2: int, k2: int)
    requires
        w >= 1,
        0 <= py1,
        0 <= px1 < w,
        0 <= k1 < 4,
        0 <= py2,
        0 <= px2 < w,
        0 <= k2 < 4,
        byte_index(w, py1, px1, k1) == byte_index(w, py2, px2, k2),
    ensures
        py1 == py2,
        px1 == px2,
        k1 == k2,
{
    lemma_byte_index_coords(w, py1, px1, k1);
    lemma_byte_index_coords(w, py2, px2, k2);
}

/// Byte offsets of a `w` by `h` frame stay below `w * h * 4`.
pub proof fn lemma_byte_index_range(w: int, h: int, py: int, px: int, k: int)
    requires
        w >= 1,
        h >= 1,
        0 <= py < h,
        0 <= px < w,
        0 <= k < 4,
    ensures
        0 <= byte_index(w, py, px, k) < w * h * 4,
{
    assert(0 <= (py * w + px) * 4 + k < w * h * 4) by (nonlinear_arith)
        requires
            w >= 1,
            h >= 1,
            0 <= py < h,
            0 <= px < w,
            0 <= k < 4,
    ;
}

/// Compute a byte offset without overflow: the whole frame fits in
/// memory, so every offset inside it does too.
pub fn byte_offset(w: usize, h: usize, py: usize, px: usize, k: usize) -> (r: usize)
    requires
        w >= 1,
        h >= 1,
        py < h,
        px < w,
        k < 4,
        w * h * 4 <= usize::MAX,
    ensures
        r == byte_index(w as int, py as int, px as int, k as int),
        r < w * h * 4,
{
    proof {
        lemma_byte_index_range(w as int, h as int, py as int, px as int, k as int);
        assert(py * w + px < w * h) by (nonlinear_arith)
            requires
                w >= 1,
                h >= 1,
                py < h,
                px < w,
        ;
        assert(w * h <= w * h * 4);
    }
    (py * w + px) * 4 + k
}

} // verus!
