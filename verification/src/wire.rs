//! RFB wire primitives: big-endian integers, the compact length codec,
//! rectangle headers, the fixed 32-bpp BGRX pixel format and ServerInit.

use vstd::prelude::*;
use crate::rfb::Rect;

verus! {

/// Largest value the 1-3 byte compact length codec can carry, plus one.
pub const COMPACT_LEN_LIMIT: u32 = 0x400000;

/// Big-endian bytes of a 16-bit integer.
pub open spec fn spec_u16_be(v: u16) -> Seq<u8> {
    seq![(v / 256) as u8, (v % 256) as u8]
}

/// Big-endian bytes of a 32-bit integer.
pub open spec fn spec_u32_be(v: u32) -> Seq<u8> {
    seq![
        ((v / 0x1000000) % 256) as u8,
        ((v / 0x10000) % 256) as u8,
        ((v / 0x100) % 256) as u8,
        (v % 256) as u8,
    ]
}

/// Append a 16-bit integer, most significant byte first.
pub fn push_u16_be(buf: &mut Vec<u8>, v: u16)
    ensures
        final(buf)@ == old(buf)@ + spec_u16_be(v),
{
    buf.push((v / 256) as u8);
    buf.push((v % 256) as u8);
    assert(buf@ =~= old(buf)@ + spec_u16_be(v));
}

/// Append a whole byte slice.
pub fn push_bytes(buf: &mut Vec<u8>, src: &[u8])
    ensures
        final(buf)@ == old(buf)@ + src@,
{
    let mut i: usize = 0;
    while i < src.len()
        invariant
            i <= src@.len(),
            buf@ == old(buf)@ + src@.subrange(0, i as int),
        decreases src@.len() - i,
    {
        buf.push(src[i]);
        assert(buf@ =~= old(buf)@ + src@.subrange(0, i + 1 as int));
        i += 1;
    }
    assert(buf@ =~= old(buf)@ + src@);
}

/// Append a 32-bit integer, most significant byte first.
pub fn push_u32_be(buf: &mut Vec<u8>, v: u32)
    ensures
        final(buf)@ == old(buf)@ + spec_u32_be(v),
{
    buf.push(((v / 0x1000000) % 256) as u8);
    buf.push(((v / 0x10000) % 256) as u8);
    buf.push(((v / 0x100) % 256) as u8);
    buf.push((v % 256) as u8);
    assert(buf@ =~= old(buf)@ + spec_u32_be(v));
}

/// Append a 32-bit signed integer in two's complement, big-endian.
pub fn push_i32_be(buf: &mut Vec<u8>, v: i32)
    ensures
        final(buf)@ == old(buf)@ + spec_u32_be(v as u32),
{
    push_u32_be(buf, v as u32);
}

/// Copy a byte string.
pub fn byte_copy(src: &Vec<u8>) -> (r: Vec<u8>)
    ensures
        r@ == src@,
{
    vstd::slice::slice_to_vec(src.as_slice())
}

/// The 16-bit integer held big-endian at `i`.
pub open spec fn spec_get_u16_be(s: Seq<u8>, i: int) -> u16 {
    (s[i] * 256 + s[i + 1]) as u16
}

/// Read a 16-bit integer, most significant byte first.
pub fn get_u16_be(buf: &[u8], i: usize) -> (r: u16)
    requires
        i + 2 <= buf@.len(),
    ensures
        r == spec_get_u16_be(buf@, i as int),
{
    let hi: u16 = buf[i] as u16;
    let lo: u16 = buf[i + 1] as u16;
    hi * 256 + lo
}

/// The 32-bit integer held big-endian at `i`.
pub open spec fn spec_get_u32_be(s: Seq<u8>, i: int) -> u32 {
    (s[i] * 0x1000000 + s[i + 1] * 0x10000 + s[i + 2] * 0x100 + s[i + 3]) as u32
}

/// Read a 32-bit integer, most significant byte first.
pub fn get_u32_be(buf: &[u8], i: usize) -> (r: u32)
    requires
        i + 4 <= buf@.len(),
    ensures
        r == spec_get_u32_be(buf@, i as int),
{
    let b0: u32 = buf[i] as u32;
    let b1: u32 = buf[i + 1] as u32;
    let b2: u32 = buf[i + 2] as u32;
    let b3: u32 = buf[i + 3] as u32;
    b0 * 0x1000000 + b1 * 0x10000 + b2 * 0x100 + b3
}

/// Round trip of the 16-bit big-endian codec.
pub proof fn lemma_u16_be_round_trip(v: u16)
    ensures
        spec_get_u16_be(spec_u16_be(v), 0) == v,
{
}

/// Round trip of the 32-bit big-endian codec.
pub proof fn lemma_u32_be_round_trip(v: u32)
    ensures
        spec_get_u32_be(spec_u32_be(v), 0) == v,
{
}

/// Bytes of the Tight compact length codec: 7 bits per byte, low-order
/// first, continuation flag in the top bit.
pub open spec fn spec_compact_len_bytes(l: int) -> Seq<u8>
    recommends
        0 <= l < COMPACT_LEN_LIMIT,
{
    if l < 128 {
        seq![l as u8]
    } else if l < 16384 {
        seq![(l % 128 + 128) as u8, (l / 128) as u8]
    } else {
        seq![(l % 128 + 128) as u8, ((l / 128) % 128 + 128) as u8, (l / 16384) as u8]
    }
}

/// Append the compact encoding of `len`.
pub fn push_compact_len(buf: &mut Vec<u8>, len: u32)
    requires
        len < COMPACT_LEN_LIMIT,
    ensures
        final(buf)@ == old(buf)@ + spec_compact_len_bytes(len as int),
{
    if len < 128 {
        buf.push(len as u8);
    } else if len < 16384 {
        buf.push((len % 128 + 128) as u8);
        buf.push((len / 128) as u8);
    } else {
        buf.push((len % 128 + 128) as u8);
        buf.push(((len / 128) % 128 + 128) as u8);
        buf.push((len / 16384) as u8);
    }
    assert(buf@ =~= old(buf)@ + spec_compact_len_bytes(len as int));
}

/// What the compact length codec reads from the head of `s`: the value
/// and the number of bytes consumed, or nothing if `s` ends first.
pub open spec fn spec_decode_compact_len(s: Seq<u8>) -> Option<(int, int)> {
    if s.len() >= 1 && s[0] < 128 {
        Some((s[0] as int, 1int))
    } else if s.len() >= 2 && s[1] < 128 {
        Some((s[0] - 128 + 128 * s[1], 2int))
    } else if s.len() >= 3 {
        Some((s[0] - 128 + 128 * (s[1] - 128) + 16384 * s[2], 3int))
    } else {
        None
    }
}

/// Read a compact length from `buf` at `pos`; returns the value and the
/// number of bytes consumed, or `None` if the buffer ends first.
pub fn decode_compact_len(buf: &[u8], pos: usize) -> (r: Option<(u32, usize)>)
    requires
        pos <= buf@.len(),
    ensures
        match r {
            Some((l, n)) => {
                &&& spec_decode_compact_len(buf@.skip(pos as int)) == Some((l as int, n as int))
                &&& l < COMPACT_LEN_LIMIT
                &&& pos + n <= buf@.len()
            },
            None => spec_decode_compact_len(buf@.skip(pos as int)) is None,
        },
{
    let rem: usize = buf.len() - pos;
    if pos < buf.len() && buf[pos] < 128 {
        Some((buf[pos] as u32, 1))
    } else if rem >= 2 && buf[pos + 1] < 128 {
        let b0: u32 = buf[pos] as u32;
        let b1: u32 = buf[pos + 1] as u32;
        Some((b0 - 128 + 128 * b1, 2))
    } else if rem >= 3 && buf[pos] >= 128 && buf[pos + 1] >= 128 {
        let b0: u32 = buf[pos] as u32;
        let b1: u32 = buf[pos + 1] as u32;
        let b2: u32 = buf[pos + 2] as u32;
        Some((b0 - 128 + 128 * (b1 - 128) + 16384 * b2, 3))
    } else {
        None
    }
}

/// Number of binary digits of `l`.
pub open spec fn spec_bit_length(l: nat) -> nat
    decreases l,
{
    if l == 0 {
        0
    } else {
        1 + spec_bit_length(l / 2)
    }
}

/// Two to the `n`.
pub open spec fn spec_two_to(n: nat) -> nat
    decreases n,
{
    if n == 0 {
        1
    } else {
        2 * spec_two_to((n - 1) as nat)
    }
}

proof fn lemma_bit_length_bound(l: nat, n: nat)
    ensures
        spec_bit_length(l) <= n <==> l < spec_two_to(n),
    decreases n,
{
    if n == 0 {
    } else {
        lemma_bit_length_bound(l / 2, (n - 1) as nat);
    }
}

/// The compact length codec inverts: decoding what was encoded gives the
/// length back, whatever bytes follow, and the encoding is as short as
/// the value's binary length demands: one byte for a zero length, else
/// one byte per seven binary digits, rounded up.  (At 22 binary digits
/// the wire format still fits three bytes, since the last byte carries
/// eight digits; the digit-count formula is stated below that point.)
pub proof fn lemma_compact_len_round_trip(l: int, rest: Seq<u8>)
    requires
        0 <= l < COMPACT_LEN_LIMIT,
    ensures
        spec_decode_compact_len(spec_compact_len_bytes(l) + rest) == Some((
            l,
            spec_compact_len_bytes(l).len() as int,
        )),
        l == 0 ==> spec_compact_len_bytes(l).len() == 1,
        0 < l < 0x200000 ==> spec_compact_len_bytes(l).len() == (spec_bit_length(l as nat) + 6)
            / 7,
{
    let e = spec_compact_len_bytes(l) + rest;
    if l < 128 {
        assert(e[0] == l as u8);
    } else if l < 16384 {
        assert(e[0] == (l % 128 + 128) as u8);
        assert(e[1] == (l / 128) as u8);
        assert(e[0] - 128 + 128 * e[1] == l);
    } else {
        assert(e[0] == (l % 128 + 128) as u8);
        assert(e[1] == ((l / 128) % 128 + 128) as u8);
        assert(e[2] == (l / 16384) as u8);
        assert(l % 128 + 128 * ((l / 128) % 128) + 16384 * (l / 16384) == l) by {
            vstd::arithmetic::div_mod::lemma_mod_breakdown(l, 128, 128);
            vstd::arithmetic::div_mod::lemma_fundamental_div_mod(l, 16384);
        };
        assert(e[0] - 128 + 128 * (e[1] - 128) + 16384 * e[2] == l);
    }
    if 0 < l < 0x200000 {
        lemma_bit_length_bound(l as nat, 7);
        lemma_bit_length_bound(l as nat, 14);
        lemma_bit_length_bound(l as nat, 21);
        lemma_bit_length_bound(l as nat, 0);
        reveal_with_fuel(spec_two_to, 23);
        assert(spec_two_to(7) == 128);
        assert(spec_two_to(14) == 16384);
        assert(spec_two_to(21) == 0x200000);
    }
}

/// The 16 bytes of the fixed server pixel format: 32 bits per pixel,
/// depth 24, little-endian, true colour, 8 bits per channel, red shift
/// 16, green shift 8, blue shift 0.
pub open spec fn spec_pixel_format_bytes() -> Seq<u8> {
    seq![32u8, 24u8, 0u8, 1u8, 0u8, 255u8, 0u8, 255u8, 0u8, 255u8, 16u8, 8u8, 0u8, 0u8, 0u8, 0u8]
}

/// Append the server's fixed pixel format.
pub fn push_pixel_format(buf: &mut Vec<u8>)
    ensures
        final(buf)@ == old(buf)@ + spec_pixel_format_bytes(),
{
    buf.push(32);
    buf.push(24);
    buf.push(0);
    buf.push(1);
    buf.push(0);
    buf.push(255);
    buf.push(0);
    buf.push(255);
    buf.push(0);
    buf.push(255);
    buf.push(16);
    buf.push(8);
    buf.push(0);
    buf.push(0);
    buf.push(0);
    buf.push(0);
    assert(buf@ =~= old(buf)@ + spec_pixel_format_bytes());
}

/// The 12-byte header of one rectangle in a FramebufferUpdate.
pub open spec fn spec_rect_header(r: Rect, encoding: i32) -> Seq<u8> {
    spec_u16_be(r.x) + spec_u16_be(r.y) + spec_u16_be(r.w) + spec_u16_be(r.h) + spec_u32_be(
        encoding as u32,
    )
}

/// Append a rectangle header: position, size and encoding number.
pub fn push_rect_header(buf: &mut Vec<u8>, r: &Rect, encoding: i32)
    ensures
        final(buf)@ == old(buf)@ + spec_rect_header(*r, encoding),
{
    push_u16_be(buf, r.x);
    push_u16_be(buf, r.y);
    push_u16_be(buf, r.w);
    push_u16_be(buf, r.h);
    push_i32_be(buf, encoding);
    assert(buf@ =~= old(buf)@ + spec_rect_header(*r, encoding));
}

/// The ServerInit message: width, height, pixel format and desktop name.
pub open spec fn spec_server_init(width: u16, height: u16, name: Seq<u8>) -> Seq<u8> {
    spec_u16_be(width) + spec_u16_be(height) + spec_pixel_format_bytes() + spec_u32_be(
        name.len() as u32,
    ) + name
}

/// Build the ServerInit message for the fixed pixel format.
pub fn server_init_bytes(width: u16, height: u16, name: &Vec<u8>) -> (r: Vec<u8>)
    requires
        name@.len() < 0x100000000,
    ensures
        r@ == spec_server_init(width, height, name@),
{
    let mut buf: Vec<u8> = Vec::new();
    push_u16_be(&mut buf, width);
    push_u16_be(&mut buf, height);
    push_pixel_format(&mut buf);
    push_u32_be(&mut buf, name.len() as u32);
    push_bytes(&mut buf, name.as_slice());
    assert(buf@ =~= spec_server_init(width, height, name@));
    buf
}

} // verus!
