//! Pixel helpers shared by the encoders: packing 32-bpp BGRX bytes into
//! colour values, solid-colour testing, and the first-seen palette.

use vstd::prelude::*;

verus! {

/// A palette longer than this many entries means "too many colours":
/// the Tight indexed sub-encoding takes at most 16.
pub const PALETTE_SCAN_CAP: usize = 17;

/// Colour value of pixel `i`: blue, green and red bytes packed
/// little-endian; the fourth (pad) byte is ignored.
pub open spec fn spec_pixel_at(data: Seq<u8>, i: int) -> u32 {
    (data[4 * i] + data[4 * i + 1] * 0x100 + data[4 * i + 2] * 0x10000) as u32
}

/// The colour values of a whole BGRX byte image.
pub open spec fn spec_pixels(data: Seq<u8>) -> Seq<u32> {
    Seq::new((data.len() / 4) as nat, |i: int| spec_pixel_at(data, i))
}

/// The four little-endian bytes of a colour in the fixed 32-bpp format.
pub open spec fn spec_pixel_bytes(c: u32) -> Seq<u8> {
    seq![
        (c % 0x100) as u8,
        ((c / 0x100) % 0x100) as u8,
        ((c / 0x10000) % 0x100) as u8,
        ((c / 0x1000000) % 0x100) as u8,
    ]
}

/// Writing a packed colour and reading it back is the identity for the
/// 24-bit colours the packing produces.
pub proof fn lemma_pixel_bytes_round_trip(c: u32)
    requires
        c < 0x1000000,
    ensures
        spec_pixel_at(spec_pixel_bytes(c), 0) == c,
{
}

/// Pack the colours of a BGRX byte image, dropping the pad byte.
pub fn rgba_to_rgb24_pixels(data: &[u8]) -> (r: Vec<u32>)
    ensures
        r@ == spec_pixels(data@),
        forall|i: int| 0 <= i < r@.len() ==> r@[i] < 0x1000000,
{
    let n: usize = data.len() / 4;
    let mut out: Vec<u32> = Vec::new();
    let mut i: usize = 0;
    while i < n
        invariant
            n == data@.len() / 4,
            data@.len() <= usize::MAX,
            i <= n,
            out@.len() == i,
            forall|j: int| 0 <= j < i ==> out@[j] == spec_pixel_at(data@, j),
            forall|j: int| 0 <= j < i ==> out@[j] < 0x1000000,
        decreases n - i,
    {
        proof {
            assert(4 * i + 3 < data@.len());
        }
        let b: u32 = data[4 * i] as u32;
        let g: u32 = data[4 * i + 1] as u32;
        let rr: u32 = data[4 * i + 2] as u32;
        out.push(b + g * 0x100 + rr * 0x10000);
        i += 1;
    }
    out
}

/// Append the four little-endian bytes of a colour.
pub fn put_pixel32(buf: &mut Vec<u8>, c: u32)
    ensures
        final(buf)@ == old(buf)@ + spec_pixel_bytes(c),
{
    buf.push((c % 0x100) as u8);
    buf.push(((c / 0x100) % 0x100) as u8);
    buf.push(((c / 0x10000) % 0x100) as u8);
    buf.push(((c / 0x1000000) % 0x100) as u8);
    assert(buf@ =~= old(buf)@ + spec_pixel_bytes(c));
}

/// All pixels hold one colour (and there is at least one pixel).
pub open spec fn spec_is_solid(px: Seq<u32>) -> bool {
    px.len() > 0 && forall|i: int| 0 <= i < px.len() ==> #[trigger] px[i] == px[0]
}

/// The solid colour of the image, if it has one.
pub fn check_solid_color(px: &Vec<u32>) -> (r: Option<u32>)
    ensures
        r matches Some(c) ==> spec_is_solid(px@) && c == px@[0],
        r is None ==> !spec_is_solid(px@),
{
    if px.len() == 0 {
        return None;
    }
    let first: u32 = px[0];
    let mut i: usize = 1;
    while i < px.len()
        invariant
            px@.len() > 0,
            first == px@[0],
            1 <= i <= px@.len(),
            forall|j: int| 0 <= j < i ==> #[trigger] px@[j] == px@[0],
        decreases px@.len() - i,
    {
        if px[i] != first {
            return None;
        }
        i += 1;
    }
    Some(first)
}

/// The first-seen palette of an image, capped at `cap` entries: each
/// colour enters at its first occurrence; once `cap` entries exist no
/// more are taken.
pub open spec fn spec_palette(px: Seq<u32>, cap: int) -> Seq<u32>
    decreases px.len(),
{
    if px.len() == 0 {
        Seq::empty()
    } else {
        let p = spec_palette(px.drop_last(), cap);
        if p.contains(px.last()) || p.len() >= cap {
            p
        } else {
            p.push(px.last())
        }
    }
}

/// Collect the first-seen palette, stopping once it is clear that the
/// image has too many colours for the indexed sub-encoding.
pub fn build_palette(px: &Vec<u32>) -> (r: Vec<u32>)
    ensures
        r@ == spec_palette(px@, PALETTE_SCAN_CAP as int),
{
    let mut pal: Vec<u32> = Vec::new();
    let mut i: usize = 0;
    while i < px.len()
        invariant
            i <= px@.len(),
            pal@ == spec_palette(px@.take(i as int), PALETTE_SCAN_CAP as int),
            pal@.len() <= PALETTE_SCAN_CAP,
        decreases px@.len() - i,
    {
        let c: u32 = px[i];
        let present: bool = contains_color(&pal, c);
        if !present && pal.len() < PALETTE_SCAN_CAP {
            pal.push(c);
        }
        proof {
            assert(px@.take(i + 1 as int).drop_last() =~= px@.take(i as int));
            assert(px@.take(i + 1 as int).last() == px@[i as int]);
        }
        i += 1;
    }
    proof {
        assert(px@.take(px@.len() as int) =~= px@);
    }
    pal
}

/// Linear scan for a colour.
fn contains_color(v: &Vec<u32>, c: u32) -> (r: bool)
    ensures
        r == v@.contains(c),
{
    let mut i: usize = 0;
    while i < v.len()
        invariant
            i <= v@.len(),
            forall|j: int| 0 <= j < i ==> v@[j] != c,
        decreases v@.len() - i,
    {
        if v[i] == c {
            assert(v@.contains(c));
            return true;
        }
        i += 1;
    }
    assert(!v@.contains(c));
    false
}

/// Index of the first occurrence of `c`; the length when absent.
pub open spec fn spec_find(pal: Seq<u32>, c: u32) -> int
    decreases pal.len(),
{
    if pal.len() == 0 {
        0
    } else if pal[0] == c {
        0
    } else {
        1 + spec_find(pal.skip(1), c)
    }
}

/// A contained colour is found at a valid index that holds it.
pub proof fn lemma_find_contained(pal: Seq<u32>, c: u32)
    requires
        pal.contains(c),
    ensures
        0 <= spec_find(pal, c) < pal.len(),
        pal[spec_find(pal, c)] == c,
    decreases pal.len(),
{
    if pal[0] == c {
    } else {
        assert(pal.skip(1).contains(c)) by {
            let i = choose|i: int| 0 <= i < pal.len() && pal[i] == c;
            assert(pal.skip(1)[i - 1] == c);
        }
        lemma_find_contained(pal.skip(1), c);
    }
}

/// The palette index of each pixel, first occurrence first; a colour
/// missing from the palette (which a complete palette never has) maps
/// to index zero.
pub fn palette_indices(px: &Vec<u32>, pal: &Vec<u32>) -> (r: Vec<u8>)
    requires
        pal@.len() <= 16,
    ensures
        r@ == spec_indices(px@, pal@),
{
    let mut out: Vec<u8> = Vec::new();
    let mut i: usize = 0;
    while i < px.len()
        invariant
            pal@.len() <= 16,
            i <= px@.len(),
            out@.len() == i,
            forall|j: int|
                0 <= j < i ==> out@[j] == (if pal@.contains(px@[j]) {
                    spec_find(pal@, px@[j])
                } else {
                    0
                }),
        decreases px@.len() - i,
    {
        let c: u32 = px[i];
        let idx: u8 = find_color_index(pal, c);
        out.push(idx);
        i += 1;
    }
    proof {
        assert(out@ =~= spec_indices(px@, pal@));
    }
    out
}

/// Linear search returning the first index of `c`, or zero if absent.
fn find_color_index(pal: &Vec<u32>, c: u32) -> (r: u8)
    requires
        pal@.len() <= 16,
    ensures
        r == (if pal@.contains(c) {
            spec_find(pal@, c)
        } else {
            0
        }),
{
    let mut i: usize = 0;
    while i < pal.len()
        invariant
            pal@.len() <= 16,
            i <= pal@.len(),
            forall|j: int| 0 <= j < i ==> pal@[j] != c,
        decreases pal@.len() - i,
    {
        if pal[i] == c {
            proof {
                assert(pal@.contains(c));
                lemma_find_prefix_miss(pal@, c, i as int);
            }
            return i as u8;
        }
        i += 1;
    }
    proof {
        assert(!pal@.contains(c));
    }
    0
}

/// When the first `n` entries miss `c` and entry `n` holds it, the
/// first occurrence is at `n`.
proof fn lemma_find_prefix_miss(pal: Seq<u32>, c: u32, n: int)
    requires
        0 <= n < pal.len(),
        pal[n] == c,
        forall|j: int| 0 <= j < n ==> pal[j] != c,
    ensures
        spec_find(pal, c) == n,
    decreases n,
{
    if n == 0 {
    } else {
        assert(pal.skip(1)[n - 1] == c);
        lemma_find_prefix_miss(pal.skip(1), c, n - 1);
    }
}

/// The index byte the encoder writes for colour `c`.
pub open spec fn spec_index_byte(pal: Seq<u32>, c: u32) -> u8 {
    if pal.contains(c) {
        spec_find(pal, c) as u8
    } else {
        0
    }
}

/// The per-pixel palette index stream.
pub open spec fn spec_indices(px: Seq<u32>, pal: Seq<u32>) -> Seq<u8> {
    Seq::new(px.len(), |i: int| spec_index_byte(pal, px[i]))
}

/// The packed 4-byte serialization of a pixel run.
pub open spec fn spec_pixels_bytes(px: Seq<u32>) -> Seq<u8>
    decreases px.len(),
{
    if px.len() == 0 {
        Seq::empty()
    } else {
        spec_pixels_bytes(px.drop_last()) + spec_pixel_bytes(px.last())
    }
}

/// The 3-byte RGB serialization of a pixel run, blue byte first in the
/// packed value, red byte first on the wire to the JPEG encoder.
pub open spec fn spec_rgb_bytes(px: Seq<u32>) -> Seq<u8>
    decreases px.len(),
{
    if px.len() == 0 {
        Seq::empty()
    } else {
        spec_rgb_bytes(px.drop_last()) + seq![
            (px.last() % 0x100) as u8,
            ((px.last() / 0x100) % 0x100) as u8,
            ((px.last() / 0x10000) % 0x100) as u8,
        ]
    }
}

/// Serializing pixels gives four bytes each.
pub proof fn lemma_pixels_bytes_len(px: Seq<u32>)
    ensures
        spec_pixels_bytes(px).len() == 4 * px.len(),
    decreases px.len(),
{
    if px.len() > 0 {
        lemma_pixels_bytes_len(px.drop_last());
    }
}

/// Serializing and re-packing a run of 24-bit colours is the identity.
pub proof fn lemma_pixels_bytes_round_trip(px: Seq<u32>)
    requires
        forall|i: int| 0 <= i < px.len() ==> px[i] < 0x1000000,
    ensures
        spec_pixels(spec_pixels_bytes(px)) == px,
    decreases px.len(),
{
    lemma_pixels_bytes_len(px);
    if px.len() == 0 {
        assert(spec_pixels(spec_pixels_bytes(px)) =~= px);
    } else {
        let pre = px.drop_last();
        lemma_pixels_bytes_round_trip(pre);
        lemma_pixels_bytes_len(pre);
        let s = spec_pixels_bytes(px);
        assert forall|i: int| 0 <= i < px.len() implies spec_pixel_at(s, i) == px[i] by {
            if i < px.len() - 1 {
                assert(spec_pixel_at(spec_pixels_bytes(pre), i) == pre[i]);
                assert(s[4 * i] == spec_pixels_bytes(pre)[4 * i]);
                assert(s[4 * i + 1] == spec_pixels_bytes(pre)[4 * i + 1]);
                assert(s[4 * i + 2] == spec_pixels_bytes(pre)[4 * i + 2]);
            } else {
                assert(s[4 * i] == spec_pixel_bytes(px.last())[0]);
                assert(s[4 * i + 1] == spec_pixel_bytes(px.last())[1]);
                assert(s[4 * i + 2] == spec_pixel_bytes(px.last())[2]);
                lemma_pixel_bytes_round_trip(px.last());
            }
        }
        assert(spec_pixels(s) =~= px);
    }
}

/// Append the packed serialization of a pixel run.
pub fn push_pixels_bytes(buf: &mut Vec<u8>, px: &Vec<u32>)
    ensures
        final(buf)@ == old(buf)@ + spec_pixels_bytes(px@),
{
    let mut i: usize = 0;
    while i < px.len()
        invariant
            i <= px@.len(),
            buf@ == old(buf)@ + spec_pixels_bytes(px@.take(i as int)),
        decreases px@.len() - i,
    {
        put_pixel32(buf, px[i]);
        proof {
            assert(px@.take(i + 1 as int).drop_last() =~= px@.take(i as int));
            assert(px@.take(i + 1 as int).last() == px@[i as int]);
            assert(buf@ =~= old(buf)@ + spec_pixels_bytes(px@.take(i + 1 as int)));
        }
        i += 1;
    }
    proof {
        assert(px@.take(px@.len() as int) =~= px@);
    }
}

/// The RGB serialization of a pixel run, for the JPEG encoder.
pub fn rgb_bytes_of(px: &Vec<u32>) -> (r: Vec<u8>)
    ensures
        r@ == spec_rgb_bytes(px@),
        r@.len() == 3 * px@.len(),
{
    let mut out: Vec<u8> = Vec::new();
    let mut i: usize = 0;
    while i < px.len()
        invariant
            i <= px@.len(),
            out@ == spec_rgb_bytes(px@.take(i as int)),
            out@.len() == 3 * i,
        decreases px@.len() - i,
    {
        let c: u32 = px[i];
        out.push((c % 0x100) as u8);
        out.push(((c / 0x100) % 0x100) as u8);
        out.push(((c / 0x10000) % 0x100) as u8);
        proof {
            assert(px@.take(i + 1 as int).drop_last() =~= px@.take(i as int));
            assert(px@.take(i + 1 as int).last() == px@[i as int]);
            assert(out@ =~= spec_rgb_bytes(px@.take(i + 1 as int)));
        }
        i += 1;
    }
    proof {
        assert(px@.take(px@.len() as int) =~= px@);
    }
    out
}

/// Palettes of prefixes are prefixes of the palette: scanning more
/// pixels only appends.
pub proof fn lemma_palette_monotone(px: Seq<u32>, cap: int, n: int)
    requires
        0 <= n <= px.len(),
    ensures
        spec_palette(px.take(n), cap).is_prefix_of(spec_palette(px, cap)),
        spec_palette(px.take(n), cap).len() <= spec_palette(px, cap).len(),
    decreases px.len() - n,
{
    if n == px.len() {
        assert(px.take(n) =~= px);
    } else {
        lemma_palette_monotone(px, cap, n + 1);
        assert(px.take(n + 1).drop_last() =~= px.take(n));
        assert(px.take(n + 1).last() == px[n]);
    }
}

/// Every palette entry is a colour of the image.
pub proof fn lemma_palette_entries(px: Seq<u32>, cap: int, j: int)
    requires
        0 <= j < spec_palette(px, cap).len(),
    ensures
        px.contains(spec_palette(px, cap)[j]),
    decreases px.len(),
{
    if px.len() > 0 {
        let p = spec_palette(px.drop_last(), cap);
        if p.contains(px.last()) || p.len() >= cap {
            lemma_palette_entries(px.drop_last(), cap, j);
            let i = choose|i: int|
                0 <= i < px.drop_last().len() && px.drop_last()[i] == spec_palette(px, cap)[j];
            assert(px[i] == spec_palette(px, cap)[j]);
        } else {
            if j < p.len() {
                lemma_palette_entries(px.drop_last(), cap, j);
                let i = choose|i: int|
                    0 <= i < px.drop_last().len() && px.drop_last()[i] == spec_palette(px, cap)[j];
                assert(px[i] == spec_palette(px, cap)[j]);
            } else {
                assert(px[px.len() - 1] == spec_palette(px, cap)[j]);
            }
        }
    }
}

/// With at most 16 colours in the image, every pixel's colour stands in
/// the capped first-seen palette.
pub proof fn lemma_palette_complete(px: Seq<u32>, i: int)
    requires
        0 <= i < px.len(),
        spec_palette(px, PALETTE_SCAN_CAP as int).len() <= 16,
    ensures
        spec_palette(px, PALETTE_SCAN_CAP as int).contains(px[i]),
{
    let cap = PALETTE_SCAN_CAP as int;
    lemma_palette_monotone(px, cap, i + 1);
    lemma_palette_monotone(px, cap, i);
    let pprev = spec_palette(px.take(i), cap);
    let pcur = spec_palette(px.take(i + 1), cap);
    assert(px.take(i + 1).drop_last() =~= px.take(i));
    assert(px.take(i + 1).last() == px[i]);
    if pprev.contains(px[i]) {
        let j = choose|j: int| 0 <= j < pprev.len() && pprev[j] == px[i];
        assert(spec_palette(px, cap)[j] == px[i]);
    } else {
        assert(pprev.len() <= 16) by {
            assert(pprev.is_prefix_of(spec_palette(px, cap)));
        }
        assert(pcur == pprev.push(px[i]));
        assert(pcur[pcur.len() - 1] == px[i]);
        assert(spec_palette(px, cap)[pcur.len() - 1] == px[i]);
    }
}

} // verus!
