//! The Tight encoding: content-adaptive sub-encodings (solid fill,
//! indexed palette with zlib, JPEG), plus a decoder for the lossless
//! sub-encodings.

use vstd::prelude::*;
use crate::wire::{spec_compact_len_bytes, push_compact_len, COMPACT_LEN_LIMIT};
use crate::pixel::{
    spec_pixels, spec_pixel_bytes, spec_pixel_at, spec_palette, spec_is_solid, spec_indices,
    spec_pixels_bytes, spec_rgb_bytes, rgba_to_rgb24_pixels, check_solid_color, build_palette,
    palette_indices, put_pixel32, push_pixels_bytes, rgb_bytes_of, PALETTE_SCAN_CAP,
};
use crate::zlib::{zlib_deflate_of, zlib_compress, zlib_decompress, spec_zlib_level, zlib_level_for};
use crate::jpeg::{jpeg_bytes_of, jpeg_compress_rgb};

verus! {

/// Implements the RFB Tight encoding, choosing among the solid,
/// indexed-palette and JPEG sub-encodings by image content.
pub struct TightEncoding;

/// The payload of a solid rectangle: fill control byte, one colour.
pub open spec fn spec_tight_solid_bytes(c: u32) -> Seq<u8> {
    seq![0x80u8] + spec_pixel_bytes(c)
}

/// The payload of an indexed-palette rectangle holding compressed
/// index stream `z`: control byte, palette, compact length, stream.
pub open spec fn spec_tight_palette_framed(pal: Seq<u32>, z: Seq<u8>) -> Seq<u8> {
    seq![(0x80 + (pal.len() - 1)) as u8] + spec_pixels_bytes_u32(pal) + spec_compact_len_bytes(
        z.len() as int,
    ) + z
}

/// The packed serialization of the palette colours.
pub open spec fn spec_pixels_bytes_u32(pal: Seq<u32>) -> Seq<u8> {
    spec_pixels_bytes(pal)
}

/// The payload of a JPEG rectangle holding stream `j`.
pub open spec fn spec_tight_jpeg_framed(j: Seq<u8>) -> Seq<u8> {
    seq![0x90u8] + spec_compact_len_bytes(j.len() as int) + j
}

/// The uncompressed fallback payload: basic control byte, pixels in
/// the client format.
pub open spec fn spec_tight_basic_bytes(px: Seq<u32>) -> Seq<u8> {
    seq![0x00u8] + spec_pixels_bytes(px)
}

/// The palette sub-encoding applies: two to sixteen distinct colours,
/// and at least four pixels per distinct colour.
pub open spec fn spec_palette_eligible(px: Seq<u32>, pal: Seq<u32>) -> bool {
    2 <= pal.len() <= 16 && pal.len() < px.len() / 4
}

/// What the JPEG path emits: the framed JPEG stream where the encoder
/// produced one that the length codec can carry, else the basic
/// uncompressed fallback.
pub open spec fn spec_jpeg_outcome(px: Seq<u32>, w: int, h: int, q: int, r: Seq<u8>) -> bool {
    ||| (r == spec_tight_jpeg_framed(jpeg_bytes_of(spec_rgb_bytes(px), w, h, q)) && jpeg_bytes_of(
        spec_rgb_bytes(px),
        w,
        h,
        q,
    ).len() < COMPACT_LEN_LIMIT)
    ||| r == spec_tight_basic_bytes(px)
}

/// What the palette path emits: the framed palette rectangle where
/// compression succeeded and fits the length codec, else the JPEG path
/// at quality 75.
pub open spec fn spec_palette_outcome(
    px: Seq<u32>,
    pal: Seq<u32>,
    compression: u8,
    w: int,
    h: int,
    r: Seq<u8>,
) -> bool {
    let z = zlib_deflate_of(spec_indices(px, pal), spec_zlib_level(compression) as int);
    ||| (r == spec_tight_palette_framed(pal, z) && z.len() < COMPACT_LEN_LIMIT)
    ||| spec_jpeg_outcome(px, w, h, 75, r)
}

/// Quality clamped to the JPEG encoder's accepted range.
pub open spec fn spec_clamp_quality(q: u8) -> u8 {
    if q == 0 {
        1
    } else if q > 100 {
        100
    } else {
        q
    }
}

/// Everything the Tight encoder promises of its output `r` for a
/// rectangle `data` of `w` by `h` BGRX pixels.
pub open spec fn spec_tight_outcome(
    data: Seq<u8>,
    w: int,
    h: int,
    quality: u8,
    compression: u8,
    r: Seq<u8>,
) -> bool {
    let px = spec_pixels(data);
    let pal = spec_palette(px, PALETTE_SCAN_CAP as int);
    &&& spec_is_solid(px) ==> r == spec_tight_solid_bytes(px[0])
    &&& (!spec_is_solid(px) && spec_palette_eligible(px, pal)) ==> spec_palette_outcome(
        px,
        pal,
        compression,
        w,
        h,
        r,
    )
    &&& (!spec_is_solid(px) && !spec_palette_eligible(px, pal)) ==> spec_jpeg_outcome(
        px,
        w,
        h,
        spec_clamp_quality(quality) as int,
        r,
    )
}

impl TightEncoding {
    /// Encode one rectangle of 32-bpp BGRX pixels.  The sub-encoding is
    /// chosen by content, deterministically: solid fill where all
    /// pixels are equal, else the indexed palette where it applies,
    /// else JPEG.
    pub fn encode(&self, data: &[u8], width: u16, height: u16, quality: u8, compression: u8) -> (r:
        Vec<u8>)
        requires
            1 <= width,
            1 <= height,
            data@.len() == width * height * 4,
        ensures
            spec_tight_outcome(data@, width as int, height as int, quality, compression, r@),
    {
        let pixels = rgba_to_rgb24_pixels(data);
        if let Some(solid_color) = check_solid_color(&pixels) {
            return encode_tight_solid(solid_color);
        }
        let palette = build_palette(&pixels);
        if palette.len() >= 2 && palette.len() <= 16 && palette.len() < pixels.len() / 4 {
            return encode_tight_palette(&pixels, width, height, &palette, compression);
        }
        encode_tight_jpeg(data, width, height, quality)
    }
}

/// The conditions under which an indexed-palette payload decodes back
/// to its pixels: the palette is the image's first-seen palette of at
/// most 16 colours and the image fills the rectangle.
pub open spec fn spec_palette_decodable(px: Seq<u32>, pal: Seq<u32>, w: int, h: int) -> bool {
    &&& px.len() == w * h
    &&& pal == spec_palette(px, PALETTE_SCAN_CAP as int)
    &&& 2 <= pal.len() <= 16
    &&& forall|i: int| 0 <= i < px.len() ==> px[i] < 0x1000000
}

/// Decode the lossless Tight sub-encodings (solid fill and indexed
/// palette) back to pixels.  Decoding what the encoder framed yields
/// the original pixels exactly; a payload of neither form, or one cut
/// short, yields `None`.  Index bytes beyond the palette (which the
/// encoder never writes) map to colour zero.
pub fn decode_tight(payload: &[u8], width: u16, height: u16) -> (r: Option<Vec<u32>>)
    requires
        1 <= width,
        1 <= height,
    ensures
        forall|c: u32|
            c < 0x1000000 && payload@ == #[trigger] spec_tight_solid_bytes(c) ==> (r matches Some(
                v,
            ) && v@ == Seq::new((width * height) as nat, |i: int| c)),
        forall|px: Seq<u32>, pal: Seq<u32>, lvl: int|
            #![trigger zlib_deflate_of(spec_indices(px, pal), lvl)]
            (spec_palette_decodable(px, pal, width as int, height as int) && zlib_deflate_of(
                spec_indices(px, pal),
                lvl,
            ).len() < COMPACT_LEN_LIMIT && payload@ == spec_tight_palette_framed(
                pal,
                zlib_deflate_of(spec_indices(px, pal), lvl),
            )) ==> (r matches Some(v) && v@ == px),
{
    proof {
        assert(width * height < 0x100000000) by (nonlinear_arith)
            requires
                width <= 0xFFFF,
                height <= 0xFFFF,
        ;
    }
    let count: usize = (width as usize) * (height as usize);
    if payload.len() == 0 {
        proof {
            lemma_solid_shape();
            lemma_palette_shape();
        }
        return None;
    }
    let ctrl: u8 = payload[0];
    if ctrl == 0x80 {
        // Solid fill: exactly one packed colour follows.
        proof {
            lemma_palette_shape();
        }
        if payload.len() != 5 {
            proof {
                lemma_solid_shape();
            }
            return None;
        }
        let c: u32 = payload[1] as u32 + payload[2] as u32 * 0x100 + payload[3] as u32 * 0x10000;
        let mut out: Vec<u32> = Vec::new();
        let mut i: usize = 0;
        while i < count
            invariant
                i <= count,
                out@.len() == i,
                forall|j: int| 0 <= j < i ==> out@[j] == c,
            decreases count - i,
        {
            out.push(c);
            i += 1;
        }
        proof {
            assert forall|c0: u32|
                c0 < 0x1000000 && payload@ == #[trigger] spec_tight_solid_bytes(c0) implies out@
                == Seq::new((width * height) as nat, |j: int| c0) by {
                assert(payload@[1] == spec_pixel_bytes(c0)[0]);
                assert(payload@[2] == spec_pixel_bytes(c0)[1]);
                assert(payload@[3] == spec_pixel_bytes(c0)[2]);
                assert(c == c0);
                assert(out@ =~= Seq::new((width * height) as nat, |j: int| c0));
            }
        }
        return Some(out);
    }
    if ctrl < 0x81 || ctrl > 0x8F {
        proof {
            lemma_solid_shape();
            lemma_palette_shape();
        }
        return None;
    }
    // Indexed palette: control byte holds the palette size minus one.
    let npal: usize = (ctrl - 0x80) as usize + 1;
    proof {
        lemma_solid_shape();
    }
    if payload.len() < 1 + 4 * npal {
        proof {
            lemma_palette_shape();
            assert forall|px: Seq<u32>, pal: Seq<u32>, lvl: int|
                #![trigger zlib_deflate_of(spec_indices(px, pal), lvl)]
                (spec_palette_decodable(px, pal, width as int, height as int) && payload@
                    == spec_tight_palette_framed(
                    pal,
                    zlib_deflate_of(spec_indices(px, pal), lvl),
                )) implies false by {
                crate::pixel::lemma_pixels_bytes_len(pal);
            }
        }
        return None;
    }
    let ghost palseg = payload@.subrange(1, 1 + 4 * npal as int);
    let mut parsed: Vec<u32> = Vec::new();
    let mut j: usize = 0;
    while j < npal
        invariant
            npal <= 16,
            payload@.len() >= 1 + 4 * npal,
            palseg == payload@.subrange(1, 1 + 4 * npal as int),
            j <= npal,
            parsed@.len() == j,
            forall|t: int| 0 <= t < j ==> parsed@[t] == spec_pixel_at(palseg, t),
        decreases npal - j,
    {
        let base: usize = 1 + 4 * j;
        let cj: u32 = payload[base] as u32 + payload[base + 1] as u32 * 0x100 + payload[base
            + 2] as u32 * 0x10000;
        proof {
            assert(palseg[4 * j] == payload@[1 + 4 * j]);
            assert(palseg[4 * j + 1] == payload@[1 + 4 * j + 1]);
            assert(palseg[4 * j + 2] == payload@[1 + 4 * j + 2]);
        }
        parsed.push(cj);
        j += 1;
    }
    let pos: usize = 1 + 4 * npal;
    let lr = crate::wire::decode_compact_len(payload, pos);
    let (zlen, nb): (u32, usize) = match lr {
        Some(p) => p,
        None => {
        proof {
            assert forall|px: Seq<u32>, pal: Seq<u32>, lvl: int|
                #![trigger zlib_deflate_of(spec_indices(px, pal), lvl)]
                (spec_palette_decodable(px, pal, width as int, height as int) && zlib_deflate_of(
                spec_indices(px, pal),
                lvl,
                ).len() < COMPACT_LEN_LIMIT && payload@ == spec_tight_palette_framed(
                pal,
                zlib_deflate_of(spec_indices(px, pal), lvl),
                )) implies false by {
                lemma_frame_segments(payload@, px, pal, lvl, width as int, height as int);
            }
        }
        return None;
        },
    };
    let zstart: usize = pos + nb;
    if payload.len() - zstart != zlen as usize {
        proof {
            assert forall|px: Seq<u32>, pal: Seq<u32>, lvl: int|
                #![trigger zlib_deflate_of(spec_indices(px, pal), lvl)]
                (spec_palette_decodable(px, pal, width as int, height as int) && zlib_deflate_of(
                spec_indices(px, pal),
                lvl,
                ).len() < COMPACT_LEN_LIMIT && payload@ == spec_tight_palette_framed(
                pal,
                zlib_deflate_of(spec_indices(px, pal), lvl),
                )) implies false by {
                lemma_frame_segments(payload@, px, pal, lvl, width as int, height as int);
            }
        }
        return None;
    }
    let zslice: &[u8] = vstd::slice::slice_subrange(payload, zstart, payload.len());
    let inflated = zlib_decompress(zslice);
    let inds: Vec<u8> = match inflated {
        Some(v) => v,
        None => {
        proof {
            assert forall|px: Seq<u32>, pal: Seq<u32>, lvl: int|
                #![trigger zlib_deflate_of(spec_indices(px, pal), lvl)]
                (spec_palette_decodable(px, pal, width as int, height as int) && zlib_deflate_of(
                spec_indices(px, pal),
                lvl,
                ).len() < COMPACT_LEN_LIMIT && payload@ == spec_tight_palette_framed(
                pal,
                zlib_deflate_of(spec_indices(px, pal), lvl),
                )) implies false by {
                lemma_frame_segments(payload@, px, pal, lvl, width as int, height as int);
                assert(zslice@ == zlib_deflate_of(spec_indices(px, pal), lvl));
            }
        }
        return None;
        },
    };
    if inds.len() != count {
            proof {
                assert forall|px: Seq<u32>, pal: Seq<u32>, lvl: int|
                    #![trigger zlib_deflate_of(spec_indices(px, pal), lvl)]
                    (spec_palette_decodable(px, pal, width as int, height as int) && zlib_deflate_of(
                        spec_indices(px, pal),
                        lvl,
                    ).len() < COMPACT_LEN_LIMIT && payload@ == spec_tight_palette_framed(
                        pal,
                        zlib_deflate_of(spec_indices(px, pal), lvl),
                    )) implies false by {
                    lemma_frame_segments(payload@, px, pal, lvl, width as int, height as int);
                    assert(zslice@ == zlib_deflate_of(spec_indices(px, pal), lvl));
                }
            }
            return None;
    }
    let mut out: Vec<u32> = Vec::new();
    let mut i: usize = 0;
    while i < count
        invariant
            count == inds@.len(),
            npal == parsed@.len(),
            i <= count,
            out@.len() == i,
            forall|t: int|
                0 <= t < i ==> out@[t] == (if inds@[t] < npal {
                    parsed@[inds@[t] as int]
                } else {
                    0
                }),
        decreases count - i,
    {
        let idx: usize = inds[i] as usize;
        let v: u32 = if idx < npal {
            parsed[idx]
        } else {
            0
        };
        out.push(v);
        i += 1;
    }
    proof {
        assert forall|px: Seq<u32>, pal: Seq<u32>, lvl: int|
            #![trigger zlib_deflate_of(spec_indices(px, pal), lvl)]
            (spec_palette_decodable(px, pal, width as int, height as int) && zlib_deflate_of(
                spec_indices(px, pal),
                lvl,
            ).len() < COMPACT_LEN_LIMIT && payload@ == spec_tight_palette_framed(
                pal,
                zlib_deflate_of(spec_indices(px, pal), lvl),
            )) implies out@ == px by {
            lemma_frame_segments(payload@, px, pal, lvl, width as int, height as int);
            let z = zlib_deflate_of(spec_indices(px, pal), lvl);
            assert(npal == pal.len());
            assert(palseg == spec_pixels_bytes(pal));
            assert forall|t: int| 0 <= t < pal.len() implies pal[t] < 0x1000000 by {
                crate::pixel::lemma_palette_entries(px, PALETTE_SCAN_CAP as int, t);
            }
            crate::pixel::lemma_pixels_bytes_round_trip(pal);
            assert(parsed@ =~= pal);
            assert(zslice@ == z);
            assert(inds@ == spec_indices(px, pal));
            assert forall|t: int| 0 <= t < px.len() implies out@[t] == px[t] by {
                crate::pixel::lemma_palette_complete(px, t);
                crate::pixel::lemma_find_contained(pal, px[t]);
                assert(inds@[t] == crate::pixel::spec_find(pal, px[t]));
            }
            assert(out@ =~= px);
        }
    }
    Some(out)
}

/// The solid payload always holds five bytes and starts with the fill
/// control byte.
proof fn lemma_solid_shape()
    ensures
        forall|c: u32| (#[trigger] spec_tight_solid_bytes(c)).len() == 5,
        forall|c: u32| (#[trigger] spec_tight_solid_bytes(c))[0] == 0x80,
{
}

/// The palette payload starts with a control byte between 0x81 and
/// 0x8F, holding the palette size minus one.
proof fn lemma_palette_shape()
    ensures
        forall|pal: Seq<u32>, z: Seq<u8>|
            2 <= pal.len() <= 16 ==> (#[trigger] spec_tight_palette_framed(pal, z))[0] == 0x80 + (
            pal.len() - 1),
        forall|pal: Seq<u32>, z: Seq<u8>|
            (#[trigger] spec_tight_palette_framed(pal, z)).len() == 1 + 4 * pal.len()
                + spec_compact_len_bytes(z.len() as int).len() + z.len(),
{
    assert forall|pal: Seq<u32>, z: Seq<u8>| true implies {
        &&& (2 <= pal.len() <= 16 ==> (#[trigger] spec_tight_palette_framed(pal, z))[0] == 0x80 + (
            pal.len() - 1))
        &&& spec_tight_palette_framed(pal, z).len() == 1 + 4 * pal.len() + spec_compact_len_bytes(
            z.len() as int,
        ).len() + z.len()
    } by {
        crate::pixel::lemma_pixels_bytes_len(pal);
    }
}

/// Under the palette hypothesis the parsed segments of the payload
/// are the palette bytes, the compact length and the compressed
/// stream, in place.
proof fn lemma_frame_segments(payload: Seq<u8>, px: Seq<u32>, pal: Seq<u32>, lvl: int, w: int, h: int)
    requires
        spec_palette_decodable(px, pal, w, h),
        zlib_deflate_of(spec_indices(px, pal), lvl).len() < COMPACT_LEN_LIMIT,
        payload == spec_tight_palette_framed(pal, zlib_deflate_of(spec_indices(px, pal), lvl)),
    ensures
        payload.len() == 1 + 4 * pal.len() + spec_compact_len_bytes(
            zlib_deflate_of(spec_indices(px, pal), lvl).len() as int,
        ).len() + zlib_deflate_of(spec_indices(px, pal), lvl).len(),
        payload.subrange(1, 1 + 4 * (pal.len() as int)) == spec_pixels_bytes(pal),
        spec_decode_compact_len_at(payload, 1 + 4 * (pal.len() as int), px, pal, lvl),
{
    let z = zlib_deflate_of(spec_indices(px, pal), lvl);
    crate::pixel::lemma_pixels_bytes_len(pal);
    assert(payload.subrange(1, 1 + 4 * (pal.len() as int)) =~= spec_pixels_bytes(pal));
    let pos: int = 1 + 4 * (pal.len() as int);
    assert(payload.skip(pos) =~= spec_compact_len_bytes(z.len() as int) + z);
    crate::wire::lemma_compact_len_round_trip(z.len() as int, z);
    let nb = spec_compact_len_bytes(z.len() as int).len() as int;
    assert(payload.subrange(pos + nb, payload.len() as int) =~= z);
}

/// The compact length at `pos` reads the compressed stream's length,
/// and the bytes after it are exactly that stream.
pub open spec fn spec_decode_compact_len_at(
    payload: Seq<u8>,
    pos: int,
    px: Seq<u32>,
    pal: Seq<u32>,
    lvl: int,
) -> bool {
    let z = zlib_deflate_of(spec_indices(px, pal), lvl);
    let nb = spec_compact_len_bytes(z.len() as int).len() as int;
    &&& crate::wire::spec_decode_compact_len(payload.skip(pos)) == Some((z.len() as int, nb))
    &&& payload.subrange(pos + nb, payload.len() as int) == z
}

/// Encode a solid fill: the fill control byte and one packed colour.
pub fn encode_tight_solid(color: u32) -> (r: Vec<u8>)
    ensures
        r@ == spec_tight_solid_bytes(color),
{
    let mut buf: Vec<u8> = Vec::new();
    buf.push(0x80);
    put_pixel32(&mut buf, color);
    assert(buf@ =~= spec_tight_solid_bytes(color));
    buf
}

/// Encode an indexed-palette rectangle: compress the per-pixel palette
/// indices with zlib and frame them behind the palette.  Falls back to
/// JPEG at quality 75 when compression fails or the stream does not
/// fit the length codec.
pub fn encode_tight_palette(
    pixels: &Vec<u32>,
    width: u16,
    height: u16,
    palette: &Vec<u32>,
    compression: u8,
) -> (r: Vec<u8>)
    requires
        2 <= palette@.len() <= 16,
        1 <= width,
        1 <= height,
        pixels@.len() == width * height,
        forall|i: int| 0 <= i < pixels@.len() ==> pixels@[i] < 0x1000000,
    ensures
        spec_palette_outcome(pixels@, palette@, compression, width as int, height as int, r@),
{
    let indices = palette_indices(pixels, palette);
    let level = zlib_level_for(compression);
    let compressed = zlib_compress(indices.as_slice(), level);
    match compressed {
        Some(z) if z.len() < COMPACT_LEN_LIMIT as usize => {
            let mut buf: Vec<u8> = Vec::new();
            buf.push(0x80 + (palette.len() - 1) as u8);
            push_pixels_bytes(&mut buf, palette);
            push_compact_len(&mut buf, z.len() as u32);
            crate::wire::push_bytes(&mut buf, z.as_slice());
            assert(buf@ =~= spec_tight_palette_framed(palette@, z@));
            buf
        },
        _ => {
            let mut data: Vec<u8> = Vec::new();
            push_pixels_bytes(&mut data, pixels);
            proof {
                crate::pixel::lemma_pixels_bytes_len(pixels@);
                crate::pixel::lemma_pixels_bytes_round_trip(pixels@);
            }
            encode_tight_jpeg(data.as_slice(), width, height, 75)
        },
    }
}

/// Encode a JPEG rectangle: convert BGRX to RGB, compress, frame with
/// the compact length codec.  Falls back to the basic uncompressed
/// form when the encoder fails or the stream does not fit.
pub fn encode_tight_jpeg(data: &[u8], width: u16, height: u16, quality: u8) -> (r: Vec<u8>)
    requires
        1 <= width,
        1 <= height,
        data@.len() == width * height * 4,
    ensures
        spec_jpeg_outcome(
            spec_pixels(data@),
            width as int,
            height as int,
            spec_clamp_quality(quality) as int,
            r@,
        ),
{
    let q: u8 = if quality == 0 {
        1
    } else if quality > 100 {
        100
    } else {
        quality
    };
    let pixels = rgba_to_rgb24_pixels(data);
    let rgb = rgb_bytes_of(&pixels);
    proof {
        assert(pixels@.len() == data@.len() / 4);
        assert(data@.len() / 4 == width * height);
    }
    let jpeg = jpeg_compress_rgb(rgb.as_slice(), width, height, q);
    match jpeg {
        Some(j) if j.len() < COMPACT_LEN_LIMIT as usize => {
            let mut buf: Vec<u8> = Vec::new();
            buf.push(0x90);
            push_compact_len(&mut buf, j.len() as u32);
            crate::wire::push_bytes(&mut buf, j.as_slice());
            assert(buf@ =~= spec_tight_jpeg_framed(j@));
            buf
        },
        _ => {
            let mut buf: Vec<u8> = Vec::new();
            buf.push(0x00);
            push_pixels_bytes(&mut buf, &pixels);
            assert(buf@ =~= spec_tight_basic_bytes(pixels@));
            buf
        },
    }
}

} // verus!
