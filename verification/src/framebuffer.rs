//! The shared framebuffer: current pixel image, full and cropped updates,
//! dirty-row tracking against the prior frame, and scroll detection for
//! CopyRect.
//!
//! Pixels are 32-bpp BGRX, row-major, no stride padding: pixel `(px, py)`
//! of a `w`-wide frame owns bytes `(py * w + px) * 4 .. + 4`.

use vstd::prelude::*;
use crate::rfb::{Rect, VncError, MIN_DIMENSION, MAX_DIMENSION};
use crate::geom::{byte_index, lemma_byte_index_coords, lemma_byte_index_inj, lemma_byte_index_range};

verus! {

/// A translation hypothesis: the post-update image equals the pre-update
/// image shifted by `(dx, dy)` within `rect` (the destination region).
/// The source position of the region is `(rect.x - dx, rect.y - dy)`.
#[derive(Clone, Copy, PartialEq, Eq, Structural, Debug)]
pub struct ScrollCandidate {
    pub dx: i16,
    pub dy: i16,
    pub rect: Rect,
}

/// What one full-frame update found: the bounding box of differing rows,
/// and at most one scroll candidate.
pub struct FrameUpdate {
    pub dirty: Option<Rect>,
    pub scroll: Option<ScrollCandidate>,
}

/// The shared framebuffer.
pub struct Framebuffer {
    pub width: u16,
    pub height: u16,
    pub data: Vec<u8>,
    pub generation: u64,
}

/// Largest vertical shift, in rows, that scroll detection tries.
pub const MAX_SCROLL_SHIFT: u16 = 16;

/// Image `b` equals image `a` shifted down by `d` rows: rows `d .. h`
/// of `b` hold rows `0 .. h - d` of `a`.
pub open spec fn spec_shift_down_match(a: Seq<u8>, b: Seq<u8>, w: int, h: int, d: int) -> bool {
    forall|py: int, px: int, k: int|
        d <= py < h && 0 <= px < w && 0 <= k < 4 ==> b[#[trigger] byte_index(w, py, px, k)]
            == a[byte_index(w, py - d, px, k)]
}

/// Image `b` equals image `a` shifted up by `d` rows: rows `0 .. h - d`
/// of `b` hold rows `d .. h` of `a`.
pub open spec fn spec_shift_up_match(a: Seq<u8>, b: Seq<u8>, w: int, h: int, d: int) -> bool {
    forall|py: int, px: int, k: int|
        0 <= py < h - d && 0 <= px < w && 0 <= k < 4 ==> b[#[trigger] byte_index(w, py, px, k)]
            == a[byte_index(w, py + d, px, k)]
}

/// The scroll candidate found by searching the bounded grid of vertical
/// whole-row shifts, nearest shift first, downward before upward, and
/// only where the moved region covers at least half the frame.
pub open spec fn spec_scroll_from(a: Seq<u8>, b: Seq<u8>, w: int, h: int, d: int) -> Option<
    ScrollCandidate,
> //
    decreases MAX_SCROLL_SHIFT + 1 - d,
{
    if d < 1 || d > MAX_SCROLL_SHIFT || d >= h {
        None
    } else if 2 * (h - d) >= h && spec_shift_down_match(a, b, w, h, d) {
        Some(
            ScrollCandidate {
                dx: 0,
                dy: d as i16,
                rect: Rect { x: 0, y: d as u16, w: w as u16, h: (h - d) as u16 },
            },
        )
    } else if 2 * (h - d) >= h && spec_shift_up_match(a, b, w, h, d) {
        Some(
            ScrollCandidate {
                dx: 0,
                dy: (-d) as i16,
                rect: Rect { x: 0, y: 0, w: w as u16, h: (h - d) as u16 },
            },
        )
    } else {
        spec_scroll_from(a, b, w, h, d + 1)
    }
}

/// Row `r` differs between images `a` and `b` of width `w`.
pub open spec fn spec_row_differs(a: Seq<u8>, b: Seq<u8>, w: int, r: int) -> bool {
    exists|px: int, k: int|
        0 <= px < w && 0 <= k < 4 && a[#[trigger] byte_index(w, r, px, k)] != b[byte_index(
            w,
            r,
            px,
            k,
        )]
}

impl Framebuffer {
    /// The backing buffer holds exactly one 32-bit pixel per coordinate
    /// and both axes are within the accepted range.
    pub open spec fn wf(&self) -> bool {
        &&& MIN_DIMENSION <= self.width <= MAX_DIMENSION
        &&& MIN_DIMENSION <= self.height <= MAX_DIMENSION
        &&& self.data@.len() == self.width * self.height * 4
    }

    /// Build a zeroed framebuffer; rejects out-of-range dimensions.
    pub fn new(width: u16, height: u16) -> (r: Result<Framebuffer, VncError>)
        ensures
            r is Ok <==> (MIN_DIMENSION <= width <= MAX_DIMENSION && MIN_DIMENSION <= height
                <= MAX_DIMENSION),
            r matches Ok(fb) ==> {
                &&& fb.wf()
                &&& fb.width == width
                &&& fb.height == height
                &&& fb.generation == 0
                &&& forall|i: int| 0 <= i < fb.data@.len() ==> fb.data@[i] == 0
            },
            r is Err ==> r matches Err(VncError::InvalidDimensions),
    {
        if width < MIN_DIMENSION || width > MAX_DIMENSION || height < MIN_DIMENSION || height
            > MAX_DIMENSION {
            return Err(VncError::InvalidDimensions);
        }
        assert(width * height * 4 <= 8192 * 8192 * 4) by (nonlinear_arith)
            requires
                width <= 8192,
                height <= 8192,
        ;
        let n: usize = (width as usize) * (height as usize) * 4;
        let mut data: Vec<u8> = Vec::new();
        let mut i: usize = 0;
        while i < n
            invariant
                i <= n,
                data@.len() == i,
                forall|j: int| 0 <= j < i ==> data@[j] == 0,
            decreases n - i,
        {
            data.push(0);
            i += 1;
        }
        Ok(Framebuffer { width, height, data, generation: 0 })
    }

    /// Current width in pixels.
    pub fn get_width(&self) -> (r: u16)
        ensures
            r == self.width,
    {
        self.width
    }

    /// Current height in pixels.
    pub fn get_height(&self) -> (r: u16)
        ensures
            r == self.height,
    {
        self.height
    }

    /// Commit counter: advances once per applied update.
    pub fn get_generation(&self) -> (r: u64)
        ensures
            r == self.generation,
    {
        self.generation
    }

    /// Borrow the current image bytes; a full update replaces them with
    /// exactly the bytes handed in, so a read after `update_from_slice`
    /// returns the same bytes.
    pub fn bytes(&self) -> (r: &Vec<u8>)
        ensures
            r@ == self.data@,
    {
        &self.data
    }

    /// Replace the whole image.  The buffer must hold exactly
    /// `width * height * 4` bytes, else `SizeMismatch` and no change.
    /// On success the image equals `buf`, the generation advances, and
    /// the dirty rectangle is the exact bounding box of differing rows
    /// (`None` when nothing changed).
    pub fn update_from_slice(&mut self, buf: &[u8]) -> (r: Result<FrameUpdate, VncError>)
        requires
            old(self).wf(),
            old(self).generation < u64::MAX,
        ensures
            final(self).wf(),
            final(self).width == old(self).width,
            final(self).height == old(self).height,
            r is Ok <==> buf@.len() == old(self).width * old(self).height * 4,
            r is Err ==> *final(self) == *old(self) && r matches Err(VncError::SizeMismatch),
            r matches Ok(u) ==> {
                &&& final(self).data@ == buf@
                &&& final(self).generation == old(self).generation + 1
                &&& match u.dirty {
                    None => forall|rr: int|
                        0 <= rr < old(self).height ==> !spec_row_differs(
                            old(self).data@,
                            buf@,
                            old(self).width as int,
                            rr,
                        ),
                    Some(rc) => {
                        &&& rc.x == 0
                        &&& rc.w == old(self).width
                        &&& rc.h >= 1
                        &&& rc.y + rc.h <= old(self).height
                        &&& spec_row_differs(
                            old(self).data@,
                            buf@,
                            old(self).width as int,
                            rc.y as int,
                        )
                        &&& spec_row_differs(
                            old(self).data@,
                            buf@,
                            old(self).width as int,
                            rc.y + rc.h - 1,
                        )
                        &&& forall|rr: int|
                            0 <= rr < rc.y ==> !spec_row_differs(
                                old(self).data@,
                                buf@,
                                old(self).width as int,
                                rr,
                            )
                        &&& forall|rr: int|
                            rc.y + rc.h <= rr < old(self).height ==> !spec_row_differs(
                                old(self).data@,
                                buf@,
                                old(self).width as int,
                                rr,
                            )
                    },
                }
                &&& u.scroll == (if u.dirty is Some {
                    spec_scroll_from(
                        old(self).data@,
                        buf@,
                        old(self).width as int,
                        old(self).height as int,
                        1,
                    )
                } else {
                    None
                })
            },
    {
        let w = self.width;
        let h = self.height;
        assert(w * h * 4 <= 8192 * 8192 * 4) by (nonlinear_arith)
            requires
                w <= 8192,
                h <= 8192,
        ;
        let expected: usize = (w as usize) * (h as usize) * 4;
        if buf.len() != expected {
            return Err(VncError::SizeMismatch);
        }
        // Bounding box of differing rows, against the old image.
        let mut r0: usize = 0;
        while r0 < h as usize && !row_differs(&self.data, buf, w, h, r0)
            invariant
                self == old(self),
                buf@.len() == w * h * 4,
                w == self.width,
                h == self.height,
                self.wf(),
                r0 <= h,
                forall|rr: int|
                    0 <= rr < r0 ==> !spec_row_differs(self.data@, buf@, w as int, rr),
            decreases h - r0,
        {
            r0 += 1;
        }
        let dirty: Option<Rect> = if r0 == h as usize {
            None
        } else {
            let mut r1: usize = (h as usize) - 1;
            while r1 > r0 && !row_differs(&self.data, buf, w, h, r1)
                invariant
                    self == old(self),
                    buf@.len() == w * h * 4,
                    w == self.width,
                    h == self.height,
                    self.wf(),
                    r0 <= r1 < h,
                    spec_row_differs(self.data@, buf@, w as int, r0 as int),
                    forall|rr: int|
                        r1 < rr < h ==> !spec_row_differs(self.data@, buf@, w as int, rr),
                decreases r1,
            {
                r1 -= 1;
            }
            Some(Rect { x: 0, y: r0 as u16, w, h: (r1 - r0 + 1) as u16 })
        };
        let scroll: Option<ScrollCandidate> = if dirty.is_some() {
            detect_scroll(&self.data, buf, w, h)
        } else {
            None
        };
        self.data = vstd::slice::slice_to_vec(buf);
        self.generation = self.generation + 1;
        Ok(FrameUpdate { dirty, scroll })
    }

    /// Blit a `w` by `h` tile at `(x, y)`, clipped to the frame.  The
    /// buffer must hold exactly `w * h * 4` bytes, else `SizeMismatch`
    /// and no change.  On success exactly the clipped bytes take their
    /// values from `buf` and every other byte keeps its prior value; the
    /// returned rectangle is `(x, y, w, h)` clipped to the frame.
    pub fn update_cropped(&mut self, buf: &[u8], x: u16, y: u16, w: u16, h: u16) -> (r: Result<
        Rect,
        VncError,
    >)
        requires
            old(self).wf(),
            old(self).generation < u64::MAX,
        ensures
            final(self).wf(),
            final(self).width == old(self).width,
            final(self).height == old(self).height,
            r is Ok <==> buf@.len() == w * h * 4,
            r is Err ==> *final(self) == *old(self) && r matches Err(VncError::SizeMismatch),
            r matches Ok(rc) ==> {
                &&& rc.x == x
                &&& rc.y == y
                &&& rc.w == spec_clip_len(x as int, w as int, old(self).width as int)
                &&& rc.h == spec_clip_len(y as int, h as int, old(self).height as int)
                &&& final(self).generation == old(self).generation + 1
                &&& final(self).data@.len() == old(self).data@.len()
                &&& forall|py: int, px: int, k: int|
                    0 <= py < old(self).height && 0 <= px < old(self).width && 0 <= k < 4
                        ==> final(self).data@[#[trigger] byte_index(
                        old(self).width as int,
                        py,
                        px,
                        k,
                    )] == (if x <= px < x + rc.w && y <= py < y + rc.h {
                        buf@[byte_index(w as int, py - y, px - x, k)]
                    } else {
                        old(self).data@[byte_index(old(self).width as int, py, px, k)]
                    })
            },
    {
        let fw = self.width;
        let fh = self.height;
        let blen: usize = buf.len();
        let wh: Option<usize> = (w as usize).checked_mul(h as usize);
        let expected: Option<usize> = match wh {
            Some(s) => s.checked_mul(4),
            None => None,
        };
        let expected: usize = match expected {
            Some(e) => e,
            None => {
                proof {
                    assert(w * h * 4 > usize::MAX);
                    assert(blen < w * h * 4);
                }
                return Err(VncError::SizeMismatch);
            },
        };
        if blen != expected {
            return Err(VncError::SizeMismatch);
        }
        // Clip the tile to the frame.
        let cw: usize = clip_len(x, w, fw);
        let ch: usize = clip_len(y, h, fh);
        let ghost wi = fw as int;
        let mut ry: usize = 0;
        while ry < ch
            invariant
                old(self).wf(),
                self.wf(),
                self.width == old(self).width == fw,
                self.height == old(self).height == fh,
                self.generation == old(self).generation,
                self.data@.len() == old(self).data@.len(),
                buf@.len() == w * h * 4,
                buf@.len() <= usize::MAX,
                wi == fw as int,
                cw == spec_clip_len(x as int, w as int, fw as int),
                ch == spec_clip_len(y as int, h as int, fh as int),
                cw <= w && (cw == 0 || x + cw <= fw),
                ch <= h && (ch == 0 || y + ch <= fh),
                ry <= ch,
                forall|py: int, px: int, k: int|
                    0 <= py < fh && 0 <= px < fw && 0 <= k < 4 ==> self.data@[#[trigger] byte_index(
                        wi,
                        py,
                        px,
                        k,
                    )] == (if x <= px < x + cw && y <= py < y + ry {
                        buf@[byte_index(w as int, py - y, px - x, k)]
                    } else {
                        old(self).data@[byte_index(wi, py, px, k)]
                    }),
            decreases ch - ry,
        {
            let mut rx: usize = 0;
            while rx < cw
                invariant
                    old(self).wf(),
                    self.wf(),
                    self.width == old(self).width == fw,
                    self.height == old(self).height == fh,
                    self.generation == old(self).generation,
                    self.data@.len() == old(self).data@.len(),
                    buf@.len() == w * h * 4,
                    buf@.len() <= usize::MAX,
                wi == fw as int,
                    cw == spec_clip_len(x as int, w as int, fw as int),
                    ch == spec_clip_len(y as int, h as int, fh as int),
                    cw <= w && (cw == 0 || x + cw <= fw),
                    ch <= h && (ch == 0 || y + ch <= fh),
                    ry < ch,
                    rx <= cw,
                    forall|py: int, px: int, k: int|
                        0 <= py < fh && 0 <= px < fw && 0 <= k < 4 ==> self.data@[#[trigger] byte_index(
                            wi,
                            py,
                            px,
                            k,
                        )] == (if x <= px < x + cw && (y <= py < y + ry || (py == y + ry && x <= px
                            < x + rx)) {
                            buf@[byte_index(w as int, py - y, px - x, k)]
                        } else {
                            old(self).data@[byte_index(wi, py, px, k)]
                        }),
                decreases cw - rx,
            {
                let mut k: usize = 0;
                while k < 4
                    invariant
                        old(self).wf(),
                        self.wf(),
                        self.width == old(self).width == fw,
                        self.height == old(self).height == fh,
                        self.generation == old(self).generation,
                        self.data@.len() == old(self).data@.len(),
                        buf@.len() == w * h * 4,
                        buf@.len() <= usize::MAX,
                wi == fw as int,
                        cw == spec_clip_len(x as int, w as int, fw as int),
                        ch == spec_clip_len(y as int, h as int, fh as int),
                        cw <= w && (cw == 0 || x + cw <= fw),
                        ch <= h && (ch == 0 || y + ch <= fh),
                        ry < ch,
                        rx < cw,
                        k <= 4,
                        forall|py: int, px: int, kk: int|
                            0 <= py < fh && 0 <= px < fw && 0 <= kk < 4 ==> self.data@[#[trigger] byte_index(
                                wi,
                                py,
                                px,
                                kk,
                            )] == (if x <= px < x + cw && (y <= py < y + ry || (py == y + ry && x
                                <= px < x + rx) || (py == y + ry && px == x + rx && kk < k)) {
                                buf@[byte_index(w as int, py - y, px - x, kk)]
                            } else {
                                old(self).data@[byte_index(wi, py, px, kk)]
                            }),
                    decreases 4 - k,
                {
                    let py: usize = (y as usize) + ry;
                    let px: usize = (x as usize) + rx;
                    proof {
                        assert(fw * fh * 4 <= 8192 * 8192 * 4) by (nonlinear_arith)
                            requires
                                fw <= 8192,
                                fh <= 8192,
                        ;
                    }
                    let di: usize = crate::geom::byte_offset(
                        fw as usize,
                        fh as usize,
                        py,
                        px,
                        k,
                    );
                    let si: usize = crate::geom::byte_offset(w as usize, h as usize, ry, rx, k);
                    let v: u8 = buf[si];
                    self.data[di] = v;
                    proof {
                        assert(di == byte_index(wi, py as int, px as int, k as int));
                        assert(si == byte_index(w as int, ry as int, rx as int, k as int));
                        assert forall|py2: int, px2: int, kk: int|
                            0 <= py2 < fh && 0 <= px2 < fw && 0 <= kk < 4 implies self.data@[#[trigger] byte_index(
                            wi,
                            py2,
                            px2,
                            kk,
                        )] == (if x <= px2 < x + cw && (y <= py2 < y + ry || (py2 == y + ry && x
                            <= px2 < x + rx) || (py2 == y + ry && px2 == x + rx && kk < k + 1)) {
                            buf@[byte_index(w as int, py2 - y, px2 - x, kk)]
                        } else {
                            old(self).data@[byte_index(wi, py2, px2, kk)]
                        }) by {
                            lemma_byte_index_range(fw as int, fh as int, py2, px2, kk);
                            if byte_index(wi, py2, px2, kk) == di {
                                lemma_byte_index_inj(
                                    wi,
                                    py2,
                                    px2,
                                    kk,
                                    py as int,
                                    px as int,
                                    k as int,
                                );
                            }
                        }
                    }
                    k += 1;
                }
                rx += 1;
            }
            ry += 1;
        }
        self.generation = self.generation + 1;
        Ok(
            Rect {
                x,
                y,
                w: cw as u16,
                h: ch as u16,
            },
        )
    }
}

/// The byte a resize to width `nw` leaves at offset `j`: the prior
/// content where the coordinate lies in the old frame, zero elsewhere.
pub open spec fn spec_resized_byte(olddata: Seq<u8>, ow: int, oh: int, nw: int, j: int) -> u8 {
    let py = j / (4 * nw);
    let px = (j % (4 * nw)) / 4;
    let k = j % 4;
    if py < oh && px < ow {
        olddata[byte_index(ow, py, px, k)]
    } else {
        0
    }
}

impl Framebuffer {
    /// Replace the backing storage with new dimensions.  Content is
    /// preserved in the top-left overlap; new area is zero.  Rejects
    /// out-of-range dimensions with `InvalidDimensions` and no change.
    pub fn resize(&mut self, new_w: u16, new_h: u16) -> (r: Result<(), VncError>)
        requires
            old(self).wf(),
            old(self).generation < u64::MAX,
        ensures
            final(self).wf(),
            r is Ok <==> (MIN_DIMENSION <= new_w <= MAX_DIMENSION && MIN_DIMENSION <= new_h
                <= MAX_DIMENSION),
            r is Err ==> *final(self) == *old(self) && r matches Err(VncError::InvalidDimensions),
            r is Ok ==> {
                &&& final(self).width == new_w
                &&& final(self).height == new_h
                &&& final(self).generation == old(self).generation + 1
                &&& forall|py: int, px: int, k: int|
                    0 <= py < new_h && 0 <= px < new_w && 0 <= k < 4
                        ==> final(self).data@[#[trigger] byte_index(new_w as int, py, px, k)] == (
                    if py < old(self).height && px < old(self).width {
                        old(self).data@[byte_index(old(self).width as int, py, px, k)]
                    } else {
                        0
                    })
            },
    {
        if new_w < MIN_DIMENSION || new_w > MAX_DIMENSION || new_h < MIN_DIMENSION || new_h
            > MAX_DIMENSION {
            return Err(VncError::InvalidDimensions);
        }
        let ow = self.width;
        let oh = self.height;
        let ghost odata = self.data@;
        let mut nd: Vec<u8> = Vec::new();
        let mut py: usize = 0;
        while py < new_h as usize
            invariant
                self == old(self),
                self.wf(),
                ow == self.width,
                oh == self.height,
                odata == self.data@,
                1 <= new_w <= 8192 && 1 <= new_h <= 8192,
                py <= new_h,
                nd@.len() == byte_index(new_w as int, py as int, 0, 0),
                forall|j: int|
                    0 <= j < nd@.len() ==> nd@[j] == spec_resized_byte(
                        odata,
                        ow as int,
                        oh as int,
                        new_w as int,
                        j,
                    ),
            decreases new_h - py,
        {
            let mut px: usize = 0;
            while px < new_w as usize
                invariant
                    self == old(self),
                    self.wf(),
                    ow == self.width,
                    oh == self.height,
                    odata == self.data@,
                    1 <= new_w <= 8192 && 1 <= new_h <= 8192,
                    py < new_h,
                    px <= new_w,
                    nd@.len() == byte_index(new_w as int, py as int, px as int, 0),
                    forall|j: int|
                        0 <= j < nd@.len() ==> nd@[j] == spec_resized_byte(
                            odata,
                            ow as int,
                            oh as int,
                            new_w as int,
                            j,
                        ),
                decreases new_w - px,
            {
                let mut k: usize = 0;
                while k < 4
                    invariant
                        self == old(self),
                        self.wf(),
                        ow == self.width,
                        oh == self.height,
                        odata == self.data@,
                        1 <= new_w <= 8192 && 1 <= new_h <= 8192,
                        py < new_h,
                        px < new_w,
                        k <= 4,
                        nd@.len() == byte_index(new_w as int, py as int, px as int, k as int),
                        forall|j: int|
                            0 <= j < nd@.len() ==> nd@[j] == spec_resized_byte(
                                odata,
                                ow as int,
                                oh as int,
                                new_w as int,
                                j,
                            ),
                    decreases 4 - k,
                {
                    let v: u8 = if py < oh as usize && px < ow as usize {
                        proof {
                            assert(ow * oh * 4 <= 8192 * 8192 * 4) by (nonlinear_arith)
                                requires
                                    ow <= 8192,
                                    oh <= 8192,
                            ;
                        }
                        let oi: usize = crate::geom::byte_offset(
                            ow as usize,
                            oh as usize,
                            py,
                            px,
                            k,
                        );
                        self.data[oi]
                    } else {
                        0
                    };
                    proof {
                        lemma_byte_index_coords(new_w as int, py as int, px as int, k as int);
                        assert(spec_resized_byte(
                            odata,
                            ow as int,
                            oh as int,
                            new_w as int,
                            nd@.len() as int,
                        ) == v);
                        lemma_byte_index_range(
                            new_w as int,
                            new_h as int,
                            py as int,
                            px as int,
                            k as int,
                        );
                    }
                    nd.push(v);
                    k += 1;
                }
                proof {
                    assert(byte_index(new_w as int, py as int, px as int, 4) == byte_index(
                        new_w as int,
                        py as int,
                        px + 1 as int,
                        0,
                    ));
                }
                px += 1;
            }
            proof {
                assert(byte_index(new_w as int, py as int, new_w as int, 0) == byte_index(
                    new_w as int,
                    py + 1 as int,
                    0,
                    0,
                )) by (nonlinear_arith);
            }
            py += 1;
        }
        proof {
            assert(byte_index(new_w as int, new_h as int, 0, 0) == new_w * new_h * 4) by (nonlinear_arith);
            assert forall|py2: int, px2: int, k2: int|
                0 <= py2 < new_h && 0 <= px2 < new_w && 0 <= k2 < 4 implies nd@[#[trigger] byte_index(
                new_w as int,
                py2,
                px2,
                k2,
            )] == (if py2 < oh && px2 < ow {
                odata[byte_index(ow as int, py2, px2, k2)]
            } else {
                0
            }) by {
                lemma_byte_index_range(new_w as int, new_h as int, py2, px2, k2);
                lemma_byte_index_coords(new_w as int, py2, px2, k2);
            }
        }
        self.data = nd;
        self.width = new_w;
        self.height = new_h;
        self.generation = self.generation + 1;
        Ok(())
    }
}

/// Length of the span `[start, start + len)` clipped to `[0, limit)`.
pub open spec fn spec_clip_len(start: int, len: int, limit: int) -> int {
    if start >= limit {
        0
    } else if start + len <= limit {
        len
    } else {
        limit - start
    }
}

/// Clip a span to a limit.
fn clip_len(start: u16, len: u16, limit: u16) -> (r: usize)
    ensures
        r == spec_clip_len(start as int, len as int, limit as int),
        r <= len,
        start >= limit ==> r == 0,
        start < limit ==> start + r <= limit,
{
    if start >= limit {
        0
    } else if (start as usize) + (len as usize) <= limit as usize {
        len as usize
    } else {
        (limit - start) as usize
    }
}

/// Whether row `r` differs between the current image and `buf`.
fn row_differs(data: &Vec<u8>, buf: &[u8], w: u16, h: u16, r: usize) -> (res: bool)
    requires
        w >= 1,
        h >= 1,
        w <= 8192,
        h <= 8192,
        r < h,
        data@.len() == w * h * 4,
        buf@.len() == w * h * 4,
    ensures
        res == spec_row_differs(data@, buf@, w as int, r as int),
{
    let mut px: usize = 0;
    while px < w as usize
        invariant
            w >= 1 && h >= 1 && w <= 8192 && h <= 8192 && r < h,
            data@.len() == w * h * 4,
            buf@.len() == w * h * 4,
            px <= w,
            forall|px2: int, k2: int|
                0 <= px2 < px && 0 <= k2 < 4 ==> data@[#[trigger] byte_index(
                    w as int,
                    r as int,
                    px2,
                    k2,
                )] == buf@[byte_index(w as int, r as int, px2, k2)],
        decreases w - px,
    {
        let mut k: usize = 0;
        while k < 4
            invariant
                w >= 1 && h >= 1 && w <= 8192 && h <= 8192 && r < h && px < w,
                data@.len() == w * h * 4,
                buf@.len() == w * h * 4,
                k <= 4,
                forall|k2: int|
                    0 <= k2 < k ==> data@[#[trigger] byte_index(w as int, r as int, px as int, k2)]
                        == buf@[byte_index(w as int, r as int, px as int, k2)],
            decreases 4 - k,
        {
            proof {
                assert(w * h * 4 <= 8192 * 8192 * 4) by (nonlinear_arith)
                    requires
                        w <= 8192,
                        h <= 8192,
                ;
            }
            let i: usize = crate::geom::byte_offset(w as usize, h as usize, r, px, k);
            if data[i] != buf[i] {
                assert(spec_row_differs(data@, buf@, w as int, r as int));
                return true;
            }
            k += 1;
        }
        px += 1;
    }
    assert(!spec_row_differs(data@, buf@, w as int, r as int));
    false
}

/// Whether `buf` equals `data` shifted down by `d` rows.
fn shift_down_match(data: &Vec<u8>, buf: &[u8], w: u16, h: u16, d: u16) -> (res: bool)
    requires
        1 <= w <= 8192,
        1 <= h <= 8192,
        1 <= d < h,
        data@.len() == w * h * 4,
        buf@.len() == w * h * 4,
    ensures
        res == spec_shift_down_match(data@, buf@, w as int, h as int, d as int),
{
    let mut py: usize = d as usize;
    while py < h as usize
        invariant
            1 <= w <= 8192 && 1 <= h <= 8192 && 1 <= d < h,
            data@.len() == w * h * 4,
            buf@.len() == w * h * 4,
            d <= py <= h,
            forall|py2: int, px2: int, k2: int|
                d <= py2 < py && 0 <= px2 < w && 0 <= k2 < 4 ==> buf@[#[trigger] byte_index(
                    w as int,
                    py2,
                    px2,
                    k2,
                )] == data@[byte_index(w as int, py2 - d, px2, k2)],
        decreases h - py,
    {
        let mut px: usize = 0;
        while px < w as usize
            invariant
                1 <= w <= 8192 && 1 <= h <= 8192 && 1 <= d < h,
                data@.len() == w * h * 4,
                buf@.len() == w * h * 4,
                d <= py < h,
                px <= w,
                forall|px2: int, k2: int|
                    0 <= px2 < px && 0 <= k2 < 4 ==> buf@[#[trigger] byte_index(
                        w as int,
                        py as int,
                        px2,
                        k2,
                    )] == data@[byte_index(w as int, py - d, px2, k2)],
            decreases w - px,
        {
            let mut k: usize = 0;
            while k < 4
                invariant
                    1 <= w <= 8192 && 1 <= h <= 8192 && 1 <= d < h,
                    data@.len() == w * h * 4,
                    buf@.len() == w * h * 4,
                    d <= py < h,
                    px < w,
                    k <= 4,
                    forall|k2: int|
                        0 <= k2 < k ==> buf@[#[trigger] byte_index(
                            w as int,
                            py as int,
                            px as int,
                            k2,
                        )] == data@[byte_index(w as int, py - d, px as int, k2)],
                decreases 4 - k,
            {
                proof {
                    assert(w * h * 4 <= 8192 * 8192 * 4) by (nonlinear_arith)
                        requires
                            w <= 8192,
                            h <= 8192,
                    ;
                }
                let bi: usize = crate::geom::byte_offset(w as usize, h as usize, py, px, k);
                let ai: usize = crate::geom::byte_offset(
                    w as usize,
                    h as usize,
                    py - (d as usize),
                    px,
                    k,
                );
                if buf[bi] != data[ai] {
                    assert(!spec_shift_down_match(data@, buf@, w as int, h as int, d as int)) by {
                        if spec_shift_down_match(data@, buf@, w as int, h as int, d as int) {
                            assert(buf@[byte_index(w as int, py as int, px as int, k as int)]
                                == data@[byte_index(w as int, py - d, px as int, k as int)]);
                        }
                    };
                    return false;
                }
                k += 1;
            }
            px += 1;
        }
        py += 1;
    }
    true
}

/// Whether `buf` equals `data` shifted up by `d` rows.
fn shift_up_match(data: &Vec<u8>, buf: &[u8], w: u16, h: u16, d: u16) -> (res: bool)
    requires
        1 <= w <= 8192,
        1 <= h <= 8192,
        1 <= d < h,
        data@.len() == w * h * 4,
        buf@.len() == w * h * 4,
    ensures
        res == spec_shift_up_match(data@, buf@, w as int, h as int, d as int),
{
    let mut py: usize = 0;
    while py < (h - d) as usize
        invariant
            1 <= w <= 8192 && 1 <= h <= 8192 && 1 <= d < h,
            data@.len() == w * h * 4,
            buf@.len() == w * h * 4,
            py <= h - d,
            forall|py2: int, px2: int, k2: int|
                0 <= py2 < py && 0 <= px2 < w && 0 <= k2 < 4 ==> buf@[#[trigger] byte_index(
                    w as int,
                    py2,
                    px2,
                    k2,
                )] == data@[byte_index(w as int, py2 + d, px2, k2)],
        decreases h - d - py,
    {
        let mut px: usize = 0;
        while px < w as usize
            invariant
                1 <= w <= 8192 && 1 <= h <= 8192 && 1 <= d < h,
                data@.len() == w * h * 4,
                buf@.len() == w * h * 4,
                py < h - d,
                px <= w,
                forall|px2: int, k2: int|
                    0 <= px2 < px && 0 <= k2 < 4 ==> buf@[#[trigger] byte_index(
                        w as int,
                        py as int,
                        px2,
                        k2,
                    )] == data@[byte_index(w as int, py + d, px2, k2)],
            decreases w - px,
        {
            let mut k: usize = 0;
            while k < 4
                invariant
                    1 <= w <= 8192 && 1 <= h <= 8192 && 1 <= d < h,
                    data@.len() == w * h * 4,
                    buf@.len() == w * h * 4,
                    py < h - d,
                    px < w,
                    k <= 4,
                    forall|k2: int|
                        0 <= k2 < k ==> buf@[#[trigger] byte_index(
                            w as int,
                            py as int,
                            px as int,
                            k2,
                        )] == data@[byte_index(w as int, py + d, px as int, k2)],
                decreases 4 - k,
            {
                proof {
                    assert(w * h * 4 <= 8192 * 8192 * 4) by (nonlinear_arith)
                        requires
                            w <= 8192,
                            h <= 8192,
                    ;
                }
                let bi: usize = crate::geom::byte_offset(w as usize, h as usize, py, px, k);
                let ai: usize = crate::geom::byte_offset(
                    w as usize,
                    h as usize,
                    py + (d as usize),
                    px,
                    k,
                );
                if buf[bi] != data[ai] {
                    assert(!spec_shift_up_match(data@, buf@, w as int, h as int, d as int)) by {
                        if spec_shift_up_match(data@, buf@, w as int, h as int, d as int) {
                            assert(buf@[byte_index(w as int, py as int, px as int, k as int)]
                                == data@[byte_index(w as int, py + d, px as int, k as int)]);
                        }
                    };
                    return false;
                }
                k += 1;
            }
            px += 1;
        }
        py += 1;
    }
    true
}

/// Search the bounded grid of vertical shifts for a translated match.
fn detect_scroll(data: &Vec<u8>, buf: &[u8], w: u16, h: u16) -> (res: Option<ScrollCandidate>)
    requires
        1 <= w <= 8192,
        1 <= h <= 8192,
        data@.len() == w * h * 4,
        buf@.len() == w * h * 4,
    ensures
        res == spec_scroll_from(data@, buf@, w as int, h as int, 1),
{
    let mut d: u16 = 1;
    while d <= MAX_SCROLL_SHIFT && d < h
        invariant
            1 <= w <= 8192 && 1 <= h <= 8192,
            data@.len() == w * h * 4,
            buf@.len() == w * h * 4,
            1 <= d,
            spec_scroll_from(data@, buf@, w as int, h as int, 1) == spec_scroll_from(
                data@,
                buf@,
                w as int,
                h as int,
                d as int,
            ),
        decreases MAX_SCROLL_SHIFT + 1 - d,
    {
        let moved: u32 = 2 * ((h - d) as u32);
        if moved >= h as u32 {
            if shift_down_match(data, buf, w, h, d) {
                return Some(
                    ScrollCandidate {
                        dx: 0,
                        dy: d as i16,
                        rect: Rect { x: 0, y: d, w, h: h - d },
                    },
                );
            }
            if shift_up_match(data, buf, w, h, d) {
                return Some(
                    ScrollCandidate {
                        dx: 0,
                        dy: -(d as i16),
                        rect: Rect { x: 0, y: 0, w, h: h - d },
                    },
                );
            }
        }
        d += 1;
    }
    None
}

} // verus!
