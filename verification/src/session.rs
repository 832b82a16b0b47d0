//! Per-client session state: negotiated encodings, pending dirty
//! region, update requests, and the assembly of FramebufferUpdate
//! messages (with CopyRect when a scroll was detected).

use vstd::prelude::*;
use crate::rfb::{Rect, VncError, ProtocolReason, ServerEvent, ENC_RAW, ENC_COPYRECT, ENC_TIGHT,
    ENC_QUALITY_LEVEL_0, ENC_COMPRESS_LEVEL_0};
use crate::wire::{spec_u16_be, push_u16_be, spec_rect_header, push_rect_header};
use crate::geom::{byte_index, lemma_byte_index_coords, lemma_byte_index_range};
use crate::framebuffer::{Framebuffer, ScrollCandidate};
use crate::protocol::{
    ClientMessage, SpecMessage, SpecEvent, ParseOutcome, parse_message, spec_parse_one,
    spec_event_of, spec_stream_wellformed, spec_session_events,
};
use crate::tight::{TightEncoding, spec_tight_outcome};

verus! {

/// Default pacing floor between two flushes to one client.
pub const MIN_UPDATE_INTERVAL_MS: u64 = 30;

/// Default JPEG quality before the client advertises a level.
pub const DEFAULT_JPEG_QUALITY: u8 = 75;

/// Default compression knob before the client advertises a level.
pub const DEFAULT_COMPRESSION: u8 = 6;

/// The JPEG quality used for a client-advertised level zero to nine.
pub open spec fn spec_quality_for_level(level: int) -> u8 {
    (level * 10 + 5) as u8
}

/// The JPEG quality after a SetEncodings list: the last quality-level
/// pseudo-encoding wins; without one the prior value stays.
pub open spec fn spec_quality_from(encs: Seq<i32>, prior: u8) -> u8
    decreases encs.len(),
{
    if encs.len() == 0 {
        prior
    } else if ENC_QUALITY_LEVEL_0 <= encs.last() <= ENC_QUALITY_LEVEL_0 + 9 {
        spec_quality_for_level(encs.last() - ENC_QUALITY_LEVEL_0)
    } else {
        spec_quality_from(encs.drop_last(), prior)
    }
}

/// The compression knob after a SetEncodings list: the last
/// compression-level pseudo-encoding wins.
pub open spec fn spec_compression_from(encs: Seq<i32>, prior: u8) -> u8
    decreases encs.len(),
{
    if encs.len() == 0 {
        prior
    } else if ENC_COMPRESS_LEVEL_0 <= encs.last() <= ENC_COMPRESS_LEVEL_0 + 9 {
        (encs.last() - ENC_COMPRESS_LEVEL_0) as u8
    } else {
        spec_compression_from(encs.drop_last(), prior)
    }
}

/// Per-client session state, updated by the reader and drained by the
/// writer.
pub struct SessionState {
    pub id: u64,
    pub encodings: Vec<i32>,
    pub pixel_format: Vec<u8>,
    pub requests_update: bool,
    pub requested_region: Rect,
    pub pending: Vec<Rect>,
    pub jpeg_quality: u8,
    pub compression: u8,
    pub shared: bool,
    pub last_flush_ms: u64,
    pub announced_w: u16,
    pub announced_h: u16,
}

impl SessionState {
    /// A fresh session before negotiation.
    pub fn new(id: u64) -> (r: SessionState)
        ensures
            r.id == id,
            r.encodings@.len() == 0,
            r.pixel_format@.len() == 0,
            !r.requests_update,
            r.pending@.len() == 0,
            r.jpeg_quality == DEFAULT_JPEG_QUALITY,
            r.compression == DEFAULT_COMPRESSION,
            !r.shared,
            r.last_flush_ms == 0,
            r.requested_region == (Rect { x: 0, y: 0, w: 0, h: 0 }),
            r.announced_w == 0 && r.announced_h == 0,
    {
        SessionState {
            id,
            encodings: Vec::new(),
            pixel_format: Vec::new(),
            requests_update: false,
            requested_region: Rect { x: 0, y: 0, w: 0, h: 0 },
            pending: Vec::new(),
            jpeg_quality: DEFAULT_JPEG_QUALITY,
            compression: DEFAULT_COMPRESSION,
            shared: false,
            last_flush_ms: 0,
            announced_w: 0,
            announced_h: 0,
        }
    }

    /// Whether the client negotiated encoding number `e`.
    pub fn wants_encoding(&self, e: i32) -> (r: bool)
        ensures
            r == self.encodings@.contains(e),
    {
        let mut i: usize = 0;
        while i < self.encodings.len()
            invariant
                i <= self.encodings@.len(),
                forall|j: int| 0 <= j < i ==> self.encodings@[j] != e,
            decreases self.encodings@.len() - i,
        {
            if self.encodings[i] == e {
                assert(self.encodings@.contains(e));
                return true;
            }
            i += 1;
        }
        assert(!self.encodings@.contains(e));
        false
    }

    /// Record a dirty rectangle for the next flush.
    pub fn add_pending(&mut self, r: Rect)
        ensures
            final(self).pending@ == old(self).pending@.push(r),
            final(self).id == old(self).id,
            final(self).encodings == old(self).encodings,
            final(self).requests_update == old(self).requests_update,
            final(self).requested_region == old(self).requested_region,
            final(self).jpeg_quality == old(self).jpeg_quality,
            final(self).compression == old(self).compression,
            final(self).last_flush_ms == old(self).last_flush_ms,
            final(self).pixel_format == old(self).pixel_format,
            final(self).shared == old(self).shared,
            final(self).announced_w == old(self).announced_w,
            final(self).announced_h == old(self).announced_h,
    {
        self.pending.push(r);
    }

    /// Apply one parsed client message: store what it negotiates, note
    /// an update request, and hand back exactly the event an input
    /// message carries.
    pub fn handle_message(&mut self, msg: &ClientMessage) -> (r: Option<ServerEvent>)
        ensures
            (match r {
                Some(e) => Some(e@),
                None => None,
            }) == spec_event_of(msg@, old(self).id),
            final(self).id == old(self).id,
            final(self).shared == old(self).shared,
            final(self).last_flush_ms == old(self).last_flush_ms,
            final(self).announced_w == old(self).announced_w,
            final(self).announced_h == old(self).announced_h,
            match msg@ {
                SpecMessage::SetPixelFormat { format } => {
                    &&& final(self).pixel_format@ == format
                    &&& final(self).encodings == old(self).encodings
                    &&& final(self).pending == old(self).pending
                    &&& final(self).requests_update == old(self).requests_update
                },
                SpecMessage::SetEncodings { encodings } => {
                    &&& final(self).encodings@ == encodings
                    &&& final(self).jpeg_quality == spec_quality_from(
                        encodings,
                        old(self).jpeg_quality,
                    )
                    &&& final(self).compression == spec_compression_from(
                        encodings,
                        old(self).compression,
                    )
                    &&& final(self).pending == old(self).pending
                    &&& final(self).requests_update == old(self).requests_update
                },
                SpecMessage::UpdateRequest { incremental, rect } => {
                    &&& final(self).requests_update
                    &&& final(self).requested_region == rect
                    &&& (incremental ==> final(self).pending == old(self).pending)
                    &&& (!incremental ==> final(self).pending@ == old(self).pending@.push(rect))
                    &&& final(self).encodings == old(self).encodings
                },
                _ => *final(self) == *old(self),
            },
    {
        match msg {
            ClientMessage::SetPixelFormat { format } => {
                self.pixel_format = vstd::slice::slice_to_vec(format.as_slice());
                None
            },
            ClientMessage::SetEncodings { encodings } => {
                let mut q: u8 = self.jpeg_quality;
                let mut c: u8 = self.compression;
                let mut i: usize = 0;
                while i < encodings.len()
                    invariant
                        i <= encodings@.len(),
                        q == spec_quality_from(encodings@.take(i as int), old(self).jpeg_quality),
                        c == spec_compression_from(
                            encodings@.take(i as int),
                            old(self).compression,
                        ),
                        self == old(self),
                    decreases encodings@.len() - i,
                {
                    let e: i32 = encodings[i];
                    if e >= ENC_QUALITY_LEVEL_0 && e <= ENC_QUALITY_LEVEL_0 + 9 {
                        let level: i32 = e - ENC_QUALITY_LEVEL_0;
                        q = (level * 10 + 5) as u8;
                    } else if e >= ENC_COMPRESS_LEVEL_0 && e <= ENC_COMPRESS_LEVEL_0 + 9 {
                        c = (e - ENC_COMPRESS_LEVEL_0) as u8;
                    }
                    proof {
                        assert(encodings@.take(i + 1 as int).drop_last() =~= encodings@.take(
                            i as int,
                        ));
                        assert(encodings@.take(i + 1 as int).last() == encodings@[i as int]);
                    }
                    i += 1;
                }
                proof {
                    assert(encodings@.take(encodings@.len() as int) =~= encodings@);
                }
                self.encodings = vec_i32_copy(encodings);
                self.jpeg_quality = q;
                self.compression = c;
                None
            },
            ClientMessage::UpdateRequest { incremental, rect } => {
                self.requests_update = true;
                self.requested_region = *rect;
                if !*incremental {
                    self.pending.push(*rect);
                }
                None
            },
            ClientMessage::KeyEvent { down, key } => {
                Some(ServerEvent::KeyPress { client_id: self.id, down: *down, key: *key })
            },
            ClientMessage::PointerEvent { buttons, x, y } => {
                Some(
                    ServerEvent::PointerMove {
                        client_id: self.id,
                        x: *x,
                        y: *y,
                        button_mask: *buttons,
                    },
                )
            },
            ClientMessage::CutText { text } => {
                Some(
                    ServerEvent::CutText {
                        client_id: self.id,
                        text: vstd::slice::slice_to_vec(text.as_slice()),
                    },
                )
            },
        }
    }

    /// Consume as many whole messages as the input holds, in order.
    /// On a well-formed stream every byte is consumed and exactly the
    /// stream's input events come back, in order; an unknown message
    /// type is a protocol error.
    pub fn process_input(&mut self, input: &[u8]) -> (r: Result<
        (Vec<ServerEvent>, usize),
        VncError,
    >)
        ensures
            final(self).id == old(self).id,
            r matches Ok(p) ==> p.1 <= input@.len(),
            spec_stream_wellformed(input@) ==> (r matches Ok(p) && p.0@.map_values(
                |e: ServerEvent| e@,
            ) == spec_session_events(input@, old(self).id) && p.1 == input@.len()),
            r is Err ==> r matches Err(
                VncError::ProtocolError { reason: ProtocolReason::BadMessageType },
            ),
    {
        let mut events: Vec<ServerEvent> = Vec::new();
        let mut pos: usize = 0;
        let ilen: usize = input.len();
        proof {
            assert(input@.skip(0) =~= input@);
            assert(events@.map_values(|e: ServerEvent| e@) =~= Seq::<SpecEvent>::empty());
            assert(Seq::<SpecEvent>::empty() + spec_session_events(input@, old(self).id)
                =~= spec_session_events(input@, old(self).id));
        }
        loop
            invariant
                ilen == input@.len(),
                pos <= input@.len(),
                self.id == old(self).id,
                spec_stream_wellformed(input@) ==> {
                    &&& spec_stream_wellformed(input@.skip(pos as int))
                    &&& spec_session_events(input@, old(self).id) == events@.map_values(
                        |e: ServerEvent| e@,
                    ) + spec_session_events(input@.skip(pos as int), old(self).id)
                },
            decreases input@.len() - pos,
        {
            let outcome = parse_message(input, pos);
            match outcome {
                ParseOutcome::Incomplete => {
                    proof {
                        if spec_stream_wellformed(input@) {
                            assert(input@.skip(pos as int).len() == 0);
                            assert(spec_session_events(input@.skip(pos as int), old(self).id)
                                =~= Seq::<SpecEvent>::empty());
                            assert(events@.map_values(|e: ServerEvent| e@) =~= spec_session_events(
                                input@,
                                old(self).id,
                            ));
                            assert(pos == input@.len());
                        }
                    }
                    return Ok((events, pos));
                },
                ParseOutcome::Malformed => {
                    return Err(
                        VncError::ProtocolError { reason: ProtocolReason::BadMessageType },
                    );
                },
                ParseOutcome::Parsed { consumed, msg } => {
                    let ev = self.handle_message(&msg);
                    proof {
                        let ghost s = input@.skip(pos as int);
                        assert(s.skip(consumed as int) =~= input@.skip(pos + consumed as int));
                    }
                    match ev {
                        Some(e) => {
                            proof {
                                assert(events@.push(e).map_values(|e2: ServerEvent| e2@)
                                    =~= events@.map_values(|e2: ServerEvent| e2@).push(e@));
                            }
                            events.push(e);
                        },
                        None => {},
                    }
                    pos = pos + consumed;
                },
            }
        }
    }

    /// Record the frame size the client was told at ServerInit, so a
    /// later resize is announced once.
    pub fn set_announced_size(&mut self, w: u16, h: u16)
        ensures
            final(self).announced_w == w,
            final(self).announced_h == h,
            final(self).id == old(self).id,
            final(self).encodings == old(self).encodings,
            final(self).pixel_format == old(self).pixel_format,
            final(self).requests_update == old(self).requests_update,
            final(self).requested_region == old(self).requested_region,
            final(self).pending == old(self).pending,
            final(self).jpeg_quality == old(self).jpeg_quality,
            final(self).compression == old(self).compression,
            final(self).shared == old(self).shared,
            final(self).last_flush_ms == old(self).last_flush_ms,
    {
        self.announced_w = w;
        self.announced_h = h;
    }

    /// The DesktopSize pseudo-rectangle a client that negotiated it
    /// receives once after each resize, before the next pixel update:
    /// one rectangle holding the new size and no payload.
    pub fn desktop_size_announcement(&mut self, fw: u16, fh: u16) -> (r: Option<Vec<u8>>)
        ensures
            (r is Some) == (old(self).encodings@.contains(crate::rfb::ENC_DESKTOP_SIZE) && (old(
                self,
            ).announced_w != fw || old(self).announced_h != fh)),
            r matches Some(b) ==> {
                &&& b@ == spec_update_hdr(1) + spec_rect_header(
                    Rect { x: 0, y: 0, w: fw, h: fh },
                    crate::rfb::ENC_DESKTOP_SIZE,
                )
                &&& final(self).announced_w == fw
                &&& final(self).announced_h == fh
            },
            r is None ==> *final(self) == *old(self),
            final(self).id == old(self).id,
            final(self).encodings == old(self).encodings,
            final(self).pixel_format == old(self).pixel_format,
            final(self).requests_update == old(self).requests_update,
            final(self).requested_region == old(self).requested_region,
            final(self).pending == old(self).pending,
            final(self).jpeg_quality == old(self).jpeg_quality,
            final(self).compression == old(self).compression,
            final(self).shared == old(self).shared,
            final(self).last_flush_ms == old(self).last_flush_ms,
    {
        if !(self.announced_w != fw || self.announced_h != fh) {
            return None;
        }
        if !self.wants_encoding(crate::rfb::ENC_DESKTOP_SIZE) {
            return None;
        }
        let mut out: Vec<u8> = Vec::new();
        out.push(0);
        out.push(0);
        push_u16_be(&mut out, 1);
        let rect = Rect { x: 0, y: 0, w: fw, h: fh };
        push_rect_header(&mut out, &rect, crate::rfb::ENC_DESKTOP_SIZE);
        proof {
            assert(out@ =~= spec_update_hdr(1) + spec_rect_header(
                rect,
                crate::rfb::ENC_DESKTOP_SIZE,
            ));
        }
        self.announced_w = fw;
        self.announced_h = fh;
        Some(out)
    }

    /// Whether the format the client set (if any) is the server's own.
    pub fn format_compatible(&self) -> (r: bool)
        ensures
            r == spec_format_compatible(*self),
    {
        if self.pixel_format.len() == 0 {
            return true;
        }
        if self.pixel_format.len() != 16 {
            proof {
                assert(self.pixel_format@.len() != crate::wire::spec_pixel_format_bytes().len());
                assert(self.pixel_format@ != crate::wire::spec_pixel_format_bytes());
            }
            return false;
        }
        let mut expected: Vec<u8> = Vec::new();
        crate::wire::push_pixel_format(&mut expected);
        let mut i: usize = 0;
        while i < 16
            invariant
                self.pixel_format@.len() == 16,
                expected@ == crate::wire::spec_pixel_format_bytes(),
                i <= 16,
                forall|j: int| 0 <= j < i ==> self.pixel_format@[j] == expected@[j],
            decreases 16 - i,
        {
            if self.pixel_format[i] != expected[i] {
                proof {
                    assert(self.pixel_format@ != crate::wire::spec_pixel_format_bytes());
                }
                return false;
            }
            i += 1;
        }
        proof {
            assert(self.pixel_format@ =~= crate::wire::spec_pixel_format_bytes());
        }
        true
    }

    /// The writer flushes when an update was requested, something is
    /// pending, and the pacing floor has elapsed.
    pub fn ready_to_flush(&self, now_ms: u64) -> (r: bool)
        ensures
            r == (self.requests_update && self.pending@.len() > 0 && now_ms
                >= self.last_flush_ms + MIN_UPDATE_INTERVAL_MS),
    {
        self.requests_update && self.pending.len() > 0 && (now_ms as u128) >= (
        self.last_flush_ms as u128) + (MIN_UPDATE_INTERVAL_MS as u128)
    }
}

/// The bounding box of two rectangles; an empty rectangle is the
/// identity.  Ends are capped at the coordinate range.
pub open spec fn spec_rect_union(a: Rect, b: Rect) -> Rect {
    if a.w == 0 || a.h == 0 {
        b
    } else if b.w == 0 || b.h == 0 {
        a
    } else {
        let x = if a.x <= b.x {
            a.x
        } else {
            b.x
        };
        let y = if a.y <= b.y {
            a.y
        } else {
            b.y
        };
        let xe = spec_end_cap(if a.x + a.w >= b.x + b.w {
            a.x + a.w
        } else {
            b.x + b.w
        });
        let ye = spec_end_cap(if a.y + a.h >= b.y + b.h {
            a.y + a.h
        } else {
            b.y + b.h
        });
        Rect { x, y, w: (xe - x) as u16, h: (ye - y) as u16 }
    }
}

/// Coordinate ends live in the 16-bit range.
pub open spec fn spec_end_cap(e: int) -> int {
    if e > 0xFFFF {
        0xFFFF
    } else {
        e
    }
}

/// The intersection of two rectangles; empty when they do not meet.
pub open spec fn spec_rect_intersect(a: Rect, b: Rect) -> Rect {
    let x = if a.x >= b.x {
        a.x
    } else {
        b.x
    };
    let y = if a.y >= b.y {
        a.y
    } else {
        b.y
    };
    let xe = if a.x + a.w <= b.x + b.w {
        a.x + a.w
    } else {
        b.x + b.w
    };
    let ye = if a.y + a.h <= b.y + b.h {
        a.y + a.h
    } else {
        b.y + b.h
    };
    Rect {
        x,
        y,
        w: (if xe > x {
            xe - x
        } else {
            0
        }) as u16,
        h: (if ye > y {
            ye - y
        } else {
            0
        }) as u16,
    }
}

/// The bounding box of a list of rectangles.
pub open spec fn spec_pending_bbox(rs: Seq<Rect>) -> Rect
    decreases rs.len(),
{
    if rs.len() == 0 {
        Rect { x: 0, y: 0, w: 0, h: 0 }
    } else {
        spec_rect_union(spec_pending_bbox(rs.drop_last()), rs.last())
    }
}

/// The bounding box of two rectangles.
pub fn rect_union(a: &Rect, b: &Rect) -> (r: Rect)
    ensures
        r == spec_rect_union(*a, *b),
{
    if a.w == 0 || a.h == 0 {
        return *b;
    }
    if b.w == 0 || b.h == 0 {
        return *a;
    }
    let x: u32 = if a.x <= b.x {
        a.x as u32
    } else {
        b.x as u32
    };
    let y: u32 = if a.y <= b.y {
        a.y as u32
    } else {
        b.y as u32
    };
    let ae: u32 = a.x as u32 + a.w as u32;
    let be: u32 = b.x as u32 + b.w as u32;
    let mut xe: u32 = if ae >= be {
        ae
    } else {
        be
    };
    if xe > 0xFFFF {
        xe = 0xFFFF;
    }
    let ah: u32 = a.y as u32 + a.h as u32;
    let bh: u32 = b.y as u32 + b.h as u32;
    let mut ye: u32 = if ah >= bh {
        ah
    } else {
        bh
    };
    if ye > 0xFFFF {
        ye = 0xFFFF;
    }
    Rect { x: x as u16, y: y as u16, w: (xe - x) as u16, h: (ye - y) as u16 }
}

/// The intersection of two rectangles.
pub fn rect_intersect(a: &Rect, b: &Rect) -> (r: Rect)
    ensures
        r == spec_rect_intersect(*a, *b),
{
    let x: u32 = if a.x >= b.x {
        a.x as u32
    } else {
        b.x as u32
    };
    let y: u32 = if a.y >= b.y {
        a.y as u32
    } else {
        b.y as u32
    };
    let ae: u32 = a.x as u32 + a.w as u32;
    let be: u32 = b.x as u32 + b.w as u32;
    let xe: u32 = if ae <= be {
        ae
    } else {
        be
    };
    let ah: u32 = a.y as u32 + a.h as u32;
    let bh: u32 = b.y as u32 + b.h as u32;
    let ye: u32 = if ah <= bh {
        ah
    } else {
        bh
    };
    let w: u32 = if xe > x {
        xe - x
    } else {
        0
    };
    let h: u32 = if ye > y {
        ye - y
    } else {
        0
    };
    Rect { x: x as u16, y: y as u16, w: w as u16, h: h as u16 }
}

/// The bytes of one rectangle of the frame, row-major, 4 per pixel.
pub open spec fn spec_rect_bytes(data: Seq<u8>, fw: int, rect: Rect) -> Seq<u8> {
    Seq::new(
        (rect.w * rect.h * 4) as nat,
        |j: int|
            data[byte_index(
                fw,
                rect.y + j / (4 * rect.w),
                rect.x + (j % (4 * rect.w)) / 4,
                j % 4,
            )],
    )
}

/// Copy one rectangle of the frame out, row-major.
pub fn extract_rect(data: &Vec<u8>, fw: u16, fh: u16, rect: &Rect) -> (r: Vec<u8>)
    requires
        1 <= fw <= 8192,
        1 <= fh <= 8192,
        data@.len() == fw * fh * 4,
        rect.spec_inside(fw, fh),
        rect.spec_nonempty(),
    ensures
        r@ == spec_rect_bytes(data@, fw as int, *rect),
        r@.len() == rect.w * rect.h * 4,
{
    let rw: u16 = rect.w;
    let rh: u16 = rect.h;
    let mut out: Vec<u8> = Vec::new();
    let mut py: usize = 0;
    while py < rh as usize
        invariant
            1 <= fw <= 8192 && 1 <= fh <= 8192,
            data@.len() == fw * fh * 4,
            rect.spec_inside(fw, fh),
            rw == rect.w && rh == rect.h,
            1 <= rw && 1 <= rh,
            py <= rh,
            out@.len() == byte_index(rw as int, py as int, 0, 0),
            forall|j: int|
                0 <= j < out@.len() ==> out@[j] == spec_rect_bytes(data@, fw as int, *rect)[j],
        decreases rh - py,
    {
        let mut px: usize = 0;
        while px < rw as usize
            invariant
                1 <= fw <= 8192 && 1 <= fh <= 8192,
                data@.len() == fw * fh * 4,
                rect.spec_inside(fw, fh),
                rw == rect.w && rh == rect.h,
                1 <= rw && 1 <= rh,
                py < rh,
                px <= rw,
                out@.len() == byte_index(rw as int, py as int, px as int, 0),
                forall|j: int|
                    0 <= j < out@.len() ==> out@[j] == spec_rect_bytes(data@, fw as int, *rect)[j],
            decreases rw - px,
        {
            let mut k: usize = 0;
            while k < 4
                invariant
                    1 <= fw <= 8192 && 1 <= fh <= 8192,
                    data@.len() == fw * fh * 4,
                    rect.spec_inside(fw, fh),
                    rw == rect.w && rh == rect.h,
                    1 <= rw && 1 <= rh,
                    py < rh,
                    px < rw,
                    k <= 4,
                    out@.len() == byte_index(rw as int, py as int, px as int, k as int),
                    forall|j: int|
                        0 <= j < out@.len() ==> out@[j] == spec_rect_bytes(
                            data@,
                            fw as int,
                            *rect,
                        )[j],
                decreases 4 - k,
            {
                proof {
                    assert(fw * fh * 4 <= 8192 * 8192 * 4) by (nonlinear_arith)
                        requires
                            fw <= 8192,
                            fh <= 8192,
                    ;
                    lemma_byte_index_coords(rw as int, py as int, px as int, k as int);
                    lemma_byte_index_range(rw as int, rh as int, py as int, px as int, k as int);
                }
                let v: u8 = data[crate::geom::byte_offset(
                    fw as usize,
                    fh as usize,
                    rect.y as usize + py,
                    rect.x as usize + px,
                    k,
                )];
                proof {
                    assert(spec_rect_bytes(data@, fw as int, *rect)[out@.len() as int] == v);
                }
                out.push(v);
                k += 1;
            }
            proof {
                assert(byte_index(rw as int, py as int, px as int, 4) == byte_index(
                    rw as int,
                    py as int,
                    px + 1 as int,
                    0,
                ));
            }
            px += 1;
        }
        proof {
            assert(byte_index(rw as int, py as int, rw as int, 0) == byte_index(
                rw as int,
                py + 1 as int,
                0,
                0,
            )) by (nonlinear_arith);
        }
        py += 1;
    }
    proof {
        assert(byte_index(rw as int, rh as int, 0, 0) == rw * rh * 4) by (nonlinear_arith);
        assert(out@ =~= spec_rect_bytes(data@, fw as int, *rect));
    }
    out
}

/// The client's pixel format accepts the server's fixed 32-bpp BGRX
/// layout: either it never set one, or it set exactly that format.
/// Under any other format Tight rectangles are refused and Raw is sent.
pub open spec fn spec_format_compatible(s: SessionState) -> bool {
    s.pixel_format@.len() == 0 || s.pixel_format@ == crate::wire::spec_pixel_format_bytes()
}

/// The two pad-and-count bytes after the FramebufferUpdate type byte.
pub open spec fn spec_update_hdr(n: int) -> Seq<u8> {
    seq![0u8, 0u8] + spec_u16_be(n as u16)
}

/// A scroll candidate the flush can turn into a CopyRect: a vertical
/// whole-width shift whose destination spans the rest of the frame.
pub open spec fn spec_scroll_usable(c: ScrollCandidate, fw: u16, fh: u16) -> bool {
    &&& c.dx == 0
    &&& c.rect.x == 0
    &&& c.rect.w == fw
    &&& c.rect.h >= 1
    &&& (c.dy > 0 ==> c.rect.y == c.dy && c.rect.y + c.rect.h == fh)
    &&& (c.dy < 0 ==> c.rect.y == 0 && c.rect.h < fh && c.rect.h + (-c.dy) == fh)
    &&& c.dy != 0
}

/// The rows a usable scroll does not cover: freshly exposed content.
pub open spec fn spec_scroll_remainder(c: ScrollCandidate, fw: u16, fh: u16) -> Rect {
    if c.dy > 0 {
        Rect { x: 0, y: 0, w: fw, h: c.dy as u16 }
    } else {
        Rect { x: 0, y: c.rect.h, w: fw, h: (fh - c.rect.h) as u16 }
    }
}

/// The region a flush without a scroll sends: the bounding box of the
/// pending rectangles, cut to the requested region and the frame.
pub open spec fn spec_flush_region(s: SessionState, fw: u16, fh: u16) -> Rect {
    spec_rect_intersect(
        spec_rect_intersect(spec_pending_bbox(s.pending@), s.requested_region),
        Rect { x: 0, y: 0, w: fw, h: fh },
    )
}

/// The encoding number a pixel rectangle is sent with.
pub open spec fn spec_pix_encoding(use_tight: bool) -> i32 {
    if use_tight {
        ENC_TIGHT
    } else {
        ENC_RAW
    }
}

/// The whole FramebufferUpdate message of one flush.
pub open spec fn spec_flush_form(
    s: SessionState,
    fb: Framebuffer,
    scroll: Option<ScrollCandidate>,
    b: Seq<u8>,
) -> bool {
    match scroll {
        Some(c) => if s.encodings@.contains(ENC_COPYRECT) && spec_scroll_usable(
            c,
            fb.width,
            fb.height,
        ) {
            let rem = spec_scroll_remainder(c, fb.width, fb.height);
            let head = spec_update_hdr(2) + spec_rect_header(c.rect, ENC_COPYRECT) + spec_u16_be(
                (c.rect.x - c.dx) as u16,
            ) + spec_u16_be((c.rect.y - c.dy) as u16);
            if s.encodings@.contains(ENC_TIGHT) && spec_format_compatible(s) {
                exists|p: Seq<u8>|
                    #![trigger spec_tight_outcome(spec_rect_bytes(fb.data@, fb.width as int, rem), rem.w as int, rem.h as int, s.jpeg_quality, s.compression, p)]
                    spec_tight_outcome(
                        spec_rect_bytes(fb.data@, fb.width as int, rem),
                        rem.w as int,
                        rem.h as int,
                        s.jpeg_quality,
                        s.compression,
                        p,
                    ) && b == head + spec_rect_header(rem, ENC_TIGHT) + p
            } else {
                b == head + spec_rect_header(rem, ENC_RAW) + spec_rect_bytes(
                    fb.data@,
                    fb.width as int,
                    rem,
                )
            }
        } else {
            spec_flush_plain(s, fb, b)
        },
        None => spec_flush_plain(s, fb, b),
    }
}

/// The flush message when no CopyRect is sent.
pub open spec fn spec_flush_plain(s: SessionState, fb: Framebuffer, b: Seq<u8>) -> bool {
    let region = spec_flush_region(s, fb.width, fb.height);
    if region.w > 0 && region.h > 0 {
        if s.encodings@.contains(ENC_TIGHT) && spec_format_compatible(s) {
            exists|p: Seq<u8>|
                #![trigger spec_tight_outcome(spec_rect_bytes(fb.data@, fb.width as int, region), region.w as int, region.h as int, s.jpeg_quality, s.compression, p)]
                spec_tight_outcome(
                    spec_rect_bytes(fb.data@, fb.width as int, region),
                    region.w as int,
                    region.h as int,
                    s.jpeg_quality,
                    s.compression,
                    p,
                ) && b == spec_update_hdr(1) + spec_rect_header(region, ENC_TIGHT) + p
        } else {
            b == spec_update_hdr(1) + spec_rect_header(region, ENC_RAW) + spec_rect_bytes(
                fb.data@,
                fb.width as int,
                region,
            )
        }
    } else {
        b == spec_update_hdr(0)
    }
}

impl SessionState {
    /// Build the FramebufferUpdate for everything pending, and clear
    /// the request and the pending region.  Yields nothing when the
    /// flush conditions do not hold.
    #[verifier::rlimit(60)]
    pub fn take_flush(&mut self, fb: &Framebuffer, scroll: Option<ScrollCandidate>, now_ms: u64)
        -> (r: Option<Vec<u8>>)
        requires
            fb.wf(),
        ensures
            r is None ==> *final(self) == *old(self) && !(old(self).requests_update && old(
                self,
            ).pending@.len() > 0 && now_ms >= old(self).last_flush_ms + MIN_UPDATE_INTERVAL_MS),
            r matches Some(b) ==> {
                &&& old(self).requests_update
                &&& old(self).pending@.len() > 0
                &&& now_ms >= old(self).last_flush_ms + MIN_UPDATE_INTERVAL_MS
                &&& spec_flush_form(*old(self), *fb, scroll, b@)
                &&& !final(self).requests_update
                &&& final(self).pending@.len() == 0
                &&& final(self).last_flush_ms == now_ms
                &&& final(self).id == old(self).id
                &&& final(self).encodings == old(self).encodings
                &&& final(self).requested_region == old(self).requested_region
                &&& final(self).jpeg_quality == old(self).jpeg_quality
                &&& final(self).compression == old(self).compression
                &&& final(self).shared == old(self).shared
                &&& final(self).pixel_format == old(self).pixel_format
                &&& final(self).announced_w == old(self).announced_w
                &&& final(self).announced_h == old(self).announced_h
            },
    {
        if !self.ready_to_flush(now_ms) {
            return None;
        }
        let fw: u16 = fb.get_width();
        let fh: u16 = fb.get_height();
        let use_tight: bool = self.wants_encoding(ENC_TIGHT) && self.format_compatible();
        let enc: i32 = if use_tight {
            ENC_TIGHT
        } else {
            ENC_RAW
        };
        let use_cr: bool = self.wants_encoding(ENC_COPYRECT);
        let out: Vec<u8> = match scroll {
            Some(c) => {
                if use_cr && scroll_usable(&c, fw, fh) {
                    let rem: Rect = if c.dy > 0 {
                        Rect { x: 0, y: 0, w: fw, h: c.dy as u16 }
                    } else {
                        Rect { x: 0, y: c.rect.h, w: fw, h: fh - c.rect.h }
                    };
                    let mut o: Vec<u8> = Vec::new();
                    o.push(0);
                    o.push(0);
                    push_u16_be(&mut o, 2);
                    push_rect_header(&mut o, &c.rect, ENC_COPYRECT);
                    let sx: u16 = ((c.rect.x as i32) - (c.dx as i32)) as u16;
                    let sy: u16 = ((c.rect.y as i32) - (c.dy as i32)) as u16;
                    push_u16_be(&mut o, sx);
                    push_u16_be(&mut o, sy);
                    push_rect_header(&mut o, &rem, enc);
                    let tile: Vec<u8> = extract_rect(fb.bytes(), fw, fh, &rem);
                    let payload: Vec<u8> = if use_tight {
                        let t = TightEncoding;
                        t.encode(
                            tile.as_slice(),
                            rem.w,
                            rem.h,
                            self.jpeg_quality,
                            self.compression,
                        )
                    } else {
                        tile
                    };
                    crate::wire::push_bytes(&mut o, payload.as_slice());
                    proof {
                        assert(rem == spec_scroll_remainder(c, fb.width, fb.height));
                        assert(spec_scroll_usable(c, fb.width, fb.height));
                        assert(tile@ == spec_rect_bytes(fb.data@, fb.width as int, rem));
                        if use_tight {
                            assert(spec_tight_outcome(
                                spec_rect_bytes(fb.data@, fb.width as int, rem),
                                rem.w as int,
                                rem.h as int,
                                self.jpeg_quality,
                                self.compression,
                                payload@,
                            ));
                        }
                        assert(o@ =~= spec_update_hdr(2) + spec_rect_header(c.rect, ENC_COPYRECT)
                            + spec_u16_be((c.rect.x - c.dx) as u16) + spec_u16_be(
                            (c.rect.y - c.dy) as u16,
                        ) + spec_rect_header(rem, spec_pix_encoding(use_tight)) + payload@);
                        assert(spec_flush_form(*self, *fb, scroll, o@));
                    }
                    o
                } else {
                    let o = build_plain(self, fb, use_tight, fw, fh);
                    proof {
                        assert(spec_flush_form(*self, *fb, scroll, o@));
                    }
                    o
                }
            },
            None => {
                let o = build_plain(self, fb, use_tight, fw, fh);
                proof {
                    assert(spec_flush_form(*self, *fb, scroll, o@));
                }
                o
            },
        };
        self.requests_update = false;
        self.pending = Vec::new();
        self.last_flush_ms = now_ms;
        Some(out)
    }
}

/// The flush message when no CopyRect is sent: one encoded rectangle
/// for the pending region, or an empty update.
fn build_plain(s: &SessionState, fb: &Framebuffer, use_tight: bool, fw: u16, fh: u16) -> (r: Vec<
    u8,
>)
    requires
        fb.wf(),
        fw == fb.width,
        fh == fb.height,
        use_tight == (s.encodings@.contains(ENC_TIGHT) && spec_format_compatible(*s)),
    ensures
        spec_flush_plain(*s, *fb, r@),
{
    let enc: i32 = if use_tight {
        ENC_TIGHT
    } else {
        ENC_RAW
    };
    let mut out: Vec<u8> = Vec::new();
    let bbox: Rect = pending_bbox(&s.pending);
    let clipped: Rect = rect_intersect(&bbox, &s.requested_region);
    let frame: Rect = Rect { x: 0, y: 0, w: fw, h: fh };
    let region: Rect = rect_intersect(&clipped, &frame);
    if region.w > 0 && region.h > 0 {
        out.push(0);
        out.push(0);
        push_u16_be(&mut out, 1);
        push_rect_header(&mut out, &region, enc);
        proof {
            assert(region.spec_inside(fw, fh));
        }
        let tile: Vec<u8> = extract_rect(fb.bytes(), fw, fh, &region);
        let payload: Vec<u8> = if use_tight {
            let t = TightEncoding;
            t.encode(tile.as_slice(), region.w, region.h, s.jpeg_quality, s.compression)
        } else {
            tile
        };
        crate::wire::push_bytes(&mut out, payload.as_slice());
        proof {
            assert(tile@ == spec_rect_bytes(fb.data@, fb.width as int, region));
            if use_tight {
                assert(spec_tight_outcome(
                    spec_rect_bytes(fb.data@, fb.width as int, region),
                    region.w as int,
                    region.h as int,
                    s.jpeg_quality,
                    s.compression,
                    payload@,
                ));
            }
            assert(out@ =~= spec_update_hdr(1) + spec_rect_header(
                region,
                spec_pix_encoding(use_tight),
            ) + payload@);
            assert(spec_flush_plain(*s, *fb, out@));
        }
    } else {
        out.push(0);
        out.push(0);
        push_u16_be(&mut out, 0);
        proof {
            assert(out@ =~= spec_update_hdr(0));
            assert(spec_flush_plain(*s, *fb, out@));
        }
    }
    out
}

/// Whether a scroll candidate has the vertical whole-width shape the
/// flush can use.
fn scroll_usable(c: &ScrollCandidate, fw: u16, fh: u16) -> (r: bool)
    ensures
        r == spec_scroll_usable(*c, fw, fh),
{
    c.dx == 0 && c.rect.x == 0 && c.rect.w == fw && c.rect.h >= 1 && c.dy != 0 && (if c.dy > 0 {
        c.rect.y as i32 == c.dy as i32 && c.rect.y as u32 + c.rect.h as u32 == fh as u32
    } else {
        c.rect.y == 0 && c.rect.h < fh && (c.rect.h as i32) + ((-(c.dy as i32))) == fh as i32
    })
}

/// The bounding box of the pending rectangles.
fn pending_bbox(rs: &Vec<Rect>) -> (r: Rect)
    ensures
        r == spec_pending_bbox(rs@),
{
    let mut acc: Rect = Rect { x: 0, y: 0, w: 0, h: 0 };
    let mut i: usize = 0;
    while i < rs.len()
        invariant
            i <= rs@.len(),
            acc == spec_pending_bbox(rs@.take(i as int)),
        decreases rs@.len() - i,
    {
        acc = rect_union(&acc, &rs[i]);
        proof {
            assert(rs@.take(i + 1 as int).drop_last() =~= rs@.take(i as int));
            assert(rs@.take(i + 1 as int).last() == rs@[i as int]);
        }
        i += 1;
    }
    proof {
        assert(rs@.take(rs@.len() as int) =~= rs@);
    }
    acc
}

/// Copy a list of encoding numbers.
fn vec_i32_copy(v: &Vec<i32>) -> (r: Vec<i32>)
    ensures
        r@ == v@,
{
    let mut out: Vec<i32> = Vec::new();
    let mut i: usize = 0;
    while i < v.len()
        invariant
            i <= v@.len(),
            out@ == v@.take(i as int),
        decreases v@.len() - i,
    {
        out.push(v[i]);
        proof {
            assert(out@ =~= v@.take(i + 1 as int));
        }
        i += 1;
    }
    proof {
        assert(v@.take(v@.len() as int) =~= v@);
    }
    out
}

} // verus!
