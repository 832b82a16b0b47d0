//! RFB protocol constants, shared data types and the error kind.

use vstd::prelude::*;

verus! {

/// Raw encoding: pixels sent verbatim.
pub const ENC_RAW: i32 = 0;
/// CopyRect encoding: refer to a prior on-screen rectangle.
pub const ENC_COPYRECT: i32 = 1;
/// Tight encoding: content-adaptive sub-encodings.
pub const ENC_TIGHT: i32 = 7;
/// DesktopSize pseudo-encoding: announces a framebuffer resize.
pub const ENC_DESKTOP_SIZE: i32 = -223;
/// LastRect pseudo-encoding.
pub const ENC_LAST_RECT: i32 = -224;
/// Cursor pseudo-encoding.
pub const ENC_CURSOR: i32 = -239;
/// Lowest compression-level pseudo-encoding (level 0).
pub const ENC_COMPRESS_LEVEL_0: i32 = -256;
/// Lowest quality-level pseudo-encoding (level 0).
pub const ENC_QUALITY_LEVEL_0: i32 = -32;

/// Security type: no authentication.
pub const SEC_NONE: u8 = 1;
/// Security type: classic VNC authentication.
pub const SEC_VNC_AUTH: u8 = 2;

/// Smallest accepted framebuffer axis.
pub const MIN_DIMENSION: u16 = 1;
/// Largest accepted framebuffer axis.
pub const MAX_DIMENSION: u16 = 8192;

/// An axis-aligned rectangle in framebuffer coordinates.
#[derive(Clone, Copy, PartialEq, Eq, Structural, Debug)]
pub struct Rect {
    pub x: u16,
    pub y: u16,
    pub w: u16,
    pub h: u16,
}

impl Rect {
    /// The rectangle lies wholly inside a `width` by `height` frame.
    pub open spec fn spec_inside(self, width: u16, height: u16) -> bool {
        self.x + self.w <= width && self.y + self.h <= height
    }

    /// The rectangle covers at least one pixel.
    pub open spec fn spec_nonempty(self) -> bool {
        self.w > 0 && self.h > 0
    }
}

/// Error kinds surfaced by the core.  Every per-session error is local:
/// the supervisor survives any session's failure.
#[derive(Debug)]
pub enum VncError {
    /// A dimension is outside `MIN_DIMENSION ..= MAX_DIMENSION`.
    InvalidDimensions,
    /// A pixel buffer length is inconsistent with the declared geometry.
    SizeMismatch,
    /// A malformed client message or an unsupported security type.
    ProtocolError { reason: ProtocolReason },
    /// Wrong password: the challenge response did not verify.
    AuthFailed,
    /// A socket failure reported by the transport; never raised by this crate.
    IoError,
    /// An encoder fallback was exhausted; never surfaced to the client.
    EncoderError,
}

/// The reason carried by `VncError::ProtocolError`.
#[derive(Clone, Copy, PartialEq, Eq, Structural, Debug)]
pub enum ProtocolReason {
    /// The 12-byte version string is not an accepted RFB version.
    BadVersion,
    /// The client chose a security type the server did not offer.
    BadSecurityType,
    /// A client message carries an unknown message type byte.
    BadMessageType,
    /// A field value is outside its allowed range.
    BadValue,
    /// The repeater id does not fit its fixed field.
    BadRepeaterId,
}

impl VncError {
    /// A short stable name for the error kind.
    pub fn kind_name(&self) -> (r: &'static str)
    {
        match self {
            VncError::InvalidDimensions => "InvalidDimensions",
            VncError::SizeMismatch => "SizeMismatch",
            VncError::ProtocolError { .. } => "ProtocolError",
            VncError::AuthFailed => "AuthFailed",
            VncError::IoError => "IoError",
            VncError::EncoderError => "EncoderError",
        }
    }
}

/// An input event or lifecycle change emitted by a session towards the
/// supervisor and surfaced to the embedding.
pub enum ServerEvent {
    ClientConnected { client_id: u64 },
    ClientDisconnected { client_id: u64 },
    KeyPress { client_id: u64, down: bool, key: u32 },
    PointerMove { client_id: u64, x: u16, y: u16, button_mask: u8 },
    CutText { client_id: u64, text: Vec<u8> },
}

} // verus!
