//! A Remote Framebuffer (RFB/VNC) server core.
//!
//! The crate holds the protocol logic of a VNC server: wire primitives,
//! pixel encoders (Raw and Tight with solid, indexed-palette and JPEG
//! sub-encodings), the shared framebuffer with dirty-region tracking and
//! scroll detection, the per-client protocol state machine, the session
//! flush planner, and the server supervisor state.  Socket handling and
//! the embedding boundary live outside this crate and hand plain values
//! in and out.

pub mod rfb;
pub mod wire;
pub mod geom;
pub mod framebuffer;
pub mod pixel;
pub mod zlib;
pub mod jpeg;
pub mod tight;
pub mod raw;
pub mod des;
pub mod auth;
pub mod protocol;
pub mod session;
pub mod server;
