//! Core of a Remote Framebuffer (RFB, "VNC") implementation: the wire codec,
//! the connection handshakes, the ZRLE decoder, the client event pump, the
//! passive proxy rules and the server-side framing helper.
//!
//! Nothing in this crate touches a socket. Every function works on byte
//! buffers and plain values; the code that owns the connection feeds bytes in
//! and writes out the bytes that it is handed.

pub mod agreement;
pub mod client;
pub mod error;
pub mod rect;
pub mod security;
pub mod wire;
pub mod protocol;
pub mod proxy;
pub mod server;
pub mod zrle;

pub use client::Client;
pub use error::{Error, ErrorView, IoError};
pub use protocol::{Colour, Encoding, PixelFormat};
pub use rect::Rect;
