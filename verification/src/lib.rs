//! Decoder for instrument query responses carried over a byte stream.
//!
//! A response is either a line of text or a definite-length binary block
//! (`#`, a digit count, a decimal length, the payload, a line terminator).
//! [`KsHook::read`] decodes one response from a stream held in memory;
//! [`Phase`] drives the same decisions for a caller that owns a live stream.

pub mod data;
pub mod error;
pub mod framing;
pub mod hook;
pub mod length;
pub mod line;
pub mod session;
pub mod stream;
pub mod text;
pub mod wire;

pub use data::{KsData, KsValue};
pub use error::DecodeError;
pub use hook::KsHook;
pub use line::remove_newline;
pub use session::{Phase, Request, Step};
pub use stream::ByteStream;
