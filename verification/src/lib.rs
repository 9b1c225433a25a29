//! A binary buffer that turns fixed-width integers into bytes and back.
//!
//! Values are appended in a chosen byte order, the buffer is flipped once,
//! and the values are then taken out again in the order in which they went in.

pub mod binary_stream;
pub mod encoding;
pub mod laws;

pub use binary_stream::{BinaryStream, ByteOrder, StreamError};
