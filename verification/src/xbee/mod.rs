//! Parsing of XBee API frames.
//!
//! A frame on the wire is the start delimiter `0x7E`, a big-endian 16-bit
//! length `n`, `n` bytes of frame data and one checksum byte. The checksum is
//! chosen so that the low byte of the sum of the frame data and the checksum
//! is `0xFF`.
pub mod checksum;
pub mod error;
pub mod frame;
pub mod payload;
pub mod frames;
pub mod api;
