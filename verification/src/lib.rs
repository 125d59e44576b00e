//! Streaming frame codec for noisy point-to-point byte links.
//!
//! Frames on the wire are `selector | length | payload | crc | 0x03`, where the
//! selector byte (`0x02` or `0x03`) fixes the width of the length field and the
//! CRC is CRC-16/XMODEM over the payload alone.  The decoder accumulates bytes
//! in a fixed-capacity buffer, locates frame boundaries in possibly corrupted
//! input by advancing one byte at a time past junk, and hands every validated
//! payload to the caller.  The encoder serialises a payload into the same
//! format.

use vstd::prelude::*;

pub mod checksum;
pub mod decoder;
pub mod encoder;
pub mod format;
pub mod laws;

pub use decoder::BinCrc;
pub use format::DecoderModel;
pub use format::DrainOut;
pub use format::ScanStep;

verus! {

/// Errors of the encoding path.  The decoder never reports errors: malformed
/// input is absorbed by resynchronisation.
#[derive(Debug, Clone, Copy, PartialEq, Eq, Structural)]
pub enum BinCrcError {
    /// The payload length cannot be represented within this codec's capacity.
    InvalidLength,
    /// The destination buffer is smaller than the encoded frame.
    NotEnoughSpace,
    /// The payload length lies outside the encodable range.
    TooBig,
}

} // verus!
