//! The payload checksum: CRC-16/XMODEM, supplied by an outside implementation.

use vstd::prelude::*;

verus! {

/// The CRC-16/XMODEM value of a byte sequence (polynomial 0x1021, no
/// reflection, initial value 0).  The value is a function of the bytes alone;
/// its definition is left to the outside implementation that computes it.
pub uninterp spec fn crc16_xmodem(data: Seq<u8>) -> u16;

/// Relies on `crc16::State::<crc16::XMODEM>::calculate`: the CRC-16/XMODEM
/// checksum of the given bytes, a pure function of its input.
#[verifier::external_body]
pub(crate) fn crc16_of(data: &[u8]) -> (r: u16)
    ensures
        r == crc16_xmodem(data@),
{
    crc16::State::<crc16::XMODEM>::calculate(data)
}

} // verus!
