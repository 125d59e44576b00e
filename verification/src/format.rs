//! The wire format and the mathematical model of decoding.
//!
//! A frame is `selector | length | payload | crc | 0x03`.  The selector byte
//! doubles as the header width: selector `0x02` is followed by a one-byte
//! length (so the header is 2 bytes), selector `0x03` by a big-endian two-byte
//! length (3 bytes of header).  Selector `0x04` is reserved and always
//! rejected.  The CRC is CRC-16/XMODEM over the payload, stored big-endian.

use vstd::prelude::*;
use crate::checksum::crc16_xmodem;

verus! {

/// The value of two bytes read big-endian.
pub open spec fn be16(hi: u8, lo: u8) -> int {
    hi as int * 256 + lo as int
}

/// Outcome of inspecting pending bytes `d` for one frame starting at their
/// first byte, against a buffer capacity of `cap` bytes.
pub enum ScanStep {
    /// `need` further bytes must arrive before the decision can advance.
    NeedMore { need: nat },
    /// The first byte of `d` cannot start a valid frame; the caller skips it.
    Invalid,
    /// A complete valid frame: `count` wire bytes carrying `payload`.
    Frame { count: nat, payload: Seq<u8> },
}

/// One scanning decision, mirroring the order of the checks the decoder makes:
/// selector, length encoding, capacity, completeness, terminator, checksum.
pub open spec fn scan(d: Seq<u8>, cap: nat) -> ScanStep {
    if d.len() == 0 {
        ScanStep::NeedMore { need: 1 }
    } else if d[0] != 2 && d[0] != 3 {
        // unknown selectors and the reserved oversized selector 4
        ScanStep::Invalid
    } else if d.len() < d[0] as int {
        ScanStep::NeedMore { need: (d[0] as int - d.len()) as nat }
    } else {
        // the selector value equals the header length
        let h = d[0] as int;
        let l: int = if d[0] == 2 { d[1] as int } else { be16(d[1], d[2]) };
        if d[0] == 2 && l == 0 {
            ScanStep::Invalid
        } else if d[0] == 3 && l < 255 {
            // lengths below 255 must use the one-byte form
            ScanStep::Invalid
        } else if l > cap {
            // the frame could never fit in the buffer
            ScanStep::Invalid
        } else if d.len() < l + h + 3 {
            ScanStep::NeedMore { need: (l + h + 3 - d.len()) as nat }
        } else if d[h + l + 2] != 3 {
            ScanStep::Invalid
        } else if be16(d[h + l], d[h + l + 1]) != crc16_xmodem(d.subrange(h, h + l)) as int {
            ScanStep::Invalid
        } else {
            ScanStep::Frame { count: (h + l + 3) as nat, payload: d.subrange(h, h + l) }
        }
    }
}

/// What repeated scanning extracts from pending bytes `d`: the payloads of the
/// frames found (in order), the bytes still pending afterwards, and the number
/// of further bytes the last scan asked for.
pub struct DrainOut {
    pub frames: Seq<Seq<u8>>,
    pub rest: Seq<u8>,
    pub left: nat,
}

/// Scan at the front of `d`; skip one byte on rejection, a whole frame on
/// success; stop when more input is needed.
pub open spec fn drain(d: Seq<u8>, cap: nat) -> DrainOut
    decreases d.len(),
{
    match scan(d, cap) {
        ScanStep::NeedMore { need } => DrainOut { frames: seq![], rest: d, left: need },
        ScanStep::Invalid => drain(d.skip(1), cap),
        ScanStep::Frame { count, payload } => {
            if 0 < count <= d.len() {
                let r = drain(d.skip(count as int), cap);
                DrainOut { frames: seq![payload] + r.frames, rest: r.rest, left: r.left }
            } else {
                // unreachable: a scanned frame always lies within `d`
                DrainOut { frames: seq![], rest: seq![], left: 0 }
            }
        },
    }
}

/// The decoder state as contracts see it: the buffered bytes between the read
/// and write cursors, and the cached count of bytes still needed before the
/// scanner can make progress.
pub struct DecoderModel {
    pub pending: Seq<u8>,
    pub left: nat,
}

/// A freshly constructed decoder: nothing buffered, scan at the next byte.
pub open spec fn init_model() -> DecoderModel {
    DecoderModel { pending: seq![], left: 0 }
}

/// What accepting one byte does: the new state and the payloads emitted.
///
/// A saturated buffer is discarded wholesale and restarted with the incoming
/// byte.  When a previous scan already knows that more than one byte is still
/// missing, the byte is only buffered.  Otherwise the scanner runs over the
/// pending bytes until it needs more input; an emptied buffer clears the hint.
pub open spec fn eat_model(m: DecoderModel, byte: u8, cap: nat) -> (DecoderModel, Seq<Seq<u8>>) {
    if m.pending.len() >= cap {
        (DecoderModel { pending: seq![byte], left: 0 }, seq![])
    } else if m.left > 1 {
        (DecoderModel { pending: m.pending.push(byte), left: (m.left - 1) as nat }, seq![])
    } else {
        let r = drain(m.pending.push(byte), cap);
        (
            DecoderModel {
                pending: r.rest,
                left: if r.rest.len() == 0 { 0 } else { r.left },
            },
            r.frames,
        )
    }
}

/// Accepting a whole sequence of bytes, one at a time, collecting every
/// emitted payload in order.
pub open spec fn feed_model(m: DecoderModel, bytes: Seq<u8>, cap: nat) -> (DecoderModel, Seq<
    Seq<u8>,
>)
    decreases bytes.len(),
{
    if bytes.len() == 0 {
        (m, seq![])
    } else {
        let step = eat_model(m, bytes[0], cap);
        let rest = feed_model(step.0, bytes.skip(1), cap);
        (rest.0, step.1 + rest.1)
    }
}

/// The header bytes for a payload of `l` bytes: the one-byte length form up to
/// 255, the big-endian two-byte form above.
pub open spec fn header_bytes(l: nat) -> Seq<u8> {
    if l <= 255 {
        seq![2u8, l as u8]
    } else {
        seq![3u8, (l / 256) as u8, (l % 256) as u8]
    }
}

/// Total wire length of a frame carrying `l` payload bytes: header, length
/// field, payload, two CRC bytes, terminator.
pub open spec fn wire_len(l: nat) -> nat {
    if l <= 255 {
        l + 5
    } else {
        l + 6
    }
}

/// The wire encoding of payload `p`: header, payload, big-endian CRC-16/XMODEM
/// of the payload, terminator byte.
pub open spec fn encode_bytes(p: Seq<u8>) -> Seq<u8> {
    let c = crc16_xmodem(p) as nat;
    header_bytes(p.len()) + p + seq![(c / 256) as u8, (c % 256) as u8, 3u8]
}

} // verus!
