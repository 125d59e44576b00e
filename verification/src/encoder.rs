//! The encoder: wire-size computation and frame serialisation.

use vstd::prelude::*;
use crate::checksum::crc16_of;
use crate::decoder::BinCrc;
use crate::format::{encode_bytes, wire_len};
use crate::BinCrcError;

verus! {

impl BinCrc {
    /// The exact wire size of a frame for a payload of `frame_len` bytes, or
    /// `TooBig` beyond the supported range of 512 bytes.
    pub fn size_hint(frame_len: usize) -> (r: Result<usize, BinCrcError>)
        ensures
            frame_len <= 512 ==> r == Ok::<usize, BinCrcError>(wire_len(frame_len as nat) as usize),
            frame_len > 512 ==> r == Err::<usize, BinCrcError>(BinCrcError::TooBig),
    {
        if frame_len <= 255 {
            Ok(2 + frame_len + 3)
        } else if frame_len >= 256 && frame_len <= 512 {
            Ok(3 + frame_len + 3)
        } else {
            Err(BinCrcError::TooBig)
        }
    }

    /// Serialise `frame` into the start of `buf`, which the caller sizes with
    /// `size_hint`.  The two-byte length form is allowed up to `capacity`, the
    /// decoder's buffer bound.  On success exactly the frame's wire bytes are
    /// written; the remainder of `buf`, and `buf` on any error, are untouched.
    pub fn commit_frame(frame: &[u8], buf: &mut Vec<u8>, capacity: usize) -> (r: Result<
        (),
        BinCrcError,
    >)
        ensures
            ({
                let l = frame@.len();
                let supported = l <= 255 || (256 <= l && l <= capacity && l <= 65535);
                &&& !supported ==> r == Err::<(), BinCrcError>(BinCrcError::InvalidLength)
                    && final(buf)@ == old(buf)@
                &&& supported && old(buf)@.len() < wire_len(l) ==> r == Err::<(), BinCrcError>(
                    BinCrcError::NotEnoughSpace,
                ) && final(buf)@ == old(buf)@
                &&& supported && old(buf)@.len() >= wire_len(l) ==> r == Ok::<(), BinCrcError>(())
                    && final(buf)@.len() == old(buf)@.len()
                    && final(buf)@.subrange(0, wire_len(l) as int) == encode_bytes(frame@)
                    && final(buf)@.skip(wire_len(l) as int) == old(buf)@.skip(wire_len(l) as int)
            }),
    {
        let len = frame.len();
        let (bytes_required, first_byte) = if len <= 255 {
            (2 + len + 3, 2u8)
        } else if len >= 256 && len <= capacity && len <= 65535 {
            (3 + len + 3, 3u8)
        } else {
            return Err(BinCrcError::InvalidLength);
        };
        if buf.len() < bytes_required {
            return Err(BinCrcError::NotEnoughSpace);
        }
        let ghost buf0 = buf@;
        buf.set(0, first_byte);
        let data_start_idx: usize;
        if len <= 255 {
            buf.set(1, len as u8);
            data_start_idx = 2;
        } else {
            buf.set(1, (len / 256) as u8);
            buf.set(2, (len % 256) as u8);
            data_start_idx = 3;
        }
        let mut i: usize = 0;
        while i < len
            invariant
                i <= len,
                len == frame@.len(),
                (data_start_idx == 2 && len <= 255) || (data_start_idx == 3 && 256 <= len
                    <= 65535),
                buf@.len() == buf0.len(),
                data_start_idx + len + 3 <= buf0.len(),
                buf@[0] == (if len <= 255 { 2u8 } else { 3u8 }),
                len <= 255 ==> buf@[1] == len as u8,
                len > 255 ==> buf@[1] == (len / 256) as u8 && buf@[2] == (len % 256) as u8,
                forall|j: int| 0 <= j < i ==> buf@[data_start_idx + j] == frame@[j],
                forall|j: int|
                    data_start_idx + i <= j < buf0.len() ==> buf@[j] == buf0[j],
            decreases len - i,
        {
            let b = frame[i];
            buf.set(data_start_idx + i, b);
            i += 1;
        }
        let crc: u16 = crc16_of(frame);
        let crc_start_idx = data_start_idx + len;
        buf.set(crc_start_idx, (crc / 256) as u8);
        buf.set(crc_start_idx + 1, (crc % 256) as u8);
        buf.set(crc_start_idx + 2, 3u8);
        proof {
            assert(buf@.subrange(0, wire_len(frame@.len()) as int) =~= encode_bytes(frame@));
            assert(buf@.skip(wire_len(frame@.len()) as int) =~= buf0.skip(
                wire_len(frame@.len()) as int,
            ));
        }
        Ok(())
    }
}

} // verus!
