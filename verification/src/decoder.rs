//! The decoder: a fixed-capacity accumulation buffer, the frame scanner, and
//! the byte-at-a-time ingestion loop.

use vstd::prelude::*;
use vstd::slice::{slice_subrange, slice_to_vec};
use crate::checksum::crc16_of;
use crate::format::{drain, eat_model, feed_model, init_model, scan, DecoderModel, ScanStep};

verus! {

/// One scanning attempt's outcome, as the ingestion loop consumes it.
enum DecodeResult {
    /// This many further bytes must arrive before scanning can advance.
    NeedMoreBytes(usize),
    /// The byte at the read cursor cannot start a valid frame.
    InvalidData,
    /// A valid frame: total wire byte count, and the payload's start and end
    /// positions in the buffer.
    Consumed(usize, usize, usize),
}

/// Streaming decoder state for one byte stream.
///
/// The buffer's length is the capacity chosen at construction and never
/// changes.  All buffered but unclassified bytes lie between the read and the
/// write cursor.
pub struct BinCrc {
    buffer: Vec<u8>,
    read_idx: usize,
    write_idx: usize,
    bytes_left: usize,
}

impl BinCrc {
    /// The fixed buffer capacity chosen at construction.
    pub closed spec fn capacity(self) -> nat {
        self.buffer@.len()
    }

    /// Structural invariant: the cursors stay ordered and inside the buffer,
    /// and the capacity leaves room for the scanner's length arithmetic.
    pub closed spec fn wf(self) -> bool {
        &&& self.read_idx <= self.write_idx <= self.buffer@.len()
        &&& 1 <= self.buffer@.len() <= usize::MAX - 6
    }

    /// The state as contracts see it: pending bytes and the byte hint.
    pub closed spec fn model(self) -> DecoderModel {
        DecoderModel {
            pending: self.buffer@.subrange(self.read_idx as int, self.write_idx as int),
            left: self.bytes_left as nat,
        }
    }

    /// A decoder for a stream whose frames must fit in `capacity` bytes.
    pub fn new(capacity: usize) -> (r: BinCrc)
        requires
            1 <= capacity <= usize::MAX - 6,
        ensures
            r.wf(),
            r.capacity() == capacity,
            r.model() == init_model(),
    {
        let mut buffer: Vec<u8> = Vec::new();
        let mut i: usize = 0;
        while i < capacity
            invariant
                i <= capacity,
                buffer@.len() == i,
            decreases capacity - i,
        {
            buffer.push(0u8);
            i += 1;
        }
        let r = BinCrc { buffer, read_idx: 0, write_idx: 0, bytes_left: 0 };
        proof {
            assert(r.model().pending =~= init_model().pending);
        }
        r
    }

    /// Scan for one frame at the read cursor, over the `data_len` pending
    /// bytes.  Decides exactly as `scan` does on the pending byte sequence.
    fn decode_frame(&self, data_len: usize) -> (r: DecodeResult)
        requires
            self.wf(),
            data_len == self.write_idx - self.read_idx,
        ensures
            ({
                let pend = self.model().pending;
                match r {
                    DecodeResult::NeedMoreBytes(k) => {
                        &&& scan(pend, self.capacity()) == (ScanStep::NeedMore { need: k as nat })
                        &&& 1 <= k
                    },
                    DecodeResult::InvalidData => scan(pend, self.capacity()) == ScanStep::Invalid,
                    DecodeResult::Consumed(count, start, end) => {
                        &&& scan(pend, self.capacity()) == (ScanStep::Frame {
                            count: count as nat,
                            payload: self.buffer@.subrange(start as int, end as int),
                        })
                        &&& self.read_idx <= start <= end <= self.write_idx
                        &&& 1 <= count <= data_len
                    },
                }
            }),
    {
        let ghost pend = self.model().pending;
        if data_len == 0 {
            return DecodeResult::NeedMoreBytes(1);
        }
        let b0 = self.buffer[self.read_idx];
        assert(pend[0] == b0);
        if b0 != 2 && b0 != 3 {
            // unknown selectors and the reserved oversized selector 4
            return DecodeResult::InvalidData;
        }
        let hdr = b0 as usize;
        if data_len < hdr {
            return DecodeResult::NeedMoreBytes(hdr - data_len);
        }
        let frame_len: usize = if b0 == 2 {
            let len = self.buffer[self.read_idx + 1];
            assert(pend[1] == len);
            if len == 0 {
                return DecodeResult::InvalidData;
            }
            len as usize
        } else {
            let hi = self.buffer[self.read_idx + 1];
            let lo = self.buffer[self.read_idx + 2];
            assert(pend[1] == hi && pend[2] == lo);
            let len: usize = (hi as usize) * 256 + (lo as usize);
            if len < 255 {
                return DecodeResult::InvalidData;
            }
            len
        };
        if frame_len > self.buffer.len() {
            return DecodeResult::InvalidData;
        }
        if data_len < frame_len + hdr + 3 {
            return DecodeResult::NeedMoreBytes(frame_len + hdr + 3 - data_len);
        }
        assert(pend[hdr + frame_len + 2] == self.buffer@[self.read_idx + hdr + frame_len + 2]);
        if self.buffer[self.read_idx + hdr + frame_len + 2] != 3 {
            return DecodeResult::InvalidData;
        }
        let hi = self.buffer[self.read_idx + hdr + frame_len];
        let lo = self.buffer[self.read_idx + hdr + frame_len + 1];
        assert(pend[hdr + frame_len] == hi && pend[hdr + frame_len + 1] == lo);
        let received: u16 = (hi as u16) * 256 + (lo as u16);
        let payload = slice_subrange(
            self.buffer.as_slice(),
            self.read_idx + hdr,
            self.read_idx + hdr + frame_len,
        );
        proof {
            assert(payload@ =~= pend.subrange(hdr as int, hdr + frame_len as int));
        }
        let crc = crc16_of(payload);
        if crc == received {
            DecodeResult::Consumed(
                frame_len + hdr + 3,
                self.read_idx + hdr,
                self.read_idx + hdr + frame_len,
            )
        } else {
            DecodeResult::InvalidData
        }
    }

    /// Accept one incoming byte; every payload extracted as a result is
    /// appended to `out`, in the order the frames occur in the stream.
    pub fn eat_byte(&mut self, byte: u8, out: &mut Vec<Vec<u8>>)
        requires
            old(self).wf(),
        ensures
            final(self).wf(),
            final(self).capacity() == old(self).capacity(),
            ({
                let step = eat_model(old(self).model(), byte, old(self).capacity());
                &&& final(self).model() == step.0
                &&& final(out).deep_view() == old(out).deep_view() + step.1
            }),
    {
        let ghost cap = self.capacity();
        let ghost m0 = self.model();
        let capacity = self.buffer.len();
        let bytes_pending = self.write_idx - self.read_idx;
        if bytes_pending >= capacity {
            // a whole buffer of data without a frame boundary: discard it all
            // and restart with only the incoming byte
            self.write_idx = 1;
            self.read_idx = 0;
            self.bytes_left = 0;
            self.buffer.set(0, byte);
            proof {
                assert(self.model().pending =~= seq![byte]);
                assert(out.deep_view() =~= out.deep_view() + Seq::<Seq<u8>>::empty());
            }
            return;
        }
        if self.write_idx >= capacity {
            // the write cursor hit capacity while junk or finished frames were
            // skipped at the front: move the pending bytes to the start
            let ghost snap = self.buffer@;
            let r = self.read_idx;
            let mut i: usize = 0;
            while i < bytes_pending
                invariant
                    i <= bytes_pending,
                    r + bytes_pending <= snap.len(),
                    self.read_idx == r,
                    self.write_idx == r + bytes_pending,
                    self.bytes_left == m0.left,
                    self.buffer@.len() == snap.len(),
                    forall|j: int| 0 <= j < i ==> self.buffer@[j] == snap[r + j],
                    forall|j: int| i <= j < snap.len() ==> self.buffer@[j] == snap[j],
                decreases bytes_pending - i,
            {
                let b = self.buffer[r + i];
                self.buffer.set(i, b);
                i += 1;
            }
            self.read_idx = 0;
            self.write_idx = bytes_pending;
            proof {
                assert(self.model().pending =~= m0.pending);
            }
        }
        proof {
            assert(self.model().pending =~= m0.pending);
        }
        self.buffer.set(self.write_idx, byte);
        self.write_idx = self.write_idx + 1;
        proof {
            assert(self.model().pending =~= m0.pending.push(byte));
        }
        if self.bytes_left > 1 {
            // a prior scan already knows more bytes are missing: only buffer
            self.bytes_left = self.bytes_left - 1;
            proof {
                assert(out.deep_view() =~= out.deep_view() + Seq::<Seq<u8>>::empty());
            }
            return;
        }
        let ghost d = self.model().pending;
        let ghost dr = drain(d, cap);
        let ghost w = self.write_idx as int;
        let ghost bsnap = self.buffer@;
        let ghost out0 = out.deep_view();
        let ghost r0 = self.read_idx as int;
        let ghost mut fs: Seq<Seq<u8>> = seq![];
        let bound = bytes_pending + 1;
        let mut iters: usize = 0;
        proof {
            assert(dr.frames =~= fs + drain(self.model().pending, cap).frames);
            assert(out.deep_view() =~= out0 + fs);
        }
        while iters < bound
            invariant_except_break
                self.wf(),
                self.buffer@ == bsnap,
                self.write_idx == w,
                self.bytes_left <= 1,
                r0 + iters <= self.read_idx,
                iters <= bound,
                r0 + bound == w,
                cap == self.buffer@.len(),
                dr == drain(d, cap),
                out.deep_view() == out0 + fs,
                dr.frames == fs + drain(self.model().pending, cap).frames,
                dr.rest == drain(self.model().pending, cap).rest,
                dr.left == drain(self.model().pending, cap).left,
            ensures
                self.wf(),
                self.write_idx == w,
                cap == self.buffer@.len(),
                out.deep_view() == out0 + fs,
                dr.frames == fs + drain(self.model().pending, cap).frames,
                dr.rest == drain(self.model().pending, cap).rest,
                dr.left == drain(self.model().pending, cap).left,
                drain(self.model().pending, cap).rest == self.model().pending,
                drain(self.model().pending, cap).frames == Seq::<Seq<u8>>::empty(),
                self.read_idx == self.write_idx || self.bytes_left as nat == drain(
                    self.model().pending,
                    cap,
                ).left,
            decreases bound - iters,
        {
            let ghost cur = self.model().pending;
            let result = self.decode_frame(self.write_idx - self.read_idx);
            match result {
                DecodeResult::NeedMoreBytes(k) => {
                    self.bytes_left = k;
                    proof {
                        assert(drain(cur, cap).frames =~= Seq::<Seq<u8>>::empty());
                        assert(fs + drain(cur, cap).frames =~= fs);
                    }
                    break ;
                },
                DecodeResult::InvalidData => {
                    self.bytes_left = 0;
                    self.read_idx = self.read_idx + 1;
                    proof {
                        assert(cur.len() >= 1);
                        assert(self.model().pending =~= cur.skip(1));
                    }
                },
                DecodeResult::Consumed(count, start, end) => {
                    let payload = slice_to_vec(
                        slice_subrange(self.buffer.as_slice(), start, end),
                    );
                    let ghost p = bsnap.subrange(start as int, end as int);
                    let ghost outpre = out.deep_view();
                    proof {
                        assert(payload.deep_view() =~= p);
                    }
                    out.push(payload);
                    self.bytes_left = 0;
                    self.read_idx = self.read_idx + count;
                    proof {
                        assert(out.deep_view() =~= outpre.push(p));
                        let ghost fsold = fs;
                        fs = fs + seq![p];
                        assert(out.deep_view() =~= out0 + fs);
                        assert(self.model().pending =~= cur.skip(count as int));
                        let ghost tailfr = drain(self.model().pending, cap).frames;
                        assert(drain(cur, cap).frames == seq![p] + tailfr);
                        assert(fsold + (seq![p] + tailfr) =~= (fsold + seq![p]) + tailfr);
                    }
                },
            }
            iters += 1;
        }
        if self.read_idx == self.write_idx {
            proof {
                assert(self.model().pending =~= Seq::<u8>::empty());
                assert(dr.rest =~= Seq::<u8>::empty());
            }
            // everything consumed: reclaim the whole buffer
            self.read_idx = 0;
            self.write_idx = 0;
            self.bytes_left = 0;
            proof {
                assert(self.model().pending =~= Seq::<u8>::empty());
            }
        }
        proof {
            assert(m0.pending.len() == bytes_pending);
            assert(fs + Seq::<Seq<u8>>::empty() =~= fs);
            assert(dr.frames == fs);
        }
    }

    /// Accept a run of bytes in order, collecting every emitted payload.
    pub fn eat_slice(&mut self, bytes: &[u8], out: &mut Vec<Vec<u8>>)
        requires
            old(self).wf(),
        ensures
            final(self).wf(),
            final(self).capacity() == old(self).capacity(),
            ({
                let run = feed_model(old(self).model(), bytes@, old(self).capacity());
                &&& final(self).model() == run.0
                &&& final(out).deep_view() == old(out).deep_view() + run.1
            }),
    {
        let ghost cap = self.capacity();
        let ghost m0 = self.model();
        let ghost out0 = out.deep_view();
        let ghost whole = feed_model(m0, bytes@, cap);
        let ghost mut fs: Seq<Seq<u8>> = seq![];
        proof {
            assert(bytes@.skip(0) =~= bytes@);
            assert(out.deep_view() =~= out0 + fs);
            assert(whole.1 =~= fs + feed_model(self.model(), bytes@.skip(0), cap).1);
        }
        let mut i: usize = 0;
        while i < bytes.len()
            invariant
                i <= bytes@.len(),
                self.wf(),
                self.capacity() == cap,
                out.deep_view() == out0 + fs,
                whole == feed_model(m0, bytes@, cap),
                whole.0 == feed_model(self.model(), bytes@.skip(i as int), cap).0,
                whole.1 == fs + feed_model(self.model(), bytes@.skip(i as int), cap).1,
            decreases bytes@.len() - i,
        {
            let ghost pre = self.model();
            self.eat_byte(bytes[i], out);
            proof {
                let step = eat_model(pre, bytes@[i as int], cap);
                let tail = feed_model(step.0, bytes@.skip(i + 1), cap);
                assert(bytes@.skip(i as int)[0] == bytes@[i as int]);
                assert(bytes@.skip(i as int).skip(1) =~= bytes@.skip(i + 1));
                assert(feed_model(pre, bytes@.skip(i as int), cap).1 == step.1 + tail.1);
                let ghost fsold = fs;
                fs = fs + step.1;
                assert(out.deep_view() =~= out0 + fs);
                assert(fsold + (step.1 + tail.1) =~= (fsold + step.1) + tail.1);
            }
            i += 1;
        }
        proof {
            assert(bytes@.skip(bytes@.len() as int) =~= Seq::<u8>::empty());
            assert(whole.1 =~= fs);
        }
    }
}

} // verus!
