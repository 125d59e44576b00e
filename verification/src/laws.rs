//! Laws relating the encoder and the decoder, proved over the model that the
//! executable functions' contracts are stated in.

use vstd::prelude::*;
use vstd::arithmetic::div_mod::{lemma_fundamental_div_mod, lemma_mod_bound};
use crate::checksum::crc16_xmodem;
use crate::format::{
    be16, drain, eat_model, encode_bytes, feed_model, header_bytes, init_model, scan, wire_len,
    DecoderModel, ScanStep,
};

verus! {

/// Recombining the two big-endian bytes of a 16-bit value gives it back.
proof fn lemma_be16_split(x: int)
    requires
        0 <= x <= 65535,
    ensures
        be16((x / 256) as u8, (x % 256) as u8) == x,
{
    lemma_fundamental_div_mod(x, 256);
    lemma_mod_bound(x, 256);
}

/// The byte layout of an encoded frame.
proof fn lemma_encode_shape(p: Seq<u8>)
    requires
        1 <= p.len() <= 65535,
    ensures
        encode_bytes(p).len() == wire_len(p.len()),
        encode_bytes(p)[0] == (if p.len() <= 255 { 2u8 } else { 3u8 }),
        p.len() <= 255 ==> encode_bytes(p)[1] as int == p.len(),
        p.len() > 255 ==> be16(encode_bytes(p)[1], encode_bytes(p)[2]) == p.len(),
        ({
            let h: int = if p.len() <= 255 { 2 } else { 3 };
            let l = p.len() as int;
            &&& encode_bytes(p).subrange(h, h + l) == p
            &&& be16(encode_bytes(p)[h + l], encode_bytes(p)[h + l + 1]) == crc16_xmodem(p) as int
            &&& encode_bytes(p)[h + l + 2] == 3u8
        }),
{
    let l = p.len() as int;
    let h: int = if l <= 255 { 2 } else { 3 };
    let c = crc16_xmodem(p) as int;
    let enc = encode_bytes(p);
    let hb = header_bytes(p.len());
    let tb = seq![(c / 256) as u8, (c % 256) as u8, 3u8];
    assert(hb.len() == h);
    assert(enc =~= hb + p + tb);
    assert(enc.len() == h + l + 3);
    assert(enc[0] == hb[0]);
    if l <= 255 {
        assert(enc[1] == hb[1]);
        assert(hb[1] == l as u8);
    } else {
        assert(enc[1] == hb[1] && enc[2] == hb[2]);
        lemma_be16_split(l);
    }
    assert(enc.subrange(h, h + l) =~= p);
    assert(enc[h + l] == tb[0] && enc[h + l + 1] == tb[1] && enc[h + l + 2] == tb[2]);
    lemma_be16_split(c);
}

/// Scanning a stream that starts with a whole encoded frame finds exactly
/// that frame, whatever follows it.
proof fn lemma_scan_of_frame(p: Seq<u8>, tail: Seq<u8>, cap: nat)
    requires
        1 <= p.len() <= 65535,
        p.len() <= cap,
    ensures
        scan(encode_bytes(p) + tail, cap) == (ScanStep::Frame {
            count: wire_len(p.len()),
            payload: p,
        }),
{
    let l = p.len() as int;
    let h: int = if l <= 255 { 2 } else { 3 };
    let enc = encode_bytes(p);
    let d = enc + tail;
    lemma_encode_shape(p);
    assert(forall|j: int| 0 <= j < enc.len() ==> d[j] == enc[j]);
    assert(d[0] == enc[0]);
    assert(d.len() >= l + h + 3);
    if l > 255 {
        assert(be16(d[1], d[2]) == l);
        assert(l >= 255);
    }
    assert(d.subrange(h, h + l) =~= enc.subrange(h, h + l));
    assert(crc16_xmodem(d.subrange(h, h + l)) as int == be16(d[h + l], d[h + l + 1]));
    assert(d[h + l + 2] == 3u8);
    assert(scan(d, cap) == (ScanStep::Frame { count: (h + l + 3) as nat, payload: d.subrange(
        h,
        h + l,
    ) }));
}

/// How many further bytes a scan of the first `i` encoded bytes asks for.
spec fn need_at(p: Seq<u8>, i: int) -> int {
    let h: int = if p.len() <= 255 { 2 } else { 3 };
    if i < h {
        h - i
    } else {
        wire_len(p.len()) - i
    }
}

/// Scanning a strict, nonempty prefix of an encoded frame always asks for
/// more bytes, and for exactly `need_at` of them.
proof fn lemma_scan_prefix(p: Seq<u8>, cap: nat, i: int)
    requires
        1 <= p.len() <= 65535,
        p.len() <= cap,
        1 <= i < wire_len(p.len()),
    ensures
        scan(encode_bytes(p).take(i), cap) == (ScanStep::NeedMore { need: need_at(p, i) as nat }),
        1 <= need_at(p, i),
{
    let l = p.len() as int;
    let h: int = if l <= 255 { 2 } else { 3 };
    let enc = encode_bytes(p);
    let d = enc.take(i);
    lemma_encode_shape(p);
    assert(forall|j: int| 0 <= j < i ==> d[j] == enc[j]);
    assert(d.len() == i);
    assert(d[0] == enc[0]);
    if i < h {
        assert(scan(d, cap) == (ScanStep::NeedMore { need: (h - i) as nat }));
    } else {
        if l > 255 {
            assert(be16(d[1], d[2]) == l);
            assert(l >= 255);
        }
        assert(d.len() < l + h + 3);
        assert(scan(d, cap) == (ScanStep::NeedMore { need: (l + h + 3 - i) as nat }));
    }
}

/// Feeding the remaining bytes of an encoded frame to a decoder that has
/// buffered exactly its first `i` bytes emits the payload and leaves the
/// decoder fresh.  The byte hint may be the exact shortfall from an earlier
/// scan, or small enough that the next byte triggers a scan.
proof fn lemma_feed_encoded_from(p: Seq<u8>, cap: nat, i: int, m: DecoderModel)
    requires
        1 <= p.len() <= 65535,
        wire_len(p.len()) <= cap,
        1 <= i < wire_len(p.len()),
        m.pending == encode_bytes(p).take(i),
        m.left == need_at(p, i) || m.left <= 1,
    ensures
        feed_model(m, encode_bytes(p).skip(i), cap).0 == init_model(),
        feed_model(m, encode_bytes(p).skip(i), cap).1 == seq![p],
    decreases wire_len(p.len()) - i,
{
    let l = p.len() as int;
    let h: int = if l <= 255 { 2 } else { 3 };
    let w = wire_len(p.len()) as int;
    let enc = encode_bytes(p);
    lemma_encode_shape(p);
    lemma_scan_prefix(p, cap, i);
    let byte = enc[i];
    assert(enc.skip(i)[0] == byte);
    assert(enc.skip(i).skip(1) =~= enc.skip(i + 1));
    let step = eat_model(m, byte, cap);
    assert(m.pending.len() == i < cap);
    assert(m.pending.push(byte) =~= enc.take(i + 1));
    if m.left > 1 {
        // the cached hint is the exact shortfall; it only counts down
        assert(m.left == need_at(p, i));
        assert(i + 1 < w);
        assert(step.0.pending == enc.take(i + 1) && step.0.left == need_at(p, i) - 1);
        assert(need_at(p, i) - 1 == need_at(p, i + 1) || need_at(p, i) - 1 <= 1);
        lemma_feed_encoded_from(p, cap, i + 1, step.0);
        assert(step.1 + seq![p] =~= seq![p]);
    } else {
        // the byte triggers a scan of the buffered prefix
        if i + 1 < w {
            lemma_scan_prefix(p, cap, i + 1);
            assert(drain(enc.take(i + 1), cap) == (crate::format::DrainOut {
                frames: Seq::<Seq<u8>>::empty(),
                rest: enc.take(i + 1),
                left: need_at(p, i + 1) as nat,
            }));
            assert(step.0.pending == enc.take(i + 1) && step.0.left == need_at(p, i + 1));
            lemma_feed_encoded_from(p, cap, i + 1, step.0);
            assert(step.1 + seq![p] =~= seq![p]);
        } else {
            // the final byte completes the frame
            assert(enc.take(i + 1) =~= enc);
            lemma_scan_of_frame(p, Seq::<u8>::empty(), cap);
            assert(enc + Seq::<u8>::empty() =~= enc);
            assert(scan(enc, cap) == (ScanStep::Frame { count: wire_len(p.len()), payload: p }));
            assert(enc.skip(w) =~= Seq::<u8>::empty());
            assert(drain(enc.skip(w), cap).frames =~= Seq::<Seq<u8>>::empty());
            assert(drain(enc, cap).frames =~= seq![p]);
            assert(drain(enc, cap).rest =~= Seq::<u8>::empty());
            assert(step.0.pending == Seq::<u8>::empty() && step.0.left == 0);
            assert(step.0 == init_model());
            assert(feed_model(step.0, enc.skip(i + 1), cap).1 =~= Seq::<Seq<u8>>::empty());
            assert(step.1 + Seq::<Seq<u8>>::empty() =~= step.1);
            assert(step.1 =~= seq![p]);
        }
    }
}

/// Round trip: feeding a payload's full encoding, byte by byte, to a fresh
/// decoder whose buffer can hold the whole frame emits exactly that payload
/// and leaves the decoder fresh again.
pub proof fn lemma_round_trip(p: Seq<u8>, cap: nat)
    requires
        1 <= p.len() <= 65535,
        wire_len(p.len()) <= cap,
    ensures
        feed_model(init_model(), encode_bytes(p), cap).0 == init_model(),
        feed_model(init_model(), encode_bytes(p), cap).1 == seq![p],
{
    let enc = encode_bytes(p);
    let w = wire_len(p.len()) as int;
    lemma_encode_shape(p);
    lemma_scan_prefix(p, cap, 1);
    let step = eat_model(init_model(), enc[0], cap);
    assert(init_model().pending.push(enc[0]) =~= enc.take(1));
    assert(drain(enc.take(1), cap) == (crate::format::DrainOut {
        frames: Seq::<Seq<u8>>::empty(),
        rest: enc.take(1),
        left: need_at(p, 1) as nat,
    }));
    assert(step.0.pending == enc.take(1) && step.0.left == need_at(p, 1));
    lemma_feed_encoded_from(p, cap, 1, step.0);
    assert(enc.skip(0) =~= enc);
    assert(enc.skip(0)[0] == enc[0]);
    assert(enc.skip(0).skip(1) =~= enc.skip(1));
    assert(step.1 + seq![p] =~= seq![p]);
}

/// Feeding one whole run of bytes equals feeding it in two parts.
proof fn lemma_feed_append(m: DecoderModel, a: Seq<u8>, b: Seq<u8>, cap: nat)
    ensures
        feed_model(m, a + b, cap).0 == feed_model(feed_model(m, a, cap).0, b, cap).0,
        feed_model(m, a + b, cap).1 == feed_model(m, a, cap).1 + feed_model(
            feed_model(m, a, cap).0,
            b,
            cap,
        ).1,
    decreases a.len(),
{
    if a.len() == 0 {
        assert(a + b =~= b);
        assert(feed_model(m, a, cap).0 == m);
        assert(feed_model(m, a, cap).1 + feed_model(m, b, cap).1 =~= feed_model(m, b, cap).1);
    } else {
        let step = eat_model(m, a[0], cap);
        assert((a + b)[0] == a[0]);
        assert((a + b).skip(1) =~= a.skip(1) + b);
        lemma_feed_append(step.0, a.skip(1), b, cap);
        let mid = feed_model(step.0, a.skip(1), cap);
        let rest = feed_model(mid.0, b, cap);
        assert(step.1 + (mid.1 + rest.1) =~= (step.1 + mid.1) + rest.1);
    }
}

/// Junk bytes that can never start a frame are absorbed one by one: a fresh
/// decoder stays fresh and emits nothing.
proof fn lemma_feed_junk(junk: Seq<u8>, cap: nat)
    requires
        cap >= 1,
        forall|j: int|
            0 <= j < junk.len() ==> junk[j] != 2 && junk[j] != 3 && junk[j] != 4,
    ensures
        feed_model(init_model(), junk, cap).0 == init_model(),
        feed_model(init_model(), junk, cap).1 == Seq::<Seq<u8>>::empty(),
    decreases junk.len(),
{
    if junk.len() == 0 {
    } else {
        let step = eat_model(init_model(), junk[0], cap);
        let one = init_model().pending.push(junk[0]);
        assert(one.len() == 1 && one[0] == junk[0]);
        assert(scan(one, cap) == ScanStep::Invalid);
        assert(one.skip(1) =~= Seq::<u8>::empty());
        assert(drain(one, cap) == drain(Seq::<u8>::empty(), cap));
        assert(step.0.pending == Seq::<u8>::empty() && step.0.left == 0);
        assert(step.0 == init_model());
        assert(forall|j: int|
            0 <= j < junk.skip(1).len() ==> junk.skip(1)[j] != 2 && junk.skip(1)[j] != 3
                && junk.skip(1)[j] != 4);
        lemma_feed_junk(junk.skip(1), cap);
        assert(step.1 + feed_model(init_model(), junk.skip(1), cap).1
            =~= Seq::<Seq<u8>>::empty());
    }
}

/// Resynchronisation: junk bytes that never hold a frame-start selector,
/// placed before a whole encoded frame, are discarded and exactly that frame's
/// payload is emitted.
pub proof fn lemma_resynchronization(junk: Seq<u8>, p: Seq<u8>, cap: nat)
    requires
        forall|j: int|
            0 <= j < junk.len() ==> junk[j] != 2 && junk[j] != 3 && junk[j] != 4,
        1 <= p.len() <= 65535,
        wire_len(p.len()) <= cap,
    ensures
        feed_model(init_model(), junk + encode_bytes(p), cap).0 == init_model(),
        feed_model(init_model(), junk + encode_bytes(p), cap).1 == seq![p],
{
    lemma_feed_junk(junk, cap);
    lemma_feed_append(init_model(), junk, encode_bytes(p), cap);
    lemma_round_trip(p, cap);
    assert(Seq::<Seq<u8>>::empty() + seq![p] =~= seq![p]);
}

/// Back-to-back frames: two encodings concatenated and fed in one pass emit
/// both payloads, in order.
pub proof fn lemma_back_to_back(p1: Seq<u8>, p2: Seq<u8>, cap: nat)
    requires
        1 <= p1.len() <= 65535,
        wire_len(p1.len()) <= cap,
        1 <= p2.len() <= 65535,
        wire_len(p2.len()) <= cap,
    ensures
        feed_model(init_model(), encode_bytes(p1) + encode_bytes(p2), cap).0 == init_model(),
        feed_model(init_model(), encode_bytes(p1) + encode_bytes(p2), cap).1 == seq![p1, p2],
{
    lemma_feed_append(init_model(), encode_bytes(p1), encode_bytes(p2), cap);
    lemma_round_trip(p1, cap);
    lemma_round_trip(p2, cap);
    assert(seq![p1] + seq![p2] =~= seq![p1, p2]);
}

/// Overflow recovery: however a saturated decoder got stuck, the next byte
/// restarts it, and a whole encoded frame arriving from that point on is
/// decoded in full.
pub proof fn lemma_overflow_recovery(m: DecoderModel, p: Seq<u8>, cap: nat)
    requires
        m.pending.len() >= cap,
        1 <= p.len() <= 65535,
        wire_len(p.len()) <= cap,
    ensures
        feed_model(m, encode_bytes(p), cap).0 == init_model(),
        feed_model(m, encode_bytes(p), cap).1 == seq![p],
{
    let enc = encode_bytes(p);
    lemma_encode_shape(p);
    let step = eat_model(m, enc[0], cap);
    assert(step.0.pending == seq![enc[0]] && step.0.left == 0);
    assert(seq![enc[0]] =~= enc.take(1));
    lemma_feed_encoded_from(p, cap, 1, step.0);
    assert(enc.skip(0) =~= enc);
    assert(enc.skip(0)[0] == enc[0]);
    assert(enc.skip(0).skip(1) =~= enc.skip(1));
    assert(step.1 + seq![p] =~= seq![p]);
}

} // verus!
