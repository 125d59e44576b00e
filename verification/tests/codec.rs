use bincrc::BinCrc;
use bincrc::BinCrcError;

#[test]
fn it_works() {
    assert_eq!(2 + 2, 4);
}

fn encode(payload: &[u8], capacity: usize) -> Vec<u8> {
    let size = BinCrc::size_hint(payload.len()).unwrap();
    let mut buf = vec![0u8; size];
    BinCrc::commit_frame(payload, &mut buf, capacity).unwrap();
    buf
}

fn feed(dec: &mut BinCrc, bytes: &[u8]) -> Vec<Vec<u8>> {
    let mut out: Vec<Vec<u8>> = Vec::new();
    for b in bytes {
        dec.eat_byte(*b, &mut out);
    }
    out
}

#[test]
fn round_trip_single_byte() {
    let payload = vec![0x42u8];
    let wire = encode(&payload, 64);
    let mut dec = BinCrc::new(64);
    let frames = feed(&mut dec, &wire);
    assert_eq!(frames, vec![payload]);
}

#[test]
fn round_trip_several_lengths() {
    for len in [1usize, 2, 5, 100, 254, 255, 256, 300, 512] {
        let payload: Vec<u8> = (0..len).map(|i| (i * 7 % 251) as u8).collect();
        let wire = encode(&payload, 1024);
        let mut dec = BinCrc::new(1024);
        let frames = feed(&mut dec, &wire);
        assert_eq!(frames, vec![payload], "payload length {}", len);
    }
}

#[test]
fn wire_format_is_exact() {
    // CRC-16/XMODEM of "123456789" is 0x31C3
    let payload = b"123456789".to_vec();
    let wire = encode(&payload, 64);
    let mut expected = vec![2u8, 9u8];
    expected.extend_from_slice(&payload);
    expected.extend_from_slice(&[0x31, 0xC3, 3]);
    assert_eq!(wire, expected);
}

#[test]
fn two_byte_length_field_is_big_endian() {
    let payload = vec![0xAAu8; 300];
    let wire = encode(&payload, 1024);
    assert_eq!(wire[0], 3);
    assert_eq!(wire[1], 0x01);
    assert_eq!(wire[2], 0x2C);
    assert_eq!(*wire.last().unwrap(), 3);
    assert_eq!(wire.len(), 306);
}

#[test]
fn resynchronization_discards_junk() {
    let payload = vec![1u8, 2, 3, 4];
    let wire = encode(&payload, 64);
    let mut noisy: Vec<u8> = vec![0x00, 0xFF, 0x7E, 0x10, 0x55];
    noisy.extend_from_slice(&wire);
    let mut dec = BinCrc::new(64);
    let frames = feed(&mut dec, &noisy);
    assert_eq!(frames, vec![payload]);
}

#[test]
fn back_to_back_frames_in_one_pass() {
    let p1 = vec![9u8, 8, 7];
    let p2 = vec![1u8; 40];
    let mut wire = encode(&p1, 64);
    wire.extend_from_slice(&encode(&p2, 64));
    let mut dec = BinCrc::new(64);
    let mut out: Vec<Vec<u8>> = Vec::new();
    dec.eat_slice(&wire, &mut out);
    assert_eq!(out, vec![p1, p2]);
}

#[test]
fn overflow_recovery() {
    let capacity = 32usize;
    let mut dec = BinCrc::new(capacity);
    // far more than a buffer's worth of bytes with no frame boundary
    let junk = vec![0xEEu8; capacity * 3 + 5];
    let frames = feed(&mut dec, &junk);
    assert!(frames.is_empty());
    // the same decoder still decodes a fresh frame
    let payload = vec![5u8, 6, 7];
    let wire = encode(&payload, capacity);
    let frames = feed(&mut dec, &wire);
    assert_eq!(frames, vec![payload]);
}

#[test]
fn oversized_length_is_rejected_at_once() {
    let capacity = 16usize;
    let mut dec = BinCrc::new(capacity);
    // a announced length beyond the buffer capacity can never fit
    let mut stuck = vec![2u8, 200u8];
    stuck.extend(vec![0u8; 64]);
    let frames = feed(&mut dec, &stuck);
    assert!(frames.is_empty());
    let payload = vec![0x33u8];
    let wire = encode(&payload, capacity);
    let frames = feed(&mut dec, &wire);
    assert_eq!(frames, vec![payload]);
}

#[test]
fn overflow_resets_a_stalled_frame() {
    let capacity = 16usize;
    let mut dec = BinCrc::new(capacity);
    // a plausible header whose frame never completes saturates the buffer
    let mut stuck = vec![2u8, 10u8];
    stuck.extend(vec![0xEEu8; 50]);
    let frames = feed(&mut dec, &stuck);
    assert!(frames.is_empty());
    let payload = vec![0x44u8, 0x45];
    let wire = encode(&payload, capacity);
    let frames = feed(&mut dec, &wire);
    assert_eq!(frames, vec![payload]);
}

fn crc_of(payload: &[u8]) -> u16 {
    crc16::State::<crc16::XMODEM>::calculate(payload)
}

fn raw_frame(selector: u8, len_field: &[u8], payload: &[u8]) -> Vec<u8> {
    let mut wire = vec![selector];
    wire.extend_from_slice(len_field);
    wire.extend_from_slice(payload);
    wire.extend_from_slice(&crc_of(payload).to_be_bytes());
    wire.push(3);
    wire
}

#[test]
fn one_byte_form_carries_up_to_255() {
    // the one-byte length form is valid for every length 1..=255
    let payload = vec![0x11u8; 255];
    let wire = raw_frame(2, &[255u8], &payload);
    let mut dec = BinCrc::new(1024);
    let frames = feed(&mut dec, &wire);
    assert_eq!(frames, vec![payload]);
}

#[test]
fn two_byte_form_below_255_is_rejected() {
    // a redundant two-byte encoding of a small length is malformed
    let payload = vec![0x22u8; 254];
    let wire = raw_frame(3, &[0u8, 254u8], &payload);
    let mut dec = BinCrc::new(1024);
    let frames = feed(&mut dec, &wire);
    assert!(frames.is_empty());
}

#[test]
fn two_byte_form_at_255_is_accepted() {
    let payload = vec![0x44u8; 255];
    let wire = raw_frame(3, &[0u8, 255u8], &payload);
    let mut dec = BinCrc::new(1024);
    let frames = feed(&mut dec, &wire);
    assert_eq!(frames, vec![payload]);
}

#[test]
fn zero_length_frame_is_rejected() {
    let wire = raw_frame(2, &[0u8], &[]);
    let mut dec = BinCrc::new(64);
    let frames = feed(&mut dec, &wire);
    assert!(frames.is_empty());
}

#[test]
fn reserved_selector_is_rejected() {
    let payload = vec![0x55u8; 4];
    let wire = raw_frame(4, &[4u8], &payload);
    let mut dec = BinCrc::new(64);
    let frames = feed(&mut dec, &wire);
    assert!(frames.is_empty());
}

#[test]
fn crc_mismatch_rejects_frame_and_recovers() {
    let payload = vec![0x10u8, 0x20, 0x30, 0x40, 0x50];
    let wire = encode(&payload, 64);
    let tail = encode(&payload, 64);
    // flip every single bit of the payload and CRC fields in turn
    for byte_idx in 2..wire.len() - 1 {
        for bit in 0..8 {
            let mut corrupted = wire.clone();
            corrupted[byte_idx] ^= 1 << bit;
            let mut dec = BinCrc::new(64);
            let frames = feed(&mut dec, &corrupted);
            assert!(
                frames.is_empty(),
                "corrupted frame was not rejected (byte {}, bit {})",
                byte_idx,
                bit
            );
            // flush whatever the scanner may still be waiting on, then a
            // valid frame is still recovered by the same decoder
            let flush = vec![0xEEu8; 64 * 2 + 8];
            let frames = feed(&mut dec, &flush);
            assert!(frames.is_empty());
            let frames = feed(&mut dec, &tail);
            assert_eq!(frames, vec![payload.clone()]);
        }
    }
}

#[test]
fn size_hint_values() {
    assert_eq!(BinCrc::size_hint(1).unwrap(), 6);
    assert_eq!(BinCrc::size_hint(255).unwrap(), 260);
    assert_eq!(BinCrc::size_hint(256).unwrap(), 262);
    assert_eq!(BinCrc::size_hint(512).unwrap(), 518);
    assert!(matches!(BinCrc::size_hint(513), Err(BinCrcError::TooBig)));
}

#[test]
fn capacity_rejection() {
    let payload = vec![0x77u8; 10];
    let size = BinCrc::size_hint(payload.len()).unwrap();
    let mut small = vec![0u8; size - 1];
    let r = BinCrc::commit_frame(&payload, &mut small, 64);
    assert!(matches!(r, Err(BinCrcError::NotEnoughSpace)));
    assert_eq!(small, vec![0u8; size - 1]);
    let mut exact = vec![0u8; size];
    BinCrc::commit_frame(&payload, &mut exact, 64).unwrap();
    assert_eq!(exact[0], 2);
}

#[test]
fn commit_frame_invalid_length() {
    // the two-byte form is bounded by the decoder capacity handed in
    let payload = vec![0u8; 300];
    let mut buf = vec![0u8; 512];
    let r = BinCrc::commit_frame(&payload, &mut buf, 128);
    assert!(matches!(r, Err(BinCrcError::InvalidLength)));
    assert_eq!(buf, vec![0u8; 512]);
}

#[test]
fn commit_frame_leaves_tail_untouched() {
    let payload = vec![0xABu8, 0xCD];
    let mut buf = vec![0x99u8; 20];
    BinCrc::commit_frame(&payload, &mut buf, 64).unwrap();
    let size = BinCrc::size_hint(payload.len()).unwrap();
    assert!(buf[size..].iter().all(|b| *b == 0x99));
}

#[test]
fn eat_slice_empty_input_no_output() {
    let mut dec = BinCrc::new(32);
    let mut out: Vec<Vec<u8>> = Vec::new();
    dec.eat_slice(&[], &mut out);
    assert!(out.is_empty());
}

#[test]
fn junk_only_emits_nothing() {
    let mut dec = BinCrc::new(32);
    let frames = feed(&mut dec, &[0x00, 0x01, 0xFE, 0xFF, 0x7F]);
    assert!(frames.is_empty());
}

#[test]
fn empty_payload_encodes_but_never_decodes() {
    // the encoder accepts a zero-length payload; the decoder rejects a zero
    // length on the wire, so such a frame is silently discarded
    let wire = encode(&[], 32);
    assert_eq!(wire[0], 2);
    assert_eq!(wire[1], 0);
    let mut dec = BinCrc::new(32);
    let frames = feed(&mut dec, &wire);
    assert!(frames.is_empty());
}

#[test]
fn frame_split_across_calls() {
    let payload = vec![0x61u8, 0x62, 0x63];
    let wire = encode(&payload, 64);
    let mut dec = BinCrc::new(64);
    let (first, second) = wire.split_at(3);
    let frames = feed(&mut dec, first);
    assert!(frames.is_empty());
    let frames = feed(&mut dec, second);
    assert_eq!(frames, vec![payload]);
}
