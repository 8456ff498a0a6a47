use modem::digest::sha256;
use modem::frame::{decode_frame, FRAME_LEN, MAX_PAYLOAD};
use modem::fsk::DspVariants;
use modem::phy::FskPhy;
use modem::preamble::{refine_window, PREAMBLE_SAMPLES, SCAN_STRIDE, SYNC_WORD};
use modem::rx::{count_ones, FrameEvent, Receiver, ScanOutcome, DEMOD_BYTES};
use modem::timing::SymbolTiming;
use modem::tx::{append_bytes, Transmitter};

/// Locks the receiver on a chirp at the start of its buffer and hands it the
/// bytes demodulated behind it.
fn deliver(rx: &mut Receiver, block: &[u8]) -> Vec<FrameEvent> {
    let lock = rx.after_scan(0, 0, Some(0));
    assert!(matches!(lock, ScanOutcome::Lock { drop: PREAMBLE_SAMPLES, .. }));
    rx.accept_frame(block)
}

fn run_roundtrip(payload: Vec<u8>) {
    let tx = Transmitter::new(FskPhy::audible(), false);
    let blocks = tx.frame_blocks(&payload);
    let n_frames = (payload.len() + 32 + MAX_PAYLOAD - 1) / MAX_PAYLOAD;
    assert_eq!(blocks.len(), n_frames);
    let mut rx = Receiver::new(FskPhy::audible());
    let mut events = Vec::new();
    for b in &blocks {
        assert_eq!(b.len(), DEMOD_BYTES);
        assert_eq!(&b[..2], &SYNC_WORD);
        events.extend(deliver(&mut rx, b));
    }
    assert_eq!(events.len(), n_frames + 1);
    for (i, e) in events[..n_frames].iter().enumerate() {
        assert!(matches!(e, FrameEvent::FrameOk { seq, .. } if *seq == i as u32), "{e:?}");
    }
    assert_eq!(events[n_frames], FrameEvent::StreamComplete { bytes: payload, sha256_ok: true });
}

#[test]
fn boundary_lengths() {
    for &n in &[0usize, 1, 100, 186, 187, 188, 218, 219, 220, 437, 438, 1024] {
        let payload: Vec<u8> = (0..n).map(|i| (i & 0xFF) as u8).collect();
        run_roundtrip(payload);
    }
}

#[test]
fn multi_frame_payload_splits() {
    let tx = Transmitter::new(FskPhy::audible(), false);
    // 500 bytes of payload + 32 bytes sha = 532 → 3 frames (219+219+94)
    let payload = vec![0xAA; 500];
    let blocks = tx.frame_blocks(&payload);
    assert_eq!(blocks.len(), 3);
    // 3 preambles → at minimum 3 * 80 ms of preamble alone.
    assert!(blocks.len() * PREAMBLE_SAMPLES > 11_500);
    let lens: Vec<u16> = blocks
        .iter()
        .map(|b| decode_frame(&b[2..]).unwrap().0.payload_len)
        .collect();
    assert_eq!(lens, vec![219, 219, 94]);
}

#[test]
fn encodes_to_nonempty_samples() {
    let phy = FskPhy::audible();
    let tx = Transmitter::new(phy, false);
    let blocks = tx.frame_blocks(b"hi");
    assert_eq!(blocks.len(), 1);
    let samples = PREAMBLE_SAMPLES + tx.phy().frame_data_samples(blocks[0].len());
    assert!(samples > 1000, "got {samples}");
    assert_eq!(samples, 3840 + 696 * 960);
}

#[test]
fn frames_carry_first_last_and_profile_flags() {
    let tx = Transmitter::new(FskPhy::ultrasonic(), true);
    let blocks = tx.frame_blocks(&vec![7u8; 400]);
    assert_eq!(blocks.len(), 2);
    let (h0, p0) = decode_frame(&blocks[0][2..]).unwrap();
    let (h1, p1) = decode_frame(&blocks[1][2..]).unwrap();
    assert!(h0.first && !h0.last && h0.ultrasonic);
    assert!(!h1.first && h1.last && h1.ultrasonic);
    let mut all = p0.clone();
    all.extend(&p1);
    let mut expected = vec![7u8; 400];
    expected.extend(sha256(&vec![7u8; 400]));
    assert_eq!(all, expected);
}

#[test]
fn back_to_back_transmissions_decode_cleanly() {
    let tx = Transmitter::new(FskPhy::audible(), false);
    let mut rx = Receiver::new(FskPhy::audible());
    for payload in [b"first message".to_vec(), vec![0x5A; 300]] {
        let mut events = Vec::new();
        for b in tx.frame_blocks(&payload) {
            events.extend(deliver(&mut rx, &b));
        }
        assert!(matches!(events[0], FrameEvent::FrameOk { seq: 0, .. }));
        assert_eq!(events.last(), Some(&FrameEvent::StreamComplete { bytes: payload, sha256_ok: true }));
    }
}

#[test]
fn a_damaged_sync_word_drops_the_frame() {
    let tx = Transmitter::new(FskPhy::audible(), false);
    let mut block = tx.frame_blocks(b"x")[0].clone();
    // 4 wrong bits are tolerated.
    block[0] ^= 0x0F;
    let ev = deliver(&mut Receiver::new(FskPhy::audible()), &block);
    assert!(matches!(ev[0], FrameEvent::FrameOk { .. }));
    // 5 are not.
    block[1] ^= 0x01;
    let mut rx = Receiver::new(FskPhy::audible());
    let ev = deliver(&mut rx, &block);
    assert_eq!(ev, vec![FrameEvent::FrameDropped { seq: 0, reason: "bad sync word (5 bit diffs)".to_string() }]);
    // The sequence number moves on past a dropped frame.
    let ev = deliver(&mut rx, &[0u8; 10]);
    assert_eq!(ev, vec![FrameEvent::FrameDropped { seq: 1, reason: "short demod".to_string() }]);
}

#[test]
fn a_frame_beyond_repair_is_reported_as_rs_uncorrectable() {
    let tx = Transmitter::new(FskPhy::audible(), false);
    let mut block = tx.frame_blocks(b"payload")[0].clone();
    for i in 2..22 {
        block[i] ^= 0xFF;
    }
    let ev = deliver(&mut Receiver::new(FskPhy::audible()), &block);
    assert_eq!(ev, vec![FrameEvent::FrameDropped { seq: 0, reason: "RS uncorrectable".to_string() }]);
}

#[test]
fn a_wrong_sha_is_reported_as_a_mismatch() {
    // A single last frame whose final 32 bytes are not the SHA-256 of the rest.
    let payload = vec![1u8; 40];
    let header = modem::frame::FrameHeader { first: true, last: true, ultrasonic: false, payload_len: 40 };
    let frame = modem::frame::encode_frame(header, &payload).unwrap();
    let mut block = SYNC_WORD.to_vec();
    block.extend_from_slice(&frame);
    let ev = deliver(&mut Receiver::new(FskPhy::audible()), &block);
    assert_eq!(ev[1], FrameEvent::StreamComplete { bytes: vec![1u8; 8], sha256_ok: false });
    // Fewer than 32 bytes cannot hold the checksum at all.
    let header = modem::frame::FrameHeader { first: true, last: true, ultrasonic: false, payload_len: 3 };
    let frame = modem::frame::encode_frame(header, b"abc").unwrap();
    let mut block = SYNC_WORD.to_vec();
    block.extend_from_slice(&frame);
    let ev = deliver(&mut Receiver::new(FskPhy::audible()), &block);
    assert_eq!(ev[1], FrameEvent::StreamComplete { bytes: vec![], sha256_ok: false });
}

#[test]
fn scan_windows_are_bounded_by_the_look_back() {
    let rx = Receiver::new(FskPhy::audible());
    let payload = rx.payload_samples();
    assert_eq!(payload, 696 * 960);
    assert_eq!(rx.preamble_samples(), PREAMBLE_SAMPLES);
    assert_eq!(rx.scan_window(PREAMBLE_SAMPLES + payload - 1), None);
    assert_eq!(rx.scan_window(PREAMBLE_SAMPLES + payload), Some((PREAMBLE_SAMPLES, PREAMBLE_SAMPLES)));
    // 250 ms at 48 kHz is 12 000 samples.
    assert_eq!(rx.scan_window(payload + 50_000), Some((12_000, 50_000)));
}

#[test]
fn an_empty_window_retires_whole_strides() {
    let mut rx = Receiver::new(FskPhy::audible());
    assert_eq!(rx.after_scan(12_000, 50_000, None), ScanOutcome::Retire(12_000));
    assert_eq!(rx.consumed(), 12_000);
    assert_eq!(rx.after_scan(10, 10, None), ScanOutcome::Retire(8));
    assert_eq!(rx.consumed(), 12_008);
    assert_eq!(rx.after_scan(2, 2, None), ScanOutcome::Wait);
    assert_eq!(rx.consumed(), 12_008);
    assert!(rx.is_searching());
    assert!(rx.lock_offsets().is_empty());
}

#[test]
fn a_candidate_near_a_seam_is_deferred() {
    let mut rx = Receiver::new(FskPhy::audible());
    // Within a chirp of the window's edge, with the whole chirp buffered: defer,
    // retiring up to the candidate in whole strides.
    assert_eq!(rx.after_scan(12_000, 50_000, Some(10_001)), ScanOutcome::Retire(10_000));
    assert!(rx.is_searching());
    // At the end of buffered audio the same candidate is locked on.
    let out = rx.after_scan(12_000, 12_000, Some(10_001));
    assert_eq!(out, ScanOutcome::Lock { drop: 10_001 + PREAMBLE_SAMPLES, stream_offset: 20_001 });
    assert_eq!(rx.lock_offsets(), &vec![20_001]);
    assert_eq!(rx.consumed(), 20_001 + PREAMBLE_SAMPLES);
    assert!(!rx.is_searching());
    assert!(!rx.frame_ready(rx.payload_samples() - 1));
    assert!(rx.frame_ready(rx.payload_samples()));
}

#[test]
fn a_candidate_a_chirp_before_the_edge_is_locked() {
    let mut rx = Receiver::new(FskPhy::audible());
    let out = rx.after_scan(12_000, 50_000, Some(12_000 - PREAMBLE_SAMPLES));
    assert_eq!(out, ScanOutcome::Lock { drop: 12_000, stream_offset: 12_000 - PREAMBLE_SAMPLES });
}

#[test]
fn the_buffer_is_trimmed_to_four_frames() {
    let mut rx = Receiver::new(FskPhy::audible());
    let p = rx.payload_samples();
    assert_eq!(rx.trim(4 * p), 0);
    assert_eq!(rx.trim(4 * p + 7), 7);
    assert_eq!(rx.consumed(), 7);
}

#[test]
fn refinement_stays_inside_the_buffer() {
    assert_eq!(refine_window(100, 1000), (97, 103));
    assert_eq!(refine_window(1, 1000), (0, 4));
    assert_eq!(refine_window(998, 999), (995, 999));
    assert_eq!(SCAN_STRIDE, 4);
}

#[test]
fn bit_counting() {
    assert_eq!(count_ones(0), 0);
    assert_eq!(count_ones(0xFF), 8);
    assert_eq!(count_ones(0x7E ^ 0x81), 8);
    assert_eq!(count_ones(0b1010_0001), 3);
}

#[test]
fn append_keeps_order() {
    let mut v = vec![1u8, 2];
    append_bytes(&mut v, &[3, 4]);
    assert_eq!(v, vec![1, 2, 3, 4]);
    assert_eq!(FRAME_LEN + 2, DEMOD_BYTES);
    let _ = DspVariants::baseline();
}

fn air_samples(tx: &Transmitter, payload: &[u8]) -> usize {
    tx.frame_blocks(payload).iter().map(|b| PREAMBLE_SAMPLES + tx.phy().frame_data_samples(b.len())).sum()
}

#[test]
fn air_time_doubles_at_half_the_rate_but_the_chirp_does_not() {
    let payload = b"hello from the Pixel 8 Pro";
    let fast = Transmitter::new(FskPhy::audible(), false);
    let slow = Transmitter::new(FskPhy::audible_at(25, DspVariants::baseline()), false);
    let at_50 = air_samples(&fast, payload);
    let at_25 = air_samples(&slow, payload);
    assert_eq!(at_50, PREAMBLE_SAMPLES + 696 * 960);
    assert_eq!(at_25 - PREAMBLE_SAMPLES, 2 * (at_50 - PREAMBLE_SAMPLES));
    // The bytes on the air do not depend on the rate.
    assert_eq!(fast.frame_blocks(payload), slow.frame_blocks(payload));
}

#[test]
fn receiver_window_follows_the_rate() {
    let fast = Receiver::new(FskPhy::audible());
    let slow = Receiver::new(FskPhy::audible_at(25, DspVariants::baseline()));
    assert_eq!(slow.payload_samples(), 2 * fast.payload_samples());
    assert_eq!(slow.phy().symbol_rate(), 25);
    assert_eq!(fast.seq(), 0);
}

#[test]
fn symbol_windows_slide_at_most_an_eighth_of_a_symbol() {
    let mut t = SymbolTiming::new(960, 9600);
    assert_eq!(t.window_start(3), 2880);
    t.nudge(true, false);
    assert_eq!(t.offset(), 1);
    assert_eq!(t.window_start(0), 1);
    // The last window is kept inside the buffer.
    assert_eq!(t.window_start(9), 8640);
    // Probes a sixteenth of a symbol either side, when both fit.
    assert_eq!(t.probes(0), None);
    assert_eq!(t.probes(1), Some((901, 1021)));
    assert_eq!(t.probes(9), None);
    for _ in 0..200 {
        t.nudge(true, false);
    }
    assert_eq!(t.offset(), 120);
    // At the limit a later nudge is refused and an earlier one still taken.
    t.nudge(true, true);
    assert_eq!(t.offset(), 119);
    t.nudge(false, false);
    assert_eq!(t.offset(), 119);
    for _ in 0..300 {
        t.nudge(false, true);
    }
    assert_eq!(t.offset(), -120);
    assert_eq!(t.window_start(0), 0);
}

#[test]
fn locks_increase_and_lie_behind_the_stream_position() {
    let mut rx = Receiver::new(FskPhy::audible());
    assert!(matches!(rx.after_scan(0, 0, Some(0)), ScanOutcome::Lock { stream_offset: 0, .. }));
    rx.accept_frame(&[0u8; 4]);
    assert_eq!(rx.after_scan(12_000, 50_000, None), ScanOutcome::Retire(12_000));
    assert!(matches!(rx.after_scan(100, 100, Some(5)), ScanOutcome::Lock { .. }));
    let locks = rx.lock_offsets().clone();
    assert_eq!(locks, vec![0, PREAMBLE_SAMPLES + rx.payload_samples() + 12_000 + 5]);
    assert!(locks[0] < locks[1]);
    assert!(locks.iter().all(|&l| l + PREAMBLE_SAMPLES <= rx.consumed()));
}
