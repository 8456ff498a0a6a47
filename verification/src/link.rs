//! The link end to end at the byte level: the blocks a transmitter sends,
//! taken by a receiver in order and unharmed, give back the payload.

use vstd::prelude::*;

use crate::digest::sha256_digest;
use crate::frame::{lemma_frame_roundtrip, spec_decode_frame, spec_encode_frame, spec_frame, FrameHeader, MAX_PAYLOAD};
use crate::rx::{popcount, popcount_below, spec_accept, sync_bit_errors, EventView, DEMOD_BYTES};
use crate::tx::{frame_block, frame_chunk, frame_header_for, n_frames, sync_word, transmission};

verus! {

/// The receiver taking a run of demodulated blocks in order, from the stream
/// state `(assembled, seq)`: every event reported, and the state it ends in.
pub open spec fn spec_accept_all(assembled: Seq<u8>, seq: u32, raws: Seq<Seq<u8>>) -> (Seq<EventView>, Seq<u8>, u32)
    decreases raws.len(),
{
    if raws.len() == 0 {
        (Seq::empty(), assembled, seq)
    } else {
        let first = spec_accept(assembled, seq, raws[0]);
        let rest = spec_accept_all(first.1, first.2, raws.drop_first());
        (first.0 + rest.0, rest.1, rest.2)
    }
}

/// The blocks a transmitter sends for `payload`.
pub open spec fn sent_blocks(payload: Seq<u8>, ultrasonic: bool) -> Seq<Seq<u8>> {
    let full = transmission(payload);
    Seq::new(n_frames(full.len()), |k: int| frame_block(full, k, ultrasonic))
}

/// The events a receiver reports for an unharmed transmission of
/// `payload`: every frame in order, numbered from 0, then the payload with
/// its checksum confirmed.
pub open spec fn delivered_events(payload: Seq<u8>) -> Seq<EventView> {
    let full = transmission(payload);
    Seq::new(n_frames(full.len()), |k: int| EventView::FrameOk { seq: k as u32, bytes: frame_chunk(full, k) })
        + seq![EventView::StreamComplete { bytes: payload, sha256_ok: true }]
}

proof fn lemma_sync_word_exact(raw: Seq<u8>)
    requires
        raw.len() >= 2,
        raw[0] == 0x7Eu8,
        raw[1] == 0x81u8,
    ensures
        sync_bit_errors(raw) == 0,
{
    assert(0x7Eu8 ^ 0x7Eu8 == 0u8) by (bit_vector);
    assert(0x81u8 ^ 0x81u8 == 0u8) by (bit_vector);
    assert(popcount(0u8) == 0) by {
        assert((0u8 >> 0u8) & 1 == 0) by (bit_vector);
        assert((0u8 >> 1u8) & 1 == 0) by (bit_vector);
        assert((0u8 >> 2u8) & 1 == 0) by (bit_vector);
        assert((0u8 >> 3u8) & 1 == 0) by (bit_vector);
        assert((0u8 >> 4u8) & 1 == 0) by (bit_vector);
        assert((0u8 >> 5u8) & 1 == 0) by (bit_vector);
        assert((0u8 >> 6u8) & 1 == 0) by (bit_vector);
        assert((0u8 >> 7u8) & 1 == 0) by (bit_vector);
        reveal_with_fuel(popcount_below, 9);
    }
}

/// Facts about how a stream of `len` bytes splits into frames.
proof fn lemma_chunks(full: Seq<u8>, k: int)
    requires
        32 <= full.len(),
        n_frames(full.len()) <= u32::MAX,
        0 <= k < n_frames(full.len()),
    ensures
        n_frames(full.len()) >= 1,
        MAX_PAYLOAD * k < full.len(),
        k < n_frames(full.len()) - 1 ==> MAX_PAYLOAD * (k + 1) <= full.len(),
        k == n_frames(full.len()) - 1 ==> full.len() <= MAX_PAYLOAD * (k + 1),
        1 <= frame_chunk(full, k).len() <= MAX_PAYLOAD,
        frame_chunk(full, k) == full.subrange(MAX_PAYLOAD * k, if MAX_PAYLOAD * (k + 1) <= full.len() {
            MAX_PAYLOAD * (k + 1)
        } else {
            full.len() as int
        }),
{
    let l = full.len() as int;
    let n = n_frames(full.len()) as int;
    assert(n == (l + 218) / 219);
    assert(219 * n <= l + 218 < 219 * n + 219) by (nonlinear_arith)
        requires
            n == (l + 218) / 219,
            l >= 0,
    ;
    assert(219 * k <= 219 * (n - 1)) by (nonlinear_arith)
        requires
            k <= n - 1,
    ;
    assert(k < n - 1 ==> 219 * (k + 1) <= 219 * (n - 1)) by (nonlinear_arith)
        requires
            k + 1 <= n - 1 || k >= n - 1,
    ;
}

/// What the receiver makes of block `k` of a transmission, given the state
/// it is in before it.
proof fn lemma_block_decodes(payload: Seq<u8>, ultrasonic: bool, k: int)
    requires
        n_frames(payload.len() + 32) <= u32::MAX,
        0 <= k < n_frames(transmission(payload).len()),
    ensures
        ({
            let full = transmission(payload);
            let raw = frame_block(full, k, ultrasonic);
            let n = n_frames(full.len());
            &&& raw.len() >= DEMOD_BYTES
            &&& sync_bit_errors(raw) == 0
            &&& spec_decode_frame(raw.subrange(2, raw.len() as int)) == Ok::<(FrameHeader, Seq<u8>), crate::frame::FrameError>(
                (frame_header_for(k, n as int, ultrasonic, frame_chunk(full, k).len()), frame_chunk(full, k)),
            )
        }),
{
    let full = transmission(payload);
    assert(full.len() == payload.len() + 32);
    lemma_chunks(full, k);
    let n = n_frames(full.len());
    let c = frame_chunk(full, k);
    let h = frame_header_for(k, n as int, ultrasonic, c.len());
    assert(c.len() == h.payload_len);
    lemma_frame_roundtrip(h, c);
    crate::frame::lemma_frame_is_codeword(h, c);
    let raw = frame_block(full, k, ultrasonic);
    assert(raw.subrange(2, raw.len() as int) =~= spec_frame(h, c));
    lemma_sync_word_exact(raw);
}

/// From frame `k` onward, with the first `k` frames already assembled, the
/// receiver reports frames `k..n` and then the payload, and ends reset.
proof fn lemma_accept_suffix(payload: Seq<u8>, ultrasonic: bool, k: int)
    requires
        n_frames(payload.len() + 32) <= u32::MAX,
        1 <= k < n_frames(transmission(payload).len()),
    ensures
        ({
            let full = transmission(payload);
            let n = n_frames(full.len()) as int;
            spec_accept_all(
                full.subrange(0, MAX_PAYLOAD * k),
                k as u32,
                sent_blocks(payload, ultrasonic).subrange(k, n),
            ) == (delivered_events(payload).subrange(k, n + 1), Seq::<u8>::empty(), 0u32)
        }),
    decreases n_frames(transmission(payload).len()) - k,
{
    let full = transmission(payload);
    let n = n_frames(full.len()) as int;
    let blocks = sent_blocks(payload, ultrasonic);
    let expected = delivered_events(payload);
    lemma_chunks(full, k);
    lemma_block_decodes(payload, ultrasonic, k);
    let c = frame_chunk(full, k);
    let a = full.subrange(0, MAX_PAYLOAD * k);
    let suffix = blocks.subrange(k, n);
    assert(suffix[0] == frame_block(full, k, ultrasonic));
    let step = spec_accept(a, k as u32, suffix[0]);
    if k == n - 1 {
        assert(a + c =~= full);
        assert(full.subrange(0, full.len() - 32) =~= payload);
        assert(full.subrange(full.len() - 32, full.len() as int) =~= sha256_digest(payload));
        assert(step.0 =~= seq![
            EventView::FrameOk { seq: k as u32, bytes: c },
            EventView::StreamComplete { bytes: payload, sha256_ok: true },
        ]);
        assert(step.1 == Seq::<u8>::empty() && step.2 == 0u32);
        assert(suffix.drop_first() =~= Seq::<Seq<u8>>::empty());
        let rest = spec_accept_all(step.1, step.2, suffix.drop_first());
        assert(rest == (Seq::<EventView>::empty(), Seq::<u8>::empty(), 0u32));
        assert(step.0 + rest.0 =~= step.0);
        assert(expected.subrange(k, n + 1) =~= step.0);
    } else {
        assert(a + c =~= full.subrange(0, MAX_PAYLOAD * (k + 1)));
        assert(step.1 == full.subrange(0, MAX_PAYLOAD * (k + 1)));
        assert(step.2 == (k + 1) as u32);
        lemma_accept_suffix(payload, ultrasonic, k + 1);
        assert(suffix.drop_first() =~= blocks.subrange(k + 1, n));
        assert(step.0 =~= seq![EventView::FrameOk { seq: k as u32, bytes: c }]);
        assert(expected.subrange(k, n + 1) =~= step.0 + expected.subrange(k + 1, n + 1));
    }
}

/// A receiver given the blocks a transmitter sent for `payload`, in order
/// and unharmed, reports every frame and then exactly `payload` with its
/// SHA-256 confirmed, and is left ready for the next transmission, whatever
/// stream it was in the middle of before: the first frame of a transmission
/// discards anything left over. Frames are numbered with 32-bit sequence
/// numbers, so the transmission may take at most `u32::MAX` frames.
pub proof fn lemma_link_delivers_payload(assembled: Seq<u8>, seq: u32, payload: Seq<u8>, ultrasonic: bool)
    requires
        n_frames(payload.len() + 32) <= u32::MAX,
    ensures
        spec_accept_all(assembled, seq, sent_blocks(payload, ultrasonic)) == (
            delivered_events(payload),
            Seq::<u8>::empty(),
            0u32,
        ),
{
    let full = transmission(payload);
    let n = n_frames(full.len()) as int;
    let blocks = sent_blocks(payload, ultrasonic);
    let expected = delivered_events(payload);
    assert(full.len() == payload.len() + 32);
    lemma_chunks(full, 0);
    lemma_block_decodes(payload, ultrasonic, 0);
    let c = frame_chunk(full, 0);
    let step = spec_accept(assembled, seq, blocks[0]);
    if n == 1 {
        assert(Seq::<u8>::empty() + c =~= full);
        assert(full.subrange(0, full.len() - 32) =~= payload);
        assert(full.subrange(full.len() - 32, full.len() as int) =~= sha256_digest(payload));
        assert(step.0 =~= expected);
        assert(step.1 == Seq::<u8>::empty() && step.2 == 0u32);
        assert(blocks.drop_first() =~= Seq::<Seq<u8>>::empty());
        let rest = spec_accept_all(step.1, step.2, blocks.drop_first());
        assert(rest == (Seq::<EventView>::empty(), Seq::<u8>::empty(), 0u32));
        assert(step.0 + rest.0 =~= step.0);
    } else {
        assert(Seq::<u8>::empty() + c =~= full.subrange(0, MAX_PAYLOAD as int));
        assert(step.1 == full.subrange(0, MAX_PAYLOAD as int));
        assert(step.2 == 1u32);
        lemma_accept_suffix(payload, ultrasonic, 1);
        assert(blocks.drop_first() =~= blocks.subrange(1, n));
        assert(step.0 =~= seq![EventView::FrameOk { seq: 0u32, bytes: c }]);
        assert(expected =~= step.0 + expected.subrange(1, n + 1));
    }
}

} // verus!
