//! The receiver's decisions. The receiver alternates between searching for a
//! preamble chirp and reading the frame behind it. Correlating against the
//! chirp and demodulating tones are floating-point work done by the caller;
//! here are the choices that work feeds: which window of buffered audio to
//! search next, whether a candidate is locked on, deferred or passed over,
//! how many samples to retire, and what a demodulated frame means for the
//! stream being reassembled.

use vstd::prelude::*;

use crate::digest::{sha256, sha256_digest};
use crate::frame::{decode_frame, spec_decode_frame, spec_frame_error_text, FrameError, FRAME_LEN};
use crate::fsk::n_symbols;
use crate::phy::FskPhy;
use crate::preamble::{PREAMBLE_SAMPLES, SCAN_STRIDE, SYNC_WORD};
use crate::text::{decimal, push_decimal};
use crate::tx::sync_word;

verus! {

/// How far back a single preamble scan may reach, in milliseconds of audio.
///
/// The scan takes the *strongest* correlation in the window it is given. That
/// is the right rule for choosing between two arrivals of the same chirp, and
/// the wrong rule for choosing between two different transmissions; bounding
/// the window makes the receiver lock on the first acceptable arrival and
/// fixes the cost of one scan however much audio is buffered. 250 ms is three
/// chirp lengths and far below a frame's air time.
pub const LOOK_BACK_MILLIS: usize = 250;

/// A sync word that differs from `SYNC_WORD` in more bits than this is
/// taken as a false preamble.
pub const MAX_SYNC_BIT_ERRORS: u32 = 4;

/// Bytes demodulated after a preamble: the sync word and one frame.
pub const DEMOD_BYTES: usize = 261;

#[derive(Debug, Clone, PartialEq, Eq)]
pub enum FrameEvent {
    FrameOk { seq: u32, bytes: Vec<u8> },
    FrameDropped { seq: u32, reason: String },
    StreamComplete { bytes: Vec<u8>, sha256_ok: bool },
}

/// A frame event with its bytes and text as sequences.
pub enum EventView {
    FrameOk { seq: u32, bytes: Seq<u8> },
    FrameDropped { seq: u32, reason: Seq<char> },
    StreamComplete { bytes: Seq<u8>, sha256_ok: bool },
}

impl View for FrameEvent {
    type V = EventView;

    open spec fn view(&self) -> EventView {
        match self {
            FrameEvent::FrameOk { seq, bytes } => EventView::FrameOk { seq: *seq, bytes: bytes@ },
            FrameEvent::FrameDropped { seq, reason } => EventView::FrameDropped { seq: *seq, reason: reason@ },
            FrameEvent::StreamComplete { bytes, sha256_ok } => EventView::StreamComplete {
                bytes: bytes@,
                sha256_ok: *sha256_ok,
            },
        }
    }
}

/// Number of set bits in a byte.
pub open spec fn popcount(x: u8) -> nat {
    popcount_below(x, 8)
}

/// Number of set bits among the lowest `k` bits of `x`.
pub open spec fn popcount_below(x: u8, k: int) -> nat
    decreases k,
{
    if k <= 0 {
        0
    } else {
        popcount_below(x, k - 1) + (((x >> ((k - 1) as u8)) & 1) as nat)
    }
}

/// Bits by which the first two demodulated bytes miss the sync word.
pub open spec fn sync_bit_errors(raw: Seq<u8>) -> nat {
    popcount(raw[0] ^ 0x7Eu8) + popcount(raw[1] ^ 0x81u8)
}

/// The reason given for a frame whose sync word was too damaged.
pub open spec fn bad_sync_text(diffs: nat) -> Seq<char> {
    "bad sync word ("@ + decimal(diffs) + " bit diffs)"@
}

/// What the receiver does with the bytes demodulated after one preamble,
/// given the stream assembled so far and the sequence number of the next
/// frame: the events it reports, and the assembled bytes and sequence
/// number it continues with.
///
/// A sync word more than `MAX_SYNC_BIT_ERRORS` bits off drops the frame. A
/// frame that decodes is appended to the stream (a first frame starts a new
/// one); a last frame completes the stream, whose final 32 bytes must be
/// the SHA-256 of the rest. Any other failure drops the frame.
pub open spec fn spec_accept(assembled: Seq<u8>, seq: u32, raw: Seq<u8>) -> (Seq<EventView>, Seq<u8>, u32) {
    if raw.len() < DEMOD_BYTES {
        (seq![EventView::FrameDropped { seq, reason: "short demod"@ }], assembled, (seq + 1) as u32)
    } else if sync_bit_errors(raw) > MAX_SYNC_BIT_ERRORS {
        (
            seq![EventView::FrameDropped { seq, reason: bad_sync_text(sync_bit_errors(raw)) }],
            assembled,
            (seq + 1) as u32,
        )
    } else {
        match spec_decode_frame(raw.subrange(2, raw.len() as int)) {
            Ok((h, p)) => {
                let a0 = if h.first { Seq::<u8>::empty() } else { assembled };
                let s0 = if h.first { 0u32 } else { seq };
                let a1 = a0 + p;
                let ok_event = EventView::FrameOk { seq: s0, bytes: p };
                if h.last {
                    let done = if a1.len() >= 32 {
                        let body = a1.subrange(0, a1.len() - 32);
                        EventView::StreamComplete {
                            bytes: body,
                            sha256_ok: sha256_digest(body) == a1.subrange(a1.len() - 32, a1.len() as int),
                        }
                    } else {
                        EventView::StreamComplete { bytes: Seq::empty(), sha256_ok: false }
                    };
                    (seq![ok_event, done], Seq::empty(), 0u32)
                } else {
                    (seq![ok_event], a1, (s0 + 1) as u32)
                }
            },
            Err(FrameError::RsUncorrectable) => (
                seq![EventView::FrameDropped { seq, reason: "RS uncorrectable"@ }],
                assembled,
                (seq + 1) as u32,
            ),
            Err(e) => (
                seq![EventView::FrameDropped { seq, reason: spec_frame_error_text(e) }],
                assembled,
                (seq + 1) as u32,
            ),
        }
    }
}

/// Whether the candidate at `off` should be deferred to the next window, and
/// if so how many samples to retire first. A lock is deferred when it lies
/// within one chirp length `tn` of the window's trailing edge `bounded_end`
/// (and that edge is a look-back seam rather than the end of buffered
/// audio): the candidate could be the leading edge of a correlation band
/// whose peak lies past the seam. Retiring up to it, in whole scan strides,
/// puts the whole band into the next window. A deferral that could not make
/// progress locks instead.
pub open spec fn spec_defer(off: int, bounded_end: int, search_end: int, tn: int) -> Option<int> {
    if bounded_end - off >= tn || off + tn > search_end {
        None
    } else if (off / SCAN_STRIDE as int) * SCAN_STRIDE > 0 {
        Some((off / SCAN_STRIDE as int) * SCAN_STRIDE)
    } else {
        None
    }
}

/// Samples to retire after a window in which nothing was accepted: every
/// offset examined, in whole scan strides so that later windows keep the
/// coarse grid's phase.
pub open spec fn spec_pass_retire(bounded_end: int) -> int {
    ((bounded_end + 1) / SCAN_STRIDE as int) * SCAN_STRIDE
}

/// Lock offsets strictly increase, and every chirp locked on lies wholly
/// before the stream position `consumed`.
pub open spec fn locks_in_order(locks: Seq<usize>, consumed: int) -> bool {
    &&& forall|a: int, b: int| 0 <= a < b < locks.len() ==> #[trigger] locks[a] < #[trigger] locks[b]
    &&& forall|k: int| 0 <= k < locks.len() ==> #[trigger] locks[k] + PREAMBLE_SAMPLES <= consumed
}

/// What the caller does after a scan.
#[derive(Debug, Clone, Copy, PartialEq, Eq, Structural)]
pub enum ScanOutcome {
    /// Drop this many samples from the front of the buffer and scan again.
    Retire(usize),
    /// A preamble was locked on: drop `drop` samples (up to and including
    /// the chirp) and demodulate the frame behind it. `stream_offset` is the
    /// chirp's start counted from the first sample ever pushed.
    Lock { drop: usize, stream_offset: usize },
    /// Nothing can be retired without losing the grid's phase: wait for more
    /// audio.
    Wait,
}

pub struct Receiver {
    phy: FskPhy,
    searching: bool,
    assembled: Vec<u8>,
    seq: u32,
    /// Number of samples needed for sync(2 B) + frame(FRAME_LEN bytes).
    payload_samples: usize,
    /// Length of the preamble chirp in samples.
    preamble_samples: usize,
    /// `LOOK_BACK_MILLIS` converted to samples for this PHY's rate.
    look_back: usize,
    /// Every sample ever dropped from the front of the caller's buffer,
    /// summed: the absolute index, in the stream the caller pushed, of the
    /// buffer's first sample.
    consumed: usize,
    /// One entry per preamble lock, the offset in the caller's stream
    /// coordinates rather than the buffer's.
    locks: Vec<usize>,
}

impl Receiver {
    #[verifier::type_invariant]
    spec fn well_formed(self) -> bool {
        &&& self.payload_samples == n_symbols(DEMOD_BYTES as nat) * self.phy.spec_config().symbol_samples
        &&& 0 < self.payload_samples <= 696 * 48000
        &&& self.preamble_samples == PREAMBLE_SAMPLES
        &&& self.look_back == 12_000
        &&& locks_in_order(self.locks@, self.consumed as int)
    }

    pub closed spec fn spec_phy(self) -> FskPhy {
        self.phy
    }

    /// Whether the receiver is looking for a preamble (rather than waiting
    /// for the frame behind one).
    pub closed spec fn spec_searching(self) -> bool {
        self.searching
    }

    /// The bytes of the stream reassembled so far.
    pub closed spec fn spec_assembled(self) -> Seq<u8> {
        self.assembled@
    }

    /// The sequence number of the next frame.
    pub closed spec fn spec_seq(self) -> u32 {
        self.seq
    }

    /// Stream index of the first buffered sample.
    pub closed spec fn spec_consumed(self) -> nat {
        self.consumed as nat
    }

    /// Stream offsets of every preamble locked on, in order.
    pub closed spec fn spec_locks(self) -> Seq<usize> {
        self.locks@
    }

    /// Samples of one sync word and frame on the air.
    pub closed spec fn spec_payload_samples(self) -> nat {
        self.payload_samples as nat
    }

    pub open spec fn spec_preamble_samples(self) -> nat {
        PREAMBLE_SAMPLES as nat
    }

    pub open spec fn spec_look_back(self) -> nat {
        12_000
    }

    pub fn new(phy: FskPhy) -> (r: Self)
        ensures
            r.spec_phy() == phy,
            r.spec_searching(),
            r.spec_assembled() == Seq::<u8>::empty(),
            r.spec_seq() == 0,
            r.spec_consumed() == 0,
            r.spec_locks() == Seq::<usize>::empty(),
            r.spec_payload_samples() == n_symbols(DEMOD_BYTES as nat) * phy.spec_config().symbol_samples,
    {
        let cfg = phy.config();
        assert(n_symbols(DEMOD_BYTES as nat) == 696);
        assert(696 * cfg.symbol_samples <= 696 * 48000) by (nonlinear_arith)
            requires
                cfg.symbol_samples <= 48000,
        ;
        let payload_samples = phy.frame_data_samples(SYNC_WORD.len() + FRAME_LEN);
        let look_back = phy.sample_rate() as usize * LOOK_BACK_MILLIS / 1_000;
        Self {
            phy,
            searching: true,
            assembled: Vec::new(),
            seq: 0,
            payload_samples,
            preamble_samples: PREAMBLE_SAMPLES,
            look_back,
            consumed: 0,
            locks: Vec::new(),
        }
    }

    /// The PHY this receiver demodulates with.
    pub fn phy(&self) -> (p: &FskPhy)
        ensures
            *p == self.spec_phy(),
    {
        &self.phy
    }

    /// Every preamble this receiver has locked on, in order, as the offset
    /// counted from the first sample ever pushed.
    pub fn lock_offsets(&self) -> (l: &Vec<usize>)
        ensures
            l@ == self.spec_locks(),
            locks_in_order(l@, self.spec_consumed() as int),
    {
        proof {
            use_type_invariant(self);
        }
        &self.locks
    }

    /// Stream index of the first buffered sample.
    /// The sequence number the next frame will be reported under.
    pub fn seq(&self) -> (s: u32)
        ensures
            s == self.spec_seq(),
    {
        self.seq
    }

    pub fn consumed(&self) -> (c: usize)
        ensures
            c == self.spec_consumed(),
    {
        self.consumed
    }

    /// Samples of one sync word and frame on the air.
    pub fn payload_samples(&self) -> (n: usize)
        ensures
            n == self.spec_payload_samples(),
            n > 0,
    {
        proof {
            use_type_invariant(self);
        }
        self.payload_samples
    }

    /// Length of the preamble chirp in samples.
    pub fn preamble_samples(&self) -> (n: usize)
        ensures
            n == PREAMBLE_SAMPLES,
    {
        proof {
            use_type_invariant(self);
        }
        self.preamble_samples
    }

    pub fn is_searching(&self) -> (b: bool)
        ensures
            b == self.spec_searching(),
    {
        self.searching
    }

    /// The window to scan next in a buffer of `buffer_len` samples, as
    /// `(bounded_end, search_end)`: `search_end` is the highest offset whose
    /// whole frame is already buffered, `bounded_end` that offset bounded by
    /// the look-back. The scan examines offsets `0..=bounded_end`, so it
    /// reads `bounded_end + PREAMBLE_SAMPLES` samples. `None` until a chirp
    /// and a frame's worth of audio are buffered.
    pub fn scan_window(&self, buffer_len: usize) -> (w: Option<(usize, usize)>)
        ensures
            buffer_len < PREAMBLE_SAMPLES + self.spec_payload_samples() ==> w is None,
            buffer_len >= PREAMBLE_SAMPLES + self.spec_payload_samples() ==> (w matches Some(
                (bounded_end, search_end),
            ) && search_end == buffer_len - self.spec_payload_samples() && bounded_end == (
            if search_end <= self.spec_look_back() {
                search_end as int
            } else {
                self.spec_look_back() as int
            })),
            w matches Some((bounded_end, search_end)) ==> bounded_end <= search_end
                && bounded_end <= self.spec_look_back() && search_end + self.spec_payload_samples() == buffer_len,
    {
        proof {
            use_type_invariant(self);
        }
        let tn = self.preamble_samples;
        if buffer_len < tn + self.payload_samples {
            return None;
        }
        let search_end = buffer_len - self.payload_samples;
        let bounded_end = if search_end <= self.look_back { search_end } else { self.look_back };
        Some((bounded_end, search_end))
    }

    fn defer_to_next_window(&self, off: usize, bounded_end: usize, search_end: usize) -> (d: Option<usize>)
        requires
            off <= bounded_end <= search_end,
        ensures
            d matches Some(r) ==> spec_defer(off as int, bounded_end as int, search_end as int, PREAMBLE_SAMPLES as int) == Some(r as int),
            d is None ==> spec_defer(off as int, bounded_end as int, search_end as int, PREAMBLE_SAMPLES as int) is None,
    {
        proof {
            use_type_invariant(self);
        }
        let tn = self.preamble_samples;
        if bounded_end - off >= tn || search_end < tn || off > search_end - tn {
            return None;
        }
        let retire = (off / SCAN_STRIDE) * SCAN_STRIDE;
        if retire > 0 {
            Some(retire)
        } else {
            None
        }
    }

    /// Acts on a finished scan of the window `(bounded_end, search_end)` that
    /// `scan_window` gave. `candidate` is the offset of the window's peak
    /// when its score cleared the accept threshold, `None` when nothing in
    /// the window did.
    pub fn after_scan(&mut self, bounded_end: usize, search_end: usize, candidate: Option<usize>) -> (out: ScanOutcome)
        requires
            old(self).spec_searching(),
            bounded_end <= search_end,
            candidate matches Some(off) ==> off <= bounded_end,
            old(self).spec_consumed() + search_end + PREAMBLE_SAMPLES <= usize::MAX,
        ensures
            final(self).spec_phy() == old(self).spec_phy(),
            final(self).spec_assembled() == old(self).spec_assembled(),
            final(self).spec_seq() == old(self).spec_seq(),
            final(self).spec_payload_samples() == old(self).spec_payload_samples(),
            match candidate {
                Some(off) => match spec_defer(off as int, bounded_end as int, search_end as int, PREAMBLE_SAMPLES as int) {
                    Some(r) => {
                        &&& out == ScanOutcome::Retire(r as usize)
                        &&& final(self).spec_searching()
                        &&& final(self).spec_consumed() == old(self).spec_consumed() + r
                        &&& final(self).spec_locks() == old(self).spec_locks()
                    },
                    None => {
                        &&& out == (ScanOutcome::Lock { drop: (off + PREAMBLE_SAMPLES) as usize, stream_offset: (old(self).spec_consumed() + off) as usize })
                        &&& !final(self).spec_searching()
                        &&& final(self).spec_consumed() == old(self).spec_consumed() + off + PREAMBLE_SAMPLES
                        &&& final(self).spec_locks() == old(self).spec_locks().push((old(self).spec_consumed() + off) as usize)
                    },
                },
                None => {
                    &&& final(self).spec_searching()
                    &&& final(self).spec_locks() == old(self).spec_locks()
                    &&& if spec_pass_retire(bounded_end as int) == 0 {
                        &&& out == ScanOutcome::Wait
                        &&& final(self).spec_consumed() == old(self).spec_consumed()
                    } else {
                        &&& out == ScanOutcome::Retire(spec_pass_retire(bounded_end as int) as usize)
                        &&& final(self).spec_consumed() == old(self).spec_consumed() + spec_pass_retire(bounded_end as int)
                    }
                },
            },
    {
        proof {
            use_type_invariant(&*self);
        }
        match candidate {
            Some(off) => {
                // Before locking: is this candidate close enough to the
                // window's trailing edge that it could be the leading edge of
                // a band whose peak is on the other side of a seam? If so,
                // retire up to it and rescan rather than lock.
                if let Some(retire) = self.defer_to_next_window(off, bounded_end, search_end) {
                    self.consumed = self.consumed + retire;
                    return ScanOutcome::Retire(retire);
                }
                let stream_offset = self.consumed + off;
                let mut locks: Vec<usize> = Vec::new();
                std::mem::swap(&mut locks, &mut self.locks);
                let ghost before = locks@;
                locks.push(stream_offset);
                // Drop everything up to and including the preamble.
                let drop = off + self.preamble_samples;
                self.consumed = self.consumed + drop;
                assert(locks@ == before.push(stream_offset));
                assert forall|k: int| 0 <= k < before.len() implies #[trigger] before[k] < stream_offset by {
                    assert(before[k] + PREAMBLE_SAMPLES <= old(self).consumed);
                }
                self.locks = locks;
                self.searching = false;
                ScanOutcome::Lock { drop, stream_offset }
            },
            None => {
                // Nothing acceptable in this window: retire the offsets just
                // examined, in whole strides.
                let retire = ((bounded_end + 1) / SCAN_STRIDE) * SCAN_STRIDE;
                if retire == 0 {
                    return ScanOutcome::Wait;
                }
                self.consumed = self.consumed + retire;
                ScanOutcome::Retire(retire)
            },
        }
    }

    /// Whether the frame behind a locked preamble is fully buffered.
    pub fn frame_ready(&self, buffer_len: usize) -> (b: bool)
        ensures
            b == (!self.spec_searching() && buffer_len >= self.spec_payload_samples()),
    {
        !self.searching && buffer_len >= self.payload_samples
    }

    /// Takes the bytes demodulated from the `payload_samples()` samples that
    /// followed a locked preamble (the caller drops those samples from its
    /// buffer), and goes back to searching.
    pub fn accept_frame(&mut self, raw: &[u8]) -> (events: Vec<FrameEvent>)
        requires
            !old(self).spec_searching(),
            old(self).spec_seq() < u32::MAX,
            old(self).spec_consumed() + old(self).spec_payload_samples() <= usize::MAX,
            raw@.len() <= DEMOD_BYTES,
        ensures
            final(self).spec_searching(),
            final(self).spec_phy() == old(self).spec_phy(),
            final(self).spec_locks() == old(self).spec_locks(),
            final(self).spec_payload_samples() == old(self).spec_payload_samples(),
            final(self).spec_consumed() == old(self).spec_consumed() + old(self).spec_payload_samples(),
            events@.map_values(|e: FrameEvent| e@) == spec_accept(old(self).spec_assembled(), old(self).spec_seq(), raw@).0,
            final(self).spec_assembled() == spec_accept(old(self).spec_assembled(), old(self).spec_seq(), raw@).1,
            final(self).spec_seq() == spec_accept(old(self).spec_assembled(), old(self).spec_seq(), raw@).2,
    {
        proof {
            use_type_invariant(&*self);
        }
        self.consumed = self.consumed + self.payload_samples;
        self.searching = true;
        let ghost a = self.assembled@;
        let ghost s = self.seq;
        let ghost expect = spec_accept(a, s, raw@);
        let mut events: Vec<FrameEvent> = Vec::new();

        if raw.len() < DEMOD_BYTES {
            events.push(FrameEvent::FrameDropped { seq: self.seq, reason: String::from_str("short demod") });
            self.seq = self.seq + 1;
            assert(events@.map_values(|e: FrameEvent| e@) =~= expect.0);
            return events;
        }
        // Sync word: count *bit* mismatches across the 16-bit sync. Up to 4
        // still strongly indicates a real preamble (pure noise scores ~8);
        // RS+CRC catches the rest if this lets a false preamble through.
        let bit_diffs = count_ones(raw[0] ^ 0x7E) + count_ones(raw[1] ^ 0x81);
        if bit_diffs > MAX_SYNC_BIT_ERRORS {
            let mut reason = String::from_str("bad sync word (");
            push_decimal(&mut reason, bit_diffs as u64);
            reason.append(" bit diffs)");
            events.push(FrameEvent::FrameDropped { seq: self.seq, reason });
            self.seq = self.seq + 1;
            assert(events@.map_values(|e: FrameEvent| e@) =~= expect.0);
            return events;
        }
        let frame_part = &raw[2..raw.len()];
        match decode_frame(frame_part) {
            Ok((header, payload)) => {
                let mut assembled: Vec<u8> = Vec::new();
                std::mem::swap(&mut assembled, &mut self.assembled);
                if header.first {
                    assembled.clear();
                    self.seq = 0;
                }
                crate::tx::append_bytes(&mut assembled, payload.as_slice());
                self.assembled = assembled;
                let ok_seq = self.seq;
                events.push(FrameEvent::FrameOk { seq: ok_seq, bytes: payload });
                if header.last {
                    // Last 32 bytes of assembled are the SHA-256.
                    let n = self.assembled.len();
                    if n >= 32 {
                        let body = copy_range(&self.assembled, 0, n - 32);
                        let computed = sha256(body.as_slice());
                        let ok = bytes_equal(&computed, &self.assembled.as_slice()[n - 32..n]);
                        assert(self.assembled@.subrange(n - 32, n as int) =~= self.assembled@.subrange(n - 32, n as int));
                        events.push(FrameEvent::StreamComplete { bytes: body, sha256_ok: ok });
                    } else {
                        events.push(FrameEvent::StreamComplete { bytes: Vec::new(), sha256_ok: false });
                    }
                    self.assembled = Vec::new();
                    self.seq = 0;
                    assert(events@.map_values(|e: FrameEvent| e@) =~= expect.0);
                    return events;
                }
                self.seq = self.seq + 1;
                assert(events@.map_values(|e: FrameEvent| e@) =~= expect.0);
            },
            Err(FrameError::RsUncorrectable) => {
                events.push(
                    FrameEvent::FrameDropped { seq: self.seq, reason: String::from_str("RS uncorrectable") },
                );
                self.seq = self.seq + 1;
                assert(events@.map_values(|e: FrameEvent| e@) =~= expect.0);
            },
            Err(e) => {
                events.push(FrameEvent::FrameDropped { seq: self.seq, reason: e.message() });
                self.seq = self.seq + 1;
                assert(events@.map_values(|e: FrameEvent| e@) =~= expect.0);
            },
        }
        events
    }

    /// Samples to drop from the front of a buffer of `buffer_len` samples to
    /// bound memory at about four frames' worth; the drop is counted into the
    /// stream position.
    pub fn trim(&mut self, buffer_len: usize) -> (drop: usize)
        requires
            old(self).spec_consumed() + buffer_len <= usize::MAX,
        ensures
            drop == (if buffer_len > 4 * old(self).spec_payload_samples() {
                buffer_len - 4 * old(self).spec_payload_samples()
            } else {
                0
            }),
            final(self).spec_consumed() == old(self).spec_consumed() + drop,
            final(self).spec_searching() == old(self).spec_searching(),
            final(self).spec_assembled() == old(self).spec_assembled(),
            final(self).spec_seq() == old(self).spec_seq(),
            final(self).spec_locks() == old(self).spec_locks(),
            final(self).spec_phy() == old(self).spec_phy(),
            final(self).spec_payload_samples() == old(self).spec_payload_samples(),
    {
        proof {
            use_type_invariant(&*self);
        }
        let max_keep = self.payload_samples * 4;
        if buffer_len > max_keep {
            let drop = buffer_len - max_keep;
            self.consumed = self.consumed + drop;
            drop
        } else {
            0
        }
    }
}

/// Number of set bits in `x`.
pub fn count_ones(x: u8) -> (n: u32)
    ensures
        n == popcount(x),
        n <= 8,
{
    let mut n: u32 = 0;
    let mut k: u8 = 0;
    while k < 8
        invariant
            k <= 8,
            n == popcount_below(x, k as int),
            n <= k,
        decreases 8 - k,
    {
        assert((x >> k) & 1 <= 1) by (bit_vector);
        n = n + ((x >> k) & 1) as u32;
        k += 1;
    }
    n
}

/// The bytes `from..to` of `v`, copied.
fn copy_range(v: &Vec<u8>, from: usize, to: usize) -> (out: Vec<u8>)
    requires
        from <= to <= v@.len(),
    ensures
        out@ == v@.subrange(from as int, to as int),
{
    let mut out: Vec<u8> = Vec::new();
    let mut i = from;
    while i < to
        invariant
            from <= i <= to <= v@.len(),
            out@ == v@.subrange(from as int, i as int),
        decreases to - i,
    {
        out.push(v[i]);
        i += 1;
        assert(out@ =~= v@.subrange(from as int, i as int));
    }
    out
}

/// Whether a digest equals 32 bytes of a slice.
fn bytes_equal(a: &[u8; 32], b: &[u8]) -> (eq: bool)
    ensures
        eq == (a@ == b@),
{
    if b.len() != 32 {
        return false;
    }
    let mut i: usize = 0;
    while i < 32
        invariant
            i <= 32,
            b@.len() == 32,
            forall|k: int| 0 <= k < i ==> a@[k] == b@[k],
        decreases 32 - i,
    {
        if a[i] != b[i] {
            return false;
        }
        i += 1;
    }
    assert(a@ =~= b@);
    true
}

/// The window a scan of `buffer_len` buffered samples examines, as
/// `(bounded_end, search_end)`: every offset whose whole frame is buffered,
/// up to the look-back bound.
pub open spec fn scan_geometry(buffer_len: int, payload_samples: int) -> (int, int) {
    let search_end = buffer_len - payload_samples;
    (if search_end <= 12_000 { search_end } else { 12_000int }, search_end)
}

/// A candidate is never deferred when the window's trailing edge is the end
/// of buffered audio: there the peak is not in a next window but not yet
/// buffered, and the candidate is locked on.
pub proof fn lemma_no_deferral_at_the_end_of_audio(off: int, end: int)
    requires
        0 <= off <= end,
    ensures
        spec_defer(off, end, end, PREAMBLE_SAMPLES as int) is None,
{
}

/// A deferral makes progress and keeps its candidate. In a window of the
/// receiver's geometry it fires only at a look-back seam; it retires a whole
/// number of scan strides, so later windows score the same grid; it retires
/// at least the look-back less one chirp, so the scan cannot stand still;
/// and it never retires past the candidate, which stays in the next window.
pub proof fn lemma_deferral_progress(off: int, buffer_len: int, payload_samples: int)
    requires
        buffer_len >= PREAMBLE_SAMPLES + payload_samples,
        payload_samples > 0,
        0 <= off <= scan_geometry(buffer_len, payload_samples).0,
    ensures
        ({
            let (bounded_end, search_end) = scan_geometry(buffer_len, payload_samples);
            spec_defer(off, bounded_end, search_end, PREAMBLE_SAMPLES as int) matches Some(r) ==> {
                &&& bounded_end == 12_000 < search_end
                &&& r % (SCAN_STRIDE as int) == 0
                &&& 12_000 - PREAMBLE_SAMPLES <= r <= off
            }
        }),
{
}

/// The same candidate is not deferred twice: once the deferral has retired
/// its samples, the next scan of the buffer finds the candidate at least a
/// chirp length before that window's trailing edge, or at the end of
/// buffered audio, and locks on it.
pub proof fn lemma_deferred_once(off: int, buffer_len: int, payload_samples: int)
    requires
        buffer_len >= PREAMBLE_SAMPLES + payload_samples,
        payload_samples > 0,
        0 <= off <= scan_geometry(buffer_len, payload_samples).0,
    ensures
        ({
            let (bounded_end, search_end) = scan_geometry(buffer_len, payload_samples);
            spec_defer(off, bounded_end, search_end, PREAMBLE_SAMPLES as int) matches Some(r) ==> {
                let (next_bounded, next_search) = scan_geometry(buffer_len - r, payload_samples);
                &&& 0 <= off - r <= next_bounded
                &&& spec_defer(off - r, next_bounded, next_search, PREAMBLE_SAMPLES as int) is None
            }
        }),
{
}

/// A window in which nothing was accepted retires whole scan strides, every
/// offset it scored but at most the last few, and none it did not score.
pub proof fn lemma_pass_retire_keeps_the_grid(bounded_end: int)
    requires
        bounded_end >= 0,
    ensures
        spec_pass_retire(bounded_end) % (SCAN_STRIDE as int) == 0,
        bounded_end + 1 - (SCAN_STRIDE as int) < spec_pass_retire(bounded_end) <= bounded_end + 1,
{
}

} // verus!
