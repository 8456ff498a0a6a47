//! Frame preamble: linear up-chirp + sync word. The chirp itself is a
//! floating-point waveform; what is fixed about it, and the integer geometry
//! of the search for it, is here.

use vstd::prelude::*;

verus! {

/// Sync word that follows the chirp (one symbol's worth of recognizable bytes).
pub const SYNC_WORD: [u8; 2] = [0x7E, 0x81];

/// Length of the chirp: 80 ms at 48 kHz.
pub const PREAMBLE_SAMPLES: usize = 3840;

/// Coarse scan stride, in samples. The coarse grid has a *phase*: the scan
/// strides from index 0 of whatever slice it is handed, so a caller that
/// slides a window across a stream has to advance in whole strides to keep
/// scoring the same set of offsets.
pub const SCAN_STRIDE: usize = 4;

/// The offsets the bounded refine re-scores around a coarse winner: the
/// `SCAN_STRIDE - 1` samples either side of it, clipped to `0..=last`.
/// Exactly, and only, the offsets the coarse grid skipped near the winner.
pub fn refine_window(coarse_off: usize, last: usize) -> (r: (usize, usize))
    requires
        coarse_off <= last,
    ensures
        r.0 == (if coarse_off >= SCAN_STRIDE - 1 { coarse_off - (SCAN_STRIDE - 1) } else { 0int }),
        r.1 == (if coarse_off + (SCAN_STRIDE - 1) <= last { coarse_off + (SCAN_STRIDE - 1) } else { last as int }),
        r.0 <= coarse_off <= r.1 <= last,
{
    let lo = coarse_off.saturating_sub(SCAN_STRIDE - 1);
    let hi = if last >= SCAN_STRIDE - 1 && coarse_off <= last - (SCAN_STRIDE - 1) {
        coarse_off + (SCAN_STRIDE - 1)
    } else {
        last
    };
    (lo, hi)
}

} // verus!
