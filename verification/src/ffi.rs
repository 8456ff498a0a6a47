//! What the Android binding decides: the PHY a profile and rate build, and
//! the events it hands across.

use vstd::prelude::*;

use crate::fsk::{valid_symbol_rate, DspVariants, DEFAULT_SYMBOL_RATE};
use crate::phy::{FskPhy, Profile};
use crate::rx::FrameEvent;

verus! {

/// Symbols per second the rate-less constructors use, so callers can offer a
/// rate control without hard-coding it on the other side of the binding.
pub fn default_symbol_rate() -> (r: u32)
    ensures
        r == DEFAULT_SYMBOL_RATE,
{
    DEFAULT_SYMBOL_RATE
}

/// Build the PHY for `profile` at `symbol_rate`, which must divide 48 kHz
/// exactly. Both ends of a link must be built at the same rate: it is not
/// part of the frame format, so nothing on the wire announces it.
pub fn phy_for(profile: &Profile, symbol_rate: u32, variants: DspVariants) -> (p: FskPhy)
    requires
        valid_symbol_rate(symbol_rate),
    ensures
        p.is_profile_at(*profile, symbol_rate, variants),
{
    match profile {
        Profile::Audible => FskPhy::audible_at(symbol_rate, variants),
        Profile::Ultrasonic => FskPhy::ultrasonic_at(symbol_rate, variants),
    }
}

/// A frame event as the binding hands it over.
#[derive(Debug, Clone, PartialEq, Eq)]
pub enum FfiFrameEvent {
    FrameOk { seq: u32, bytes: Vec<u8> },
    FrameDropped { seq: u32, reason: String },
    StreamComplete { bytes: Vec<u8>, sha256_ok: bool },
}

/// Whether an event of the binding carries exactly what a receiver event
/// does.
pub open spec fn same_event(f: FfiFrameEvent, e: FrameEvent) -> bool {
    match (f, e) {
        (FfiFrameEvent::FrameOk { seq: s1, bytes: b1 }, FrameEvent::FrameOk { seq: s2, bytes: b2 }) => s1
            == s2 && b1@ == b2@,
        (
            FfiFrameEvent::FrameDropped { seq: s1, reason: r1 },
            FrameEvent::FrameDropped { seq: s2, reason: r2 },
        ) => s1 == s2 && r1@ == r2@,
        (
            FfiFrameEvent::StreamComplete { bytes: b1, sha256_ok: o1 },
            FrameEvent::StreamComplete { bytes: b2, sha256_ok: o2 },
        ) => b1@ == b2@ && o1 == o2,
        _ => false,
    }
}

/// The receiver's event as the binding's.
pub fn convert(e: FrameEvent) -> (f: FfiFrameEvent)
    ensures
        same_event(f, e),
{
    match e {
        FrameEvent::FrameOk { seq, bytes } => FfiFrameEvent::FrameOk { seq, bytes },
        FrameEvent::FrameDropped { seq, reason } => FfiFrameEvent::FrameDropped { seq, reason },
        FrameEvent::StreamComplete { bytes, sha256_ok } => FfiFrameEvent::StreamComplete { bytes, sha256_ok },
    }
}

} // verus!
