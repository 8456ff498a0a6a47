//! What the live commands report of received frames: a line of text per
//! frame event, and the dashboard's timeline of the most recent frames with
//! running totals.

use vstd::prelude::*;

use crate::rx::{EventView, FrameEvent};
use crate::text::{decimal, push_decimal};

verus! {

/// The timeline shows at most this many frames.
pub const MAX_TIMELINE: usize = 64;

/// The plain report of one frame event.
pub open spec fn event_text(e: EventView) -> Seq<char> {
    match e {
        EventView::FrameOk { seq, bytes } => "  frame "@ + decimal(seq as nat) + " ok ("@ + decimal(bytes.len())
            + " bytes)"@,
        EventView::FrameDropped { seq, reason } => "  frame "@ + decimal(seq as nat) + " dropped: "@ + reason,
        EventView::StreamComplete { bytes, sha256_ok } => "✓ "@ + decimal(bytes.len()) + " bytes received, sha256 "@
            + (if sha256_ok {
            "ok"@
        } else {
            "MISMATCH"@
        }),
    }
}

/// Writes the plain report of one frame event.
pub fn event_line(e: &FrameEvent) -> (s: String)
    ensures
        s@ == event_text(e@),
{
    match e {
        FrameEvent::FrameOk { seq, bytes } => {
            let mut s = String::from_str("  frame ");
            push_decimal(&mut s, *seq as u64);
            s.append(" ok (");
            push_decimal(&mut s, bytes.len() as u64);
            s.append(" bytes)");
            s
        },
        FrameEvent::FrameDropped { seq, reason } => {
            let mut s = String::from_str("  frame ");
            push_decimal(&mut s, *seq as u64);
            s.append(" dropped: ");
            s.append(reason.as_str());
            s
        },
        FrameEvent::StreamComplete { bytes, sha256_ok } => {
            let mut s = String::from_str("✓ ");
            push_decimal(&mut s, bytes.len() as u64);
            s.append(" bytes received, sha256 ");
            if *sha256_ok {
                s.append("ok");
            } else {
                s.append("MISMATCH");
            }
            s
        },
    }
}

/// How a frame ended.
#[derive(Debug, Clone, Copy, PartialEq, Eq, Structural)]
pub enum FrameStatus {
    Received,
    Dropped,
}

/// One frame on the timeline.
#[derive(Debug, Clone, Copy, PartialEq, Eq, Structural)]
pub struct FrameMark {
    pub seq: u32,
    pub status: FrameStatus,
}

/// The last `MAX_TIMELINE` entries of `s`, or all of them when there are
/// no more.
pub open spec fn most_recent(s: Seq<FrameMark>) -> Seq<FrameMark> {
    if s.len() > MAX_TIMELINE {
        s.skip(s.len() - MAX_TIMELINE)
    } else {
        s
    }
}

/// The mark a frame event leaves on the timeline, if any.
pub open spec fn mark_of(e: EventView) -> Option<FrameMark> {
    match e {
        EventView::FrameOk { seq, .. } => Some(FrameMark { seq, status: FrameStatus::Received }),
        EventView::FrameDropped { seq, .. } => Some(FrameMark { seq, status: FrameStatus::Dropped }),
        EventView::StreamComplete { .. } => None,
    }
}

/// The most recent frames and how many were received and dropped in all.
pub struct FrameTimeline {
    marks: Vec<FrameMark>,
    total_ok: usize,
    total_dropped: usize,
}

impl FrameTimeline {
    #[verifier::type_invariant]
    spec fn bounded(self) -> bool {
        self.marks@.len() <= MAX_TIMELINE
    }

    /// The frames shown, oldest first.
    pub closed spec fn spec_marks(self) -> Seq<FrameMark> {
        self.marks@
    }

    pub closed spec fn spec_total_ok(self) -> nat {
        self.total_ok as nat
    }

    pub closed spec fn spec_total_dropped(self) -> nat {
        self.total_dropped as nat
    }

    pub fn new() -> (t: Self)
        ensures
            t.spec_marks() == Seq::<FrameMark>::empty(),
            t.spec_total_ok() == 0,
            t.spec_total_dropped() == 0,
    {
        FrameTimeline { marks: Vec::new(), total_ok: 0, total_dropped: 0 }
    }

    /// Takes a frame event in: a frame that ended goes to the end of the
    /// timeline, the oldest leaving when it is full, and is counted; the end
    /// of a stream leaves no mark.
    pub fn on_frame(&mut self, e: &FrameEvent)
        requires
            old(self).spec_total_ok() < usize::MAX,
            old(self).spec_total_dropped() < usize::MAX,
        ensures
            final(self).spec_marks() == (match mark_of(e@) {
                Some(m) => most_recent(old(self).spec_marks().push(m)),
                None => old(self).spec_marks(),
            }),
            final(self).spec_marks().len() <= MAX_TIMELINE,
            final(self).spec_total_ok() == old(self).spec_total_ok() + (if e@ is FrameOk {
                1int
            } else {
                0int
            }),
            final(self).spec_total_dropped() == old(self).spec_total_dropped() + (if e@ is FrameDropped {
                1int
            } else {
                0int
            }),
    {
        proof {
            use_type_invariant(&*self);
        }
        let mark = match e {
            FrameEvent::FrameOk { seq, .. } => FrameMark { seq: *seq, status: FrameStatus::Received },
            FrameEvent::FrameDropped { seq, .. } => FrameMark { seq: *seq, status: FrameStatus::Dropped },
            FrameEvent::StreamComplete { .. } => {
                return;
            },
        };
        let ghost before = self.marks@;
        let mut marks = Vec::new();
        std::mem::swap(&mut marks, &mut self.marks);
        if marks.len() >= MAX_TIMELINE {
            marks.remove(0);
        }
        marks.push(mark);
        assert(marks@ =~= most_recent(before.push(mark)));
        let ok = if mark.status == FrameStatus::Received {
            self.total_ok + 1
        } else {
            self.total_ok
        };
        let dropped = if mark.status == FrameStatus::Dropped {
            self.total_dropped + 1
        } else {
            self.total_dropped
        };
        *self = FrameTimeline { marks, total_ok: ok, total_dropped: dropped };
    }

    /// The frames shown, oldest first.
    pub fn marks(&self) -> (m: &[FrameMark])
        ensures
            m@ == self.spec_marks(),
            m@.len() <= MAX_TIMELINE,
    {
        proof {
            use_type_invariant(self);
        }
        self.marks.as_slice()
    }

    pub fn total_ok(&self) -> (n: usize)
        ensures
            n == self.spec_total_ok(),
    {
        self.total_ok
    }

    pub fn total_dropped(&self) -> (n: usize)
        ensures
            n == self.spec_total_dropped(),
    {
        self.total_dropped
    }
}

/// The chip a frame shows on the timeline: `[ok N]` or `[DROP N]`.
pub open spec fn chip_text(m: FrameMark) -> Seq<char> {
    match m.status {
        FrameStatus::Received => "[ok "@ + decimal(m.seq as nat) + "]"@,
        FrameStatus::Dropped => "[DROP "@ + decimal(m.seq as nat) + "]"@,
    }
}

/// Writes the chip of one frame.
pub fn chip_label(m: FrameMark) -> (s: String)
    ensures
        s@ == chip_text(m),
{
    let mut s = match m.status {
        FrameStatus::Received => String::from_str("[ok "),
        FrameStatus::Dropped => String::from_str("[DROP "),
    };
    push_decimal(&mut s, m.seq as u64);
    s.append("]");
    s
}

} // verus!
