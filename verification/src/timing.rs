//! Early-late symbol timing. The demodulator measures each symbol in a
//! window that may slide from its nominal position by up to an eighth of a
//! symbol, one sample at a time, to follow clock drift between the two ends.
//! Which way to slide is decided by comparing tone energies, which is signal
//! processing; where the windows are, and how far they may go, is here.

use vstd::prelude::*;

verus! {

/// The distance of the early and late probes from the window.
pub open spec fn probe_step(n: int) -> int {
    if n / 16 >= 2 {
        n / 16
    } else {
        2
    }
}

/// How far the window may slide either way.
pub open spec fn max_offset(n: int) -> int {
    n / 8
}

/// `x` limited to `lo..=hi`.
pub open spec fn clamp(x: int, lo: int, hi: int) -> int {
    if x < lo {
        lo
    } else if x > hi {
        hi
    } else {
        x
    }
}

/// The tracker over one buffer of `buf_len` samples holding whole symbols
/// of `n` samples each.
pub struct SymbolTiming {
    n: i64,
    buf_len: i64,
    offset: i64,
}

impl SymbolTiming {
    #[verifier::type_invariant]
    spec fn in_range(self) -> bool {
        &&& 0 < self.n <= self.buf_len <= i32::MAX
        &&& -max_offset(self.n as int) <= self.offset <= max_offset(self.n as int)
    }

    pub closed spec fn spec_n(self) -> int {
        self.n as int
    }

    pub closed spec fn spec_buf_len(self) -> int {
        self.buf_len as int
    }

    /// How far the window currently sits from its nominal position.
    pub closed spec fn spec_offset(self) -> int {
        self.offset as int
    }

    /// A tracker for a buffer of `buf_len` samples in symbols of
    /// `symbol_samples`, starting at the nominal positions.
    pub fn new(symbol_samples: usize, buf_len: usize) -> (t: Self)
        requires
            0 < symbol_samples <= buf_len <= i32::MAX,
        ensures
            t.spec_n() == symbol_samples,
            t.spec_buf_len() == buf_len,
            t.spec_offset() == 0,
    {
        SymbolTiming { n: symbol_samples as i64, buf_len: buf_len as i64, offset: 0 }
    }

    /// The offset stays within an eighth of a symbol either way.
    pub fn offset(&self) -> (o: i64)
        ensures
            o == self.spec_offset(),
            -max_offset(self.spec_n()) <= o <= max_offset(self.spec_n()),
    {
        proof {
            use_type_invariant(self);
        }
        self.offset
    }

    /// Where the window of symbol `i` starts: its nominal position moved by
    /// the offset, kept inside the buffer.
    pub fn window_start(&self, i: usize) -> (s: usize)
        requires
            i * self.spec_n() < self.spec_buf_len(),
        ensures
            s == clamp(i * self.spec_n() + self.spec_offset(), 0, self.spec_buf_len() - self.spec_n()),
            s + self.spec_n() <= self.spec_buf_len(),
    {
        proof {
            use_type_invariant(self);
            lemma_index_fits(i as int, self.n as int, self.buf_len as int);
        }
        let nominal = i as i64 * self.n;
        let x = nominal + self.offset;
        let hi = self.buf_len - self.n;
        let s = if x < 0 {
            0
        } else if x > hi {
            hi
        } else {
            x
        };
        s as usize
    }

    /// Where the early and late probes of symbol `i` start, one step before
    /// and after the window, when both lie wholly inside the buffer.
    pub fn probes(&self, i: usize) -> (p: Option<(usize, usize)>)
        requires
            i * self.spec_n() < self.spec_buf_len(),
        ensures
            ({
                let early = i * self.spec_n() + self.spec_offset() - probe_step(self.spec_n());
                let late = i * self.spec_n() + self.spec_offset() + probe_step(self.spec_n());
                if early >= 0 && late + self.spec_n() <= self.spec_buf_len() {
                    p == Some((early as usize, late as usize))
                } else {
                    p is None
                }
            }),
    {
        proof {
            use_type_invariant(self);
            lemma_index_fits(i as int, self.n as int, self.buf_len as int);
        }
        let step = if self.n / 16 >= 2 {
            self.n / 16
        } else {
            2
        };
        let nominal = i as i64 * self.n;
        let early = nominal + self.offset - step;
        let late = nominal + self.offset + step;
        if early >= 0 && late + self.n <= self.buf_len {
            Some((early as usize, late as usize))
        } else {
            None
        }
    }

    /// Slides the window one sample later when the late probe heard clearly
    /// more of the symbol's tone, else one sample earlier when the early one
    /// did, but never past an eighth of a symbol.
    pub fn nudge(&mut self, later: bool, earlier: bool)
        ensures
            final(self).spec_n() == old(self).spec_n(),
            final(self).spec_buf_len() == old(self).spec_buf_len(),
            final(self).spec_offset() == (if later && old(self).spec_offset() < max_offset(old(self).spec_n()) {
                old(self).spec_offset() + 1
            } else if earlier && old(self).spec_offset() > -max_offset(old(self).spec_n()) {
                old(self).spec_offset() - 1
            } else {
                old(self).spec_offset()
            }),
    {
        proof {
            use_type_invariant(&*self);
        }
        let max = self.n / 8;
        if later && self.offset < max {
            self.offset = self.offset + 1;
        } else if earlier && self.offset > -max {
            self.offset = self.offset - 1;
        }
    }
}

proof fn lemma_index_fits(i: int, n: int, buf_len: int)
    requires
        0 <= i,
        0 < n,
        i * n < buf_len,
    ensures
        i < buf_len,
{
    assert(i <= i * n) by (nonlinear_arith)
        requires
            0 <= i,
            0 < n,
    ;
}

} // verus!
