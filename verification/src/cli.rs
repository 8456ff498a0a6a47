//! What the `modem` command line decides: which PHY a command builds from
//! its arguments, and what the chat loop does with a line it read.

use vstd::prelude::*;

use crate::fsk::{valid_symbol_rate, DspVariants, FskConfig};
use crate::phy::{FskPhy, Profile};

verus! {

/// DSP variant toggles as the command line takes them. All default to OFF.
#[derive(Debug, Clone, Copy, PartialEq, Eq, Structural)]
pub struct VariantArgs {
    /// TX-side raised-cosine pulse shaping.
    pub pulse_shape: bool,
    /// RX-side Tukey-windowed matched filter.
    pub matched_filter: bool,
    /// RX-side early-late symbol-timing recovery.
    pub timing_recovery: bool,
}

impl Default for VariantArgs {
    fn default() -> (a: Self)
        ensures
            !a.pulse_shape && !a.matched_filter && !a.timing_recovery,
    {
        VariantArgs { pulse_shape: false, matched_filter: false, timing_recovery: false }
    }
}

/// The variants the flags name.
pub open spec fn variants_of(a: VariantArgs) -> DspVariants {
    DspVariants {
        pulse_shape: a.pulse_shape,
        matched_filter: a.matched_filter,
        timing_recovery: a.timing_recovery,
    }
}

impl From<VariantArgs> for DspVariants {
    fn from(a: VariantArgs) -> (v: Self) {
        DspVariants {
            pulse_shape: a.pulse_shape,
            matched_filter: a.matched_filter,
            timing_recovery: a.timing_recovery,
        }
    }
}

impl vstd::std_specs::convert::FromSpecImpl<VariantArgs> for DspVariants {
    open spec fn obeys_from_spec() -> bool {
        true
    }

    open spec fn from_spec(a: VariantArgs) -> DspVariants {
        variants_of(a)
    }
}

/// Which PHY a command should build. Every subcommand that touches the modem
/// takes this same block, so a symbol rate means the same thing to live
/// audio as it does to the offline WAV pair.
#[derive(Debug, Clone, Copy, PartialEq, Eq, Structural)]
pub struct PhyArgs {
    pub profile: Profile,
    /// Symbols per second. Must divide 48000.
    pub symbol_rate: u32,
    pub variants: VariantArgs,
}

/// Everything needed to build the PHY a command runs on, travelling as one
/// value. There is deliberately no rate-less constructor.
#[derive(Debug, Clone, Copy, PartialEq, Eq, Structural)]
pub struct PhySpec {
    pub profile: Profile,
    /// Symbols per second. Must divide 48 kHz exactly.
    pub symbol_rate: u32,
    pub variants: DspVariants,
}

/// The spec the arguments describe.
pub open spec fn phy_spec_of(a: PhyArgs) -> PhySpec {
    PhySpec { profile: a.profile, symbol_rate: a.symbol_rate, variants: variants_of(a.variants) }
}

impl From<PhyArgs> for PhySpec {
    fn from(a: PhyArgs) -> (s: Self) {
        PhySpec { profile: a.profile, symbol_rate: a.symbol_rate, variants: DspVariants::from(a.variants) }
    }
}

impl vstd::std_specs::convert::FromSpecImpl<PhyArgs> for PhySpec {
    open spec fn obeys_from_spec() -> bool {
        true
    }

    open spec fn from_spec(a: PhyArgs) -> PhySpec {
        phy_spec_of(a)
    }
}

impl PhySpec {
    /// The PHY this spec describes: its profile's tones, at its symbol rate,
    /// with its variants.
    pub fn phy(&self) -> (p: FskPhy)
        requires
            valid_symbol_rate(self.symbol_rate),
        ensures
            p.is_profile_at(self.profile, self.symbol_rate, self.variants),
    {
        match self.profile {
            Profile::Audible => FskPhy::audible_at(self.symbol_rate, self.variants),
            Profile::Ultrasonic => FskPhy::ultrasonic_at(self.symbol_rate, self.variants),
        }
    }

    /// The config of the PHY this spec builds — tone frequencies, sample
    /// rate, symbol length. Read off a real PHY so it cannot drift from
    /// `phy()`.
    pub fn config(&self) -> (c: FskConfig)
        requires
            valid_symbol_rate(self.symbol_rate),
        ensures
            match self.profile {
                Profile::Audible => c.is_audible_at(self.symbol_rate, self.variants),
                Profile::Ultrasonic => c.is_ultrasonic_at(self.symbol_rate, self.variants),
            },
    {
        let p = self.phy();
        *p.config()
    }

    pub fn ultrasonic(&self) -> (u: bool)
        ensures
            u == (self.profile == Profile::Ultrasonic),
    {
        match self.profile {
            Profile::Ultrasonic => true,
            Profile::Audible => false,
        }
    }
}

/// `s` without the carriage returns and line feeds at its end.
pub open spec fn trim_line_end(s: Seq<char>) -> Seq<char>
    decreases s.len(),
{
    if s.len() > 0 && (s.last() == '\r' || s.last() == '\n') {
        trim_line_end(s.drop_last())
    } else {
        s
    }
}

/// What the chat loop does next.
pub enum ChatStep {
    /// End of input or an empty line: leave.
    Quit,
    /// Send this line.
    Send(String),
}

/// The chat loop's decision on what it read: `None` at end of input, else
/// the line with its line ending.
pub fn chat_step(read: Option<&str>) -> (step: ChatStep)
    ensures
        match read {
            None => step is Quit,
            Some(line) => if trim_line_end(line@).len() == 0 {
                step is Quit
            } else {
                step matches ChatStep::Send(s) && s@ == trim_line_end(line@)
            },
        },
{
    match read {
        None => ChatStep::Quit,
        Some(line) => {
            let mut k = line.unicode_len();
            assert(line@.subrange(0, k as int) =~= line@);
            while k > 0 && (line.get_char(k - 1) == '\r' || line.get_char(k - 1) == '\n')
                invariant
                    k <= line@.len(),
                    trim_line_end(line@.subrange(0, k as int)) == trim_line_end(line@),
                decreases k,
            {
                assert(line@.subrange(0, k as int).drop_last() =~= line@.subrange(0, k - 1));
                k -= 1;
            }
            if k == 0 {
                ChatStep::Quit
            } else {
                let kept = line.substring_char(0, k);
                ChatStep::Send(String::from_str(kept))
            }
        },
    }
}

/// How long `recv` waits without a frame, once frames have started
/// arriving, before giving up: 10 s, in nanoseconds.
pub const GIVE_UP_AFTER_NANOS: u64 = 10_000_000_000;

/// Whether `recv` gives up: frames had started arriving and none has come
/// for more than ten seconds.
pub fn gives_up(started: bool, idle_nanos: u64) -> (b: bool)
    ensures
        b == (started && idle_nanos > GIVE_UP_AFTER_NANOS),
{
    started && idle_nanos > GIVE_UP_AFTER_NANOS
}

} // verus!
