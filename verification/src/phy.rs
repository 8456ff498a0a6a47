//! The multi-tone FSK PHY: which configuration a link runs, and the integer
//! geometry of a frame on the air. The waveform side (modulating,
//! demodulating, finding the chirp) runs on floating point outside this
//! crate, driven by the configuration held here.

use vstd::prelude::*;

use crate::fsk::{
    baseline_variants, n_symbols, spec_symbol_samples, valid_symbol_rate, DspVariants, FskConfig,
    DEFAULT_SYMBOL_RATE, SAMPLE_RATE,
};

verus! {

/// The two tone plans.
#[derive(Debug, Clone, Copy, PartialEq, Eq, Structural)]
pub enum Profile {
    Audible,
    Ultrasonic,
}

#[derive(Debug, Clone, Copy)]
pub struct FskPhy {
    cfg: FskConfig,
}

impl FskPhy {
    /// Every PHY runs at the fixed sample rate with a whole, positive number
    /// of samples per symbol that divides it.
    #[verifier::type_invariant]
    spec fn well_formed(self) -> bool {
        &&& self.cfg.sample_rate == SAMPLE_RATE
        &&& 0 < self.cfg.symbol_samples <= SAMPLE_RATE
        &&& SAMPLE_RATE % (self.cfg.symbol_samples as u32) == 0
    }

    /// The configuration this PHY modulates and demodulates with.
    pub closed spec fn spec_config(self) -> FskConfig {
        self.cfg
    }

    /// The PHY of a profile at a symbol rate.
    pub open spec fn is_profile_at(self, profile: Profile, symbol_rate: u32, variants: DspVariants) -> bool {
        match profile {
            Profile::Audible => self.spec_config().is_audible_at(symbol_rate, variants),
            Profile::Ultrasonic => self.spec_config().is_ultrasonic_at(symbol_rate, variants),
        }
    }

    fn from_config(cfg: FskConfig, symbol_rate: u32) -> (p: Self)
        requires
            valid_symbol_rate(symbol_rate),
            cfg.sample_rate == SAMPLE_RATE,
            cfg.symbol_samples == spec_symbol_samples(symbol_rate),
        ensures
            p.spec_config() == cfg,
    {
        proof {
            crate::fsk::lemma_symbol_rate_roundtrip(symbol_rate);
            lemma_symbol_samples_divides(symbol_rate);
        }
        FskPhy { cfg }
    }

    pub fn audible() -> (p: Self)
        ensures
            p.is_profile_at(Profile::Audible, DEFAULT_SYMBOL_RATE, baseline_variants()),
    {
        Self::audible_at(DEFAULT_SYMBOL_RATE, DspVariants::baseline())
    }

    pub fn ultrasonic() -> (p: Self)
        ensures
            p.is_profile_at(Profile::Ultrasonic, DEFAULT_SYMBOL_RATE, baseline_variants()),
    {
        Self::ultrasonic_at(DEFAULT_SYMBOL_RATE, DspVariants::baseline())
    }

    pub fn audible_with(variants: DspVariants) -> (p: Self)
        ensures
            p.is_profile_at(Profile::Audible, DEFAULT_SYMBOL_RATE, variants),
    {
        Self::audible_at(DEFAULT_SYMBOL_RATE, variants)
    }

    pub fn ultrasonic_with(variants: DspVariants) -> (p: Self)
        ensures
            p.is_profile_at(Profile::Ultrasonic, DEFAULT_SYMBOL_RATE, variants),
    {
        Self::ultrasonic_at(DEFAULT_SYMBOL_RATE, variants)
    }

    /// The audible PHY at `symbol_rate`, which must divide 48 kHz exactly.
    pub fn audible_at(symbol_rate: u32, variants: DspVariants) -> (p: Self)
        requires
            valid_symbol_rate(symbol_rate),
        ensures
            p.is_profile_at(Profile::Audible, symbol_rate, variants),
    {
        Self::from_config(FskConfig::audible_at(symbol_rate, variants), symbol_rate)
    }

    /// The ultrasonic PHY at `symbol_rate`, which must divide 48 kHz exactly.
    pub fn ultrasonic_at(symbol_rate: u32, variants: DspVariants) -> (p: Self)
        requires
            valid_symbol_rate(symbol_rate),
        ensures
            p.is_profile_at(Profile::Ultrasonic, symbol_rate, variants),
    {
        Self::from_config(FskConfig::ultrasonic_at(symbol_rate, variants), symbol_rate)
    }

    pub fn config(&self) -> (c: &FskConfig)
        ensures
            *c == self.spec_config(),
            0 < c.symbol_samples <= SAMPLE_RATE,
            c.sample_rate == SAMPLE_RATE,
    {
        proof {
            use_type_invariant(self);
        }
        &self.cfg
    }

    pub fn sample_rate(&self) -> (r: u32)
        ensures
            r == self.spec_config().sample_rate,
            r == SAMPLE_RATE,
    {
        proof {
            use_type_invariant(self);
        }
        self.cfg.sample_rate
    }

    /// Symbols per second this PHY runs at, read off its symbol length.
    pub fn symbol_rate(&self) -> (r: u32)
        ensures
            r as int == SAMPLE_RATE as int / self.spec_config().symbol_samples as int,
    {
        proof {
            use_type_invariant(self);
        }
        self.cfg.symbol_rate()
    }

    /// Samples that `n_bytes` of data occupy on the air: one symbol length
    /// per 3 bits, the last symbol padded.
    pub fn frame_data_samples(&self, n_bytes: usize) -> (n: usize)
        requires
            n_symbols(n_bytes as nat) * self.spec_config().symbol_samples <= usize::MAX,
        ensures
            n == n_symbols(n_bytes as nat) * self.spec_config().symbol_samples,
    {
        proof {
            use_type_invariant(self);
        }
        // Eight symbols for every three bytes, three or six for the rest.
        let rest: usize = if n_bytes % 3 == 0 {
            0
        } else if n_bytes % 3 == 1 {
            3
        } else {
            6
        };
        assert((n_bytes / 3) * 8 + rest == n_symbols(n_bytes as nat)) by (nonlinear_arith)
            requires
                rest == (if n_bytes % 3 == 0 {
                    0int
                } else if n_bytes % 3 == 1 {
                    3int
                } else {
                    6int
                }),
                n_bytes >= 0,
        ;
        assert(n_symbols(n_bytes as nat) <= n_symbols(n_bytes as nat) * self.cfg.symbol_samples) by (nonlinear_arith)
            requires
                self.cfg.symbol_samples >= 1,
        ;
        let n_syms = (n_bytes / 3) * 8 + rest;
        n_syms * self.cfg.symbol_samples
    }
}

proof fn lemma_symbol_samples_divides(symbol_rate: u32)
    requires
        valid_symbol_rate(symbol_rate),
    ensures
        SAMPLE_RATE % (spec_symbol_samples(symbol_rate) as u32) == 0,
        spec_symbol_samples(symbol_rate) <= SAMPLE_RATE,
{
    crate::fsk::lemma_symbol_rate_roundtrip(symbol_rate);
    let n = SAMPLE_RATE / symbol_rate;
    assert(n * symbol_rate == SAMPLE_RATE) by (nonlinear_arith)
        requires
            SAMPLE_RATE % symbol_rate == 0,
            n == SAMPLE_RATE / symbol_rate,
            symbol_rate > 0,
    ;
    assert(SAMPLE_RATE % n == 0) by (nonlinear_arith)
        requires
            n * symbol_rate == SAMPLE_RATE,
            n > 0,
    ;
}

} // verus!
