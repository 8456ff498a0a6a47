//! Multi-tone FSK: configuration, the bit packing between bytes and 3-bit
//! symbols, and the integer side of the demodulator's symbol timing.

use vstd::prelude::*;

verus! {

/// Number of tones (must be a power of two).
pub const N_TONES: usize = 8;

pub const BITS_PER_SYMBOL: usize = 3;

/// Fixed sample rate everywhere.
pub const SAMPLE_RATE: u32 = 48_000;

/// Symbols per second when none is asked for.
pub const DEFAULT_SYMBOL_RATE: u32 = 50;

/// Runtime-selectable DSP variants. All default to OFF, preserving legacy
/// trunk behaviour. The fields are independent; any subset can be enabled
/// together.
#[derive(Debug, Clone, Copy, PartialEq, Eq, Structural)]
pub struct DspVariants {
    /// TX-side raised-cosine envelope on each symbol.
    pub pulse_shape: bool,
    /// RX-side Tukey-windowed matched filter instead of rectangular Goertzel.
    pub matched_filter: bool,
    /// RX-side early-late timing tracker.
    pub timing_recovery: bool,
}

/// Every variant off.
pub open spec fn baseline_variants() -> DspVariants {
    DspVariants { pulse_shape: false, matched_filter: false, timing_recovery: false }
}

impl Default for DspVariants {
    fn default() -> (v: Self)
        ensures
            v == baseline_variants(),
    {
        DspVariants::baseline()
    }
}

/// The label of a set of variants: "baseline" when none is on, otherwise
/// the letters of those that are, in the order p, m, t, joined by '+'.
pub open spec fn spec_variant_tag(v: DspVariants) -> Seq<char> {
    let parts = (if v.pulse_shape { seq!["p"@] } else { seq![] }) + (if v.matched_filter {
        seq!["m"@]
    } else {
        seq![]
    }) + (if v.timing_recovery { seq!["t"@] } else { seq![] });
    if parts.len() == 0 {
        "baseline"@
    } else {
        join_with_plus(parts)
    }
}

/// Parts joined by '+'.
pub open spec fn join_with_plus(parts: Seq<Seq<char>>) -> Seq<char>
    decreases parts.len(),
{
    if parts.len() == 0 {
        seq![]
    } else if parts.len() == 1 {
        parts[0]
    } else {
        join_with_plus(parts.drop_last()) + "+"@ + parts.last()
    }
}

impl DspVariants {
    /// Every variant off: the legacy behaviour.
    pub fn baseline() -> (v: Self)
        ensures
            v == baseline_variants(),
    {
        Self { pulse_shape: false, matched_filter: false, timing_recovery: false }
    }

    /// Every variant on.
    pub fn all() -> (v: Self)
        ensures
            v == (Self { pulse_shape: true, matched_filter: true, timing_recovery: true }),
    {
        Self { pulse_shape: true, matched_filter: true, timing_recovery: true }
    }

    /// Short tag like "baseline" for baseline, "p+m" for pulse-shape +
    /// matched-filter, etc. Used by the rank harness to label result lines.
    pub fn tag(&self) -> (s: String)
        ensures
            s@ == spec_variant_tag(*self),
    {
        let mut parts: Vec<&str> = Vec::new();
        if self.pulse_shape {
            parts.push("p");
        }
        if self.matched_filter {
            parts.push("m");
        }
        if self.timing_recovery {
            parts.push("t");
        }
        let ghost views = parts@.map_values(|p: &str| p@);
        assert(views =~= (if self.pulse_shape { seq!["p"@] } else { seq![] }) + (
        if self.matched_filter {
            seq!["m"@]
        } else {
            seq![]
        }) + (if self.timing_recovery { seq!["t"@] } else { seq![] }));
        if parts.len() == 0 {
            return String::from_str("baseline");
        }
        let mut s = String::from_str(parts[0]);
        let mut i: usize = 1;
        while i < parts.len()
            invariant
                1 <= i <= parts.len(),
                views == parts@.map_values(|p: &str| p@),
                s@ == join_with_plus(views.take(i as int)),
            decreases parts.len() - i,
        {
            s.append("+");
            s.append(parts[i]);
            assert(views.take(i + 1).drop_last() =~= views.take(i as int));
            i += 1;
        }
        assert(views.take(parts.len() as int) =~= views);
        s
    }
}

/// Samples per symbol at `symbol_rate` symbols per second.
pub open spec fn spec_symbol_samples(symbol_rate: u32) -> usize {
    (SAMPLE_RATE / symbol_rate) as usize
}

/// A rate that divides the sample rate exactly, so that every symbol is a
/// whole number of samples.
pub open spec fn valid_symbol_rate(symbol_rate: u32) -> bool {
    symbol_rate > 0 && SAMPLE_RATE % symbol_rate == 0
}

/// Whether `symbol_rate` divides the sample rate exactly, as every
/// constructor that takes a rate requires.
pub fn is_valid_symbol_rate(symbol_rate: u32) -> (ok: bool)
    ensures
        ok == valid_symbol_rate(symbol_rate),
{
    symbol_rate > 0 && SAMPLE_RATE % symbol_rate == 0
}

/// Samples per symbol at `symbol_rate`. The rate must divide 48 kHz exactly:
/// a rate that does not is refused rather than rounded to one the modem would
/// then misreport.
pub fn symbol_samples_for(symbol_rate: u32) -> (n: usize)
    requires
        valid_symbol_rate(symbol_rate),
    ensures
        n == spec_symbol_samples(symbol_rate),
        n > 0,
{
    proof {
        lemma_symbol_rate_roundtrip(symbol_rate);
    }
    (SAMPLE_RATE / symbol_rate) as usize
}

#[derive(Debug, Clone, Copy)]
pub struct FskConfig {
    pub sample_rate: u32,
    pub symbol_samples: usize,
    /// 8 distinct frequencies, in whole Hz.
    pub tone_freqs: [u32; N_TONES],
    /// DSP variant toggles. Defaults to all-off (legacy behaviour).
    pub variants: DspVariants,
}

/// The audible tone plan: 2000 Hz upwards in 200 Hz steps (2.0 – 3.4 kHz).
pub open spec fn audible_tone(i: int) -> u32 {
    (2000 + 200 * i) as u32
}

/// The ultrasonic tone plan: 17.5 kHz upwards in 250 Hz steps (to 19.25 kHz).
pub open spec fn ultrasonic_tone(i: int) -> u32 {
    (17_500 + 250 * i) as u32
}

impl FskConfig {
    pub open spec fn is_audible_at(self, symbol_rate: u32, variants: DspVariants) -> bool {
        &&& self.sample_rate == SAMPLE_RATE
        &&& self.symbol_samples == spec_symbol_samples(symbol_rate)
        &&& forall|i: int| 0 <= i < N_TONES ==> self.tone_freqs[i] == audible_tone(i)
        &&& self.variants == variants
    }

    pub open spec fn is_ultrasonic_at(self, symbol_rate: u32, variants: DspVariants) -> bool {
        &&& self.sample_rate == SAMPLE_RATE
        &&& self.symbol_samples == spec_symbol_samples(symbol_rate)
        &&& forall|i: int| 0 <= i < N_TONES ==> self.tone_freqs[i] == ultrasonic_tone(i)
        &&& self.variants == variants
    }

    /// Audible profile: 8-FSK, 200 Hz spacing, 2.0 – 3.4 kHz, default rate.
    pub fn audible() -> (c: Self)
        ensures
            c.is_audible_at(DEFAULT_SYMBOL_RATE, baseline_variants()),
    {
        Self::audible_at(DEFAULT_SYMBOL_RATE, DspVariants::baseline())
    }

    pub fn audible_with(variants: DspVariants) -> (c: Self)
        ensures
            c.is_audible_at(DEFAULT_SYMBOL_RATE, variants),
    {
        Self::audible_at(DEFAULT_SYMBOL_RATE, variants)
    }

    /// Audible profile at `symbol_rate` symbols per second.
    pub fn audible_at(symbol_rate: u32, variants: DspVariants) -> (c: Self)
        requires
            valid_symbol_rate(symbol_rate),
        ensures
            c.is_audible_at(symbol_rate, variants),
    {
        let mut tones = [0u32; N_TONES];
        let mut i: usize = 0;
        while i < N_TONES
            invariant
                i <= N_TONES,
                forall|k: int| 0 <= k < i ==> tones[k] == audible_tone(k),
            decreases N_TONES - i,
        {
            tones[i] = 2000 + (i as u32) * 200;  // 2000..3400
            i += 1;
        }
        Self {
            sample_rate: SAMPLE_RATE,
            symbol_samples: symbol_samples_for(symbol_rate),
            tone_freqs: tones,
            variants,
        }
    }

    /// Ultrasonic profile: 8-FSK, 250 Hz spacing, 17.5 – 19.25 kHz, default rate.
    pub fn ultrasonic() -> (c: Self)
        ensures
            c.is_ultrasonic_at(DEFAULT_SYMBOL_RATE, baseline_variants()),
    {
        Self::ultrasonic_at(DEFAULT_SYMBOL_RATE, DspVariants::baseline())
    }

    pub fn ultrasonic_with(variants: DspVariants) -> (c: Self)
        ensures
            c.is_ultrasonic_at(DEFAULT_SYMBOL_RATE, variants),
    {
        Self::ultrasonic_at(DEFAULT_SYMBOL_RATE, variants)
    }

    /// Ultrasonic profile at `symbol_rate` symbols per second.
    pub fn ultrasonic_at(symbol_rate: u32, variants: DspVariants) -> (c: Self)
        requires
            valid_symbol_rate(symbol_rate),
        ensures
            c.is_ultrasonic_at(symbol_rate, variants),
    {
        let mut tones = [0u32; N_TONES];
        let mut i: usize = 0;
        while i < N_TONES
            invariant
                i <= N_TONES,
                forall|k: int| 0 <= k < i ==> tones[k] == ultrasonic_tone(k),
            decreases N_TONES - i,
        {
            tones[i] = 17_500 + (i as u32) * 250;
            i += 1;
        }
        Self {
            sample_rate: SAMPLE_RATE,
            symbol_samples: symbol_samples_for(symbol_rate),
            tone_freqs: tones,
            variants,
        }
    }

    /// Symbols per second this configuration runs at, read off its symbol
    /// length.
    pub fn symbol_rate(&self) -> (r: u32)
        requires
            self.symbol_samples > 0,
        ensures
            r as int == self.sample_rate as int / self.symbol_samples as int,
    {
        (self.sample_rate as usize / self.symbol_samples) as u32
    }
}

/// At a rate that divides the sample rate, the symbol length reads back as
/// the rate it was built from.
pub proof fn lemma_symbol_rate_roundtrip(symbol_rate: u32)
    requires
        valid_symbol_rate(symbol_rate),
    ensures
        spec_symbol_samples(symbol_rate) > 0,
        SAMPLE_RATE as int / spec_symbol_samples(symbol_rate) as int == symbol_rate as int,
{
    let n = SAMPLE_RATE / symbol_rate;
    assert(n * symbol_rate == SAMPLE_RATE) by (nonlinear_arith)
        requires
            SAMPLE_RATE % symbol_rate == 0,
            n == SAMPLE_RATE / symbol_rate,
            symbol_rate > 0,
    ;
    assert(n > 0) by (nonlinear_arith)
        requires
            n * symbol_rate == SAMPLE_RATE,
    ;
    assert(SAMPLE_RATE / n == symbol_rate) by (nonlinear_arith)
        requires
            n * symbol_rate == SAMPLE_RATE,
            n > 0,
    ;
}

// ---------------------------------------------------------------------------
// Bit packing
// ---------------------------------------------------------------------------

/// Bit `k` of the bit stream of `bytes`, most significant bit of each byte
/// first; 0 past the end (padding).
pub open spec fn stream_bit(bytes: Seq<u8>, k: int) -> u8 {
    if 0 <= k < 8 * bytes.len() {
        (bytes[k / 8] >> ((7 - k % 8) as u8)) & 1
    } else {
        0
    }
}

/// Number of 3-bit symbols that carry `n` bytes (the last one zero-padded).
pub open spec fn n_symbols(n: nat) -> nat {
    ((8 * n + 2) / 3) as nat
}

/// The symbols of `bytes`: symbol `j` holds stream bits 3j, 3j+1, 3j+2,
/// the first of them as its most significant bit.
pub open spec fn spec_bytes_to_symbols(bytes: Seq<u8>) -> Seq<u8> {
    Seq::new(
        n_symbols(bytes.len()),
        |j: int|
            (4 * stream_bit(bytes, 3 * j) + 2 * stream_bit(bytes, 3 * j + 1) + stream_bit(
                bytes,
                3 * j + 2,
            )) as u8,
    )
}

/// Bit `k` of the bit stream carried by `syms`, three bits per symbol, most
/// significant first; 0 past the last symbol.
pub open spec fn symbol_bit(syms: Seq<u8>, k: int) -> u8 {
    if 0 <= k < 3 * syms.len() {
        (syms[k / 3] >> ((2 - k % 3) as u8)) & 1
    } else {
        0
    }
}

/// The byte assembled from stream bits 8i .. 8i+7 of `syms`.
pub open spec fn symbols_byte(syms: Seq<u8>, i: int) -> u8 {
    (128 * symbol_bit(syms, 8 * i) + 64 * symbol_bit(syms, 8 * i + 1) + 32 * symbol_bit(
        syms,
        8 * i + 2,
    ) + 16 * symbol_bit(syms, 8 * i + 3) + 8 * symbol_bit(syms, 8 * i + 4) + 4 * symbol_bit(
        syms,
        8 * i + 5,
    ) + 2 * symbol_bit(syms, 8 * i + 6) + symbol_bit(syms, 8 * i + 7)) as u8
}

/// The `n_bytes` bytes that `syms` carries; extra symbols are ignored and
/// missing ones read as zero bits.
pub open spec fn spec_symbols_to_bytes(syms: Seq<u8>, n_bytes: nat) -> Seq<u8> {
    Seq::new(n_bytes, |i: int| symbols_byte(syms, i))
}

/// Bit `off` (0 = most significant) of byte `byte_i`, or 0 past the end:
/// stream bit `8 * byte_i + off`.
fn bit_at(bytes: &[u8], byte_i: usize, off: u8) -> (b: u8)
    requires
        off < 8,
    ensures
        b == stream_bit(bytes@, 8 * byte_i + off),
        b <= 1,
{
    let ghost k: int = 8 * byte_i + off;
    assert(k / 8 == byte_i && k % 8 == off);
    if byte_i < bytes.len() {
        let sh = 7 - off;
        let x = bytes[byte_i];
        assert((x >> sh) & 1 <= 1) by (bit_vector);
        (x >> sh) & 1
    } else {
        0  // pad
    }
}

/// The bit cursor `(byte_i, off)` moved on by one bit, within `len` bytes
/// and the one after them.
fn next_bit(byte_i: usize, off: u8, Ghost(limit): Ghost<int>) -> (r: (usize, u8))
    requires
        off < 8,
        8 * byte_i + off + 1 <= limit,
        limit <= 8 * (usize::MAX as int) + 7,
    ensures
        8 * r.0 + r.1 == 8 * byte_i + off + 1,
        r.1 < 8,
{
    if off == 7 {
        (byte_i + 1, 0)
    } else {
        (byte_i, off + 1)
    }
}

/// Convert bytes to a sequence of 3-bit symbols (MSB first within each byte).
/// The symbols must fit in a vector, which is all the arithmetic needs.
pub fn bytes_to_symbols(bytes: &[u8]) -> (syms: Vec<u8>)
    requires
        n_symbols(bytes@.len()) <= usize::MAX,
    ensures
        syms@ == spec_bytes_to_symbols(bytes@),
{
    let len = bytes.len();
    // Pad to a multiple of BITS_PER_SYMBOL with zero bits: eight symbols
    // for every three bytes, and three or six for the one or two left.
    let rest: usize = if len % 3 == 0 {
        0
    } else if len % 3 == 1 {
        3
    } else {
        6
    };
    assert((len / 3) * 8 + rest == n_symbols(len as nat)) by (nonlinear_arith)
        requires
            rest == (if len % 3 == 0 {
                0int
            } else if len % 3 == 1 {
                3int
            } else {
                6int
            }),
            len >= 0,
    ;
    let n_syms = (len / 3) * 8 + rest;
    assert(3 * n_syms <= 8 * len + 2);
    let mut syms: Vec<u8> = Vec::with_capacity(n_syms);
    let mut byte_i: usize = 0;
    let mut off: u8 = 0;
    let mut j: usize = 0;
    while j < n_syms
        invariant
            n_syms == n_symbols(bytes@.len()),
            len == bytes@.len(),
            3 * n_syms <= 8 * len + 2,
            j <= n_syms,
            off < 8,
            8 * byte_i + off == 3 * j,
            syms@ =~= spec_bytes_to_symbols(bytes@).take(j as int),
        decreases n_syms - j,
    {
        let ghost limit: int = 8 * len + 2;
        let b0 = bit_at(bytes, byte_i, off);
        let (bi, o) = next_bit(byte_i, off, Ghost(limit));
        let b1 = bit_at(bytes, bi, o);
        let (bi, o) = next_bit(bi, o, Ghost(limit));
        let b2 = bit_at(bytes, bi, o);
        let (bi, o) = next_bit(bi, o, Ghost(limit));
        byte_i = bi;
        off = o;
        assert((b0 << 2) | (b1 << 1) | b2 == 4 * b0 + 2 * b1 + b2) by (bit_vector)
            requires
                b0 <= 1,
                b1 <= 1,
                b2 <= 1,
        ;
        let sym: u8 = (b0 << 2) | (b1 << 1) | b2;
        syms.push(sym);
        j += 1;
    }
    syms
}

/// Inverse of bytes_to_symbols. `n_bytes` is the expected output length;
/// extra symbols (padding) are dropped and missing ones read as zero bits.
pub fn symbols_to_bytes(syms: &[u8], n_bytes: usize) -> (out: Vec<u8>)
    ensures
        out@ == spec_symbols_to_bytes(syms@, n_bytes as nat),
{
    let slen = syms.len();
    let mut out: Vec<u8> = Vec::with_capacity(n_bytes);
    // The symbol cursor: stream bit k is bit `off` of symbol `sym_i`; once
    // past the last symbol it stays there.
    let mut sym_i: usize = 0;
    let mut off: u8 = 0;
    let mut i: usize = 0;
    while i < n_bytes
        invariant
            slen == syms@.len(),
            i <= n_bytes,
            off < 3,
            sym_i <= slen,
            (8 * i) / 3 < slen ==> sym_i == (8 * i) / 3 && off == (8 * i) % 3,
            (8 * i) / 3 >= slen ==> sym_i == slen,
            out@ =~= spec_symbols_to_bytes(syms@, n_bytes as nat).take(i as int),
        decreases n_bytes - i,
    {
        let mut byte: u8 = 0;
        let mut b: usize = 0;
        while b < 8
            invariant
                slen == syms@.len(),
                b <= 8,
                off < 3,
                sym_i <= slen,
                (8 * i + b) / 3 < slen ==> sym_i == (8 * i + b) / 3 && off == (8 * i + b) % 3,
                (8 * i + b) / 3 >= slen ==> sym_i == slen,
                byte as int == partial_byte(syms@, i as int, b as int),
                byte < pow2_u8(b as int),
            decreases 8 - b,
        {
            let ghost k: int = 8 * i + b;
            let bit: u8 = if sym_i < slen {
                let sh = 2 - off;
                let sv = syms[sym_i];
                assert((sv >> sh) & 1 <= 1) by (bit_vector);
                (sv >> sh) & 1
            } else {
                0
            };
            assert(bit == symbol_bit(syms@, k));
            if sym_i < slen {
                if off == 2 {
                    sym_i = sym_i + 1;
                    off = 0;
                } else {
                    off = off + 1;
                }
            }
            assert(pow2_u8(b as int) <= 128 && pow2_u8(b + 1) == 2 * pow2_u8(b as int)) by {
                reveal_with_fuel(pow2_u8, 9);
            }
            assert(((byte << 1) | bit) == 2 * byte + bit) by (bit_vector)
                requires
                    bit <= 1,
                    byte < 128,
            ;
            byte = (byte << 1) | bit;
            b += 1;
        }
        assert(partial_byte(syms@, i as int, 8) == symbols_byte(syms@, i as int)) by {
            reveal_with_fuel(partial_byte, 9);
        }
        out.push(byte);
        i += 1;
    }
    out
}

/// 2 to the power `b`, for `b` in 0..=8 as used while assembling a byte.
pub open spec fn pow2_u8(b: int) -> int
    decreases b,
{
    if b <= 0 {
        1
    } else {
        2 * pow2_u8(b - 1)
    }
}

/// The value of the first `b` stream bits of byte `i`, most significant first.
pub open spec fn partial_byte(syms: Seq<u8>, i: int, b: int) -> int
    decreases b,
{
    if b <= 0 {
        0
    } else {
        2 * partial_byte(syms, i, b - 1) + symbol_bit(syms, 8 * i + b - 1)
    }
}

/// The three bits of a symbol built from three bits read back as those bits.
proof fn lemma_symbol_bits(b0: u8, b1: u8, b2: u8)
    requires
        b0 <= 1,
        b1 <= 1,
        b2 <= 1,
    ensures
        (((4 * b0 + 2 * b1 + b2) as u8) >> 2u8) & 1 == b0,
        (((4 * b0 + 2 * b1 + b2) as u8) >> 1u8) & 1 == b1,
        (((4 * b0 + 2 * b1 + b2) as u8) >> 0u8) & 1 == b2,
{
    assert((((4 * b0 + 2 * b1 + b2) as u8) >> 2u8) & 1 == b0) by (bit_vector)
        requires
            b0 <= 1,
            b1 <= 1,
            b2 <= 1,
    ;
    assert((((4 * b0 + 2 * b1 + b2) as u8) >> 1u8) & 1 == b1) by (bit_vector)
        requires
            b0 <= 1,
            b1 <= 1,
            b2 <= 1,
    ;
    assert((((4 * b0 + 2 * b1 + b2) as u8) >> 0u8) & 1 == b2) by (bit_vector)
        requires
            b0 <= 1,
            b1 <= 1,
            b2 <= 1,
    ;
}

/// A byte is the sum of its eight bits.
proof fn lemma_byte_from_bits(x: u8)
    ensures
        x == 128 * ((x >> 7u8) & 1) + 64 * ((x >> 6u8) & 1) + 32 * ((x >> 5u8) & 1) + 16 * ((x
            >> 4u8) & 1) + 8 * ((x >> 3u8) & 1) + 4 * ((x >> 2u8) & 1) + 2 * ((x >> 1u8) & 1) + ((x
            >> 0u8) & 1),
{
    assert(x == 128 * ((x >> 7u8) & 1) + 64 * ((x >> 6u8) & 1) + 32 * ((x >> 5u8) & 1) + 16 * ((x
        >> 4u8) & 1) + 8 * ((x >> 3u8) & 1) + 4 * ((x >> 2u8) & 1) + 2 * ((x >> 1u8) & 1) + ((x
        >> 0u8) & 1)) by (bit_vector);
}

proof fn lemma_stream_bit_is_one_bit(bytes: Seq<u8>, k: int)
    ensures
        stream_bit(bytes, k) <= 1,
{
    if 0 <= k < 8 * bytes.len() {
        let x = bytes[k / 8];
        let sh = (7 - k % 8) as u8;
        assert((x >> sh) & 1 <= 1) by (bit_vector);
    }
}

/// Every stream bit of the bytes is carried, unchanged, by their symbols.
pub proof fn lemma_symbols_carry_stream_bits(bytes: Seq<u8>, k: int)
    requires
        0 <= k < 8 * bytes.len(),
    ensures
        symbol_bit(spec_bytes_to_symbols(bytes), k) == stream_bit(bytes, k),
{
    let syms = spec_bytes_to_symbols(bytes);
    let j = k / 3;
    assert(3 * j + 2 < 3 * syms.len());
    lemma_stream_bit_is_one_bit(bytes, 3 * j);
    lemma_stream_bit_is_one_bit(bytes, 3 * j + 1);
    lemma_stream_bit_is_one_bit(bytes, 3 * j + 2);
    lemma_symbol_bits(stream_bit(bytes, 3 * j), stream_bit(bytes, 3 * j + 1), stream_bit(bytes, 3 * j + 2));
}

/// Unpacking the symbols of some bytes gives back exactly those bytes: the
/// padding bits of the last symbol are dropped.
pub proof fn lemma_symbols_roundtrip(bytes: Seq<u8>)
    ensures
        spec_symbols_to_bytes(spec_bytes_to_symbols(bytes), bytes.len()) == bytes,
        spec_bytes_to_symbols(bytes).len() == n_symbols(bytes.len()),
{
    let syms = spec_bytes_to_symbols(bytes);
    let out = spec_symbols_to_bytes(syms, bytes.len());
    assert forall|i: int| 0 <= i < bytes.len() implies out[i] == bytes[i] by {
        let x = bytes[i];
        assert forall|t: int| 0 <= t < 8 implies #[trigger] symbol_bit(syms, 8 * i + t) == (x >> ((7 - t) as u8)) & 1 by {
            lemma_symbols_carry_stream_bits(bytes, 8 * i + t);
            assert((8 * i + t) / 8 == i);
            assert((8 * i + t) % 8 == t);
        }
        assert(symbol_bit(syms, 8 * i + 0) == (x >> 7u8) & 1);
        assert(symbol_bit(syms, 8 * i + 1) == (x >> 6u8) & 1);
        assert(symbol_bit(syms, 8 * i + 2) == (x >> 5u8) & 1);
        assert(symbol_bit(syms, 8 * i + 3) == (x >> 4u8) & 1);
        assert(symbol_bit(syms, 8 * i + 4) == (x >> 3u8) & 1);
        assert(symbol_bit(syms, 8 * i + 5) == (x >> 2u8) & 1);
        assert(symbol_bit(syms, 8 * i + 6) == (x >> 1u8) & 1);
        assert(symbol_bit(syms, 8 * i + 7) == (x >> 0u8) & 1);
        lemma_byte_from_bits(x);
    }
    assert(out =~= bytes);
}

/// The tag of a set of variants, written out character by character.
pub open spec fn tag_chars(v: DspVariants) -> Seq<char> {
    if !v.pulse_shape && !v.matched_filter && !v.timing_recovery {
        seq!['b', 'a', 's', 'e', 'l', 'i', 'n', 'e']
    } else {
        let p: Seq<char> = if v.pulse_shape { seq!['p'] } else { seq![] };
        let m: Seq<char> = if v.matched_filter {
            if v.pulse_shape { seq!['+', 'm'] } else { seq!['m'] }
        } else {
            seq![]
        };
        let t: Seq<char> = if v.timing_recovery {
            if v.pulse_shape || v.matched_filter { seq!['+', 't'] } else { seq!['t'] }
        } else {
            seq![]
        };
        p + m + t
    }
}

/// The tag is "baseline" with every variant off, else the letters p, m, t
/// of the variants on, in that order, joined by '+'.
pub proof fn lemma_tag_chars(v: DspVariants)
    ensures
        spec_variant_tag(v) == tag_chars(v),
{
    reveal_strlit("p");
    reveal_strlit("m");
    reveal_strlit("t");
    reveal_strlit("+");
    reveal_strlit("baseline");
    let p = "p"@;
    let m = "m"@;
    let t = "t"@;
    let parts = (if v.pulse_shape { seq![p] } else { seq![] }) + (if v.matched_filter {
        seq![m]
    } else {
        seq![]
    }) + (if v.timing_recovery { seq![t] } else { seq![] });
    reveal_with_fuel(join_with_plus, 3);
    if v.pulse_shape && v.matched_filter && v.timing_recovery {
        assert(parts =~= seq![p, m, t]);
        assert(seq![p, m, t].drop_last() =~= seq![p, m]);
        assert(seq![p, m].drop_last() =~= seq![p]);
    } else if v.pulse_shape && v.matched_filter {
        assert(parts =~= seq![p, m]);
        assert(seq![p, m].drop_last() =~= seq![p]);
    } else if v.pulse_shape && v.timing_recovery {
        assert(parts =~= seq![p, t]);
        assert(seq![p, t].drop_last() =~= seq![p]);
    } else if v.matched_filter && v.timing_recovery {
        assert(parts =~= seq![m, t]);
        assert(seq![m, t].drop_last() =~= seq![m]);
    } else if v.pulse_shape {
        assert(parts =~= seq![p]);
    } else if v.matched_filter {
        assert(parts =~= seq![m]);
    } else if v.timing_recovery {
        assert(parts =~= seq![t]);
    } else {
        assert(parts =~= Seq::<Seq<char>>::empty());
    }
    assert(spec_variant_tag(v) =~= tag_chars(v));
}

/// Different sets of variants have different tags, so a tag names one set.
pub proof fn lemma_tag_injective(v1: DspVariants, v2: DspVariants)
    ensures
        spec_variant_tag(v1) == spec_variant_tag(v2) <==> v1 == v2,
{
    lemma_tag_chars(v1);
    lemma_tag_chars(v2);
    let a = tag_chars(v1);
    let b = tag_chars(v2);
    if a == b {
        assert(a.len() == b.len());
        assert(a[0] == b[0]);
        if a.len() >= 3 {
            assert(a[2] == b[2]);
        }
        if a.len() >= 5 {
            assert(a[4] == b[4]);
        }
    }
}

} // verus!
