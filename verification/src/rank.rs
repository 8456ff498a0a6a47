//! The rank harness: sweep the DSP variant combinations across a corpus of
//! captures, classify what each receiver made of each capture, and tally the
//! outcomes per symbol rate and variant. Reading the manifest and the WAVs is
//! the program's business; what a capture entry means, and what a run of
//! receiver events amounts to, is decided here.

use vstd::prelude::*;

use crate::fsk::{lemma_tag_injective, spec_variant_tag, valid_symbol_rate, DspVariants, DEFAULT_SYMBOL_RATE};
use crate::phy::{FskPhy, Profile};
use crate::rx::{EventView, FrameEvent};
use crate::text::{contains_sub, decimal, push_decimal, str_contains, str_eq};

verus! {

/// One cell's verdict.
#[derive(Debug, Clone, Copy, PartialEq, Eq, Structural)]
pub enum Outcome {
    /// StreamComplete, SHA-256 matched, decoded bytes equal the expectation.
    Delivered,
    /// No frame events at all: the chirp was never found.
    NoPreamble,
    /// Preamble found but the sync word had too many bit errors.
    SyncFail,
    /// The frame body exceeded Reed–Solomon's correction budget.
    RsFail,
    /// Reed–Solomon reported success but the CRC32 disagreed.
    CrcFail,
    /// Frame events happened but the stream never completed, for some other
    /// reason.
    FrameFail,
    /// The stream completed but its SHA-256 did not match the trailer.
    ShaMismatch,
    /// The stream completed and checked, but is not what was expected.
    WrongBytes,
}

/// The label of an outcome in the harness's output.
pub open spec fn outcome_tag(o: Outcome) -> Seq<char> {
    match o {
        Outcome::Delivered => "ok"@,
        Outcome::NoPreamble => "no_preamble"@,
        Outcome::SyncFail => "sync_fail"@,
        Outcome::RsFail => "rs_fail"@,
        Outcome::CrcFail => "crc_fail"@,
        Outcome::FrameFail => "frame_fail"@,
        Outcome::ShaMismatch => "sha_mismatch"@,
        Outcome::WrongBytes => "wrong_bytes"@,
    }
}

impl Outcome {
    pub fn tag(&self) -> (s: &'static str)
        ensures
            s@ == outcome_tag(*self),
    {
        match self {
            Outcome::Delivered => "ok",
            Outcome::NoPreamble => "no_preamble",
            Outcome::SyncFail => "sync_fail",
            Outcome::RsFail => "rs_fail",
            Outcome::CrcFail => "crc_fail",
            Outcome::FrameFail => "frame_fail",
            Outcome::ShaMismatch => "sha_mismatch",
            Outcome::WrongBytes => "wrong_bytes",
        }
    }
}

/// The kind of failure a drop reason names, as the harness reads it: a
/// reason mentioning "sync" is a sync failure, otherwise one mentioning "RS"
/// or "Rs" a Reed–Solomon failure, otherwise one mentioning "CRC" a CRC
/// failure.
pub open spec fn reason_kind(reason: Seq<char>) -> DropKind {
    if contains_sub(reason, "sync"@) {
        DropKind::Sync
    } else if contains_sub(reason, "RS"@) || contains_sub(reason, "Rs"@) {
        DropKind::ReedSolomon
    } else if contains_sub(reason, "CRC"@) {
        DropKind::Crc
    } else {
        DropKind::Other
    }
}

/// The kinds of frame drop the harness tells apart.
pub enum DropKind {
    Sync,
    ReedSolomon,
    Crc,
    Other,
}

pub open spec fn is_complete(e: EventView) -> bool {
    e is StreamComplete
}

pub open spec fn drop_with(e: EventView, kind: DropKind) -> bool {
    match e {
        EventView::FrameDropped { reason, .. } => reason_kind(reason) == kind,
        _ => false,
    }
}

/// Whether some event before `end` is a drop whose reason is of `kind`.
pub open spec fn some_drop(events: Seq<EventView>, end: int, kind: DropKind) -> bool {
    exists|i: int| 0 <= i < end && #[trigger] drop_with(events[i], kind)
}

/// The verdict on a cell. The first StreamComplete decides: a checksum
/// mismatch, the expected bytes, or other bytes. Without one: no events at
/// all means the preamble was never found; otherwise the worst drop reason
/// seen names the failure (Reed–Solomon, then CRC, then sync), and a stream
/// that simply never completed is a frame failure.
pub open spec fn spec_classify(events: Seq<EventView>, expected: Seq<u8>) -> Outcome {
    if exists|i: int| 0 <= i < events.len() && is_complete(#[trigger] events[i]) {
        let i = choose|i: int|
            0 <= i < events.len() && is_complete(#[trigger] events[i]) && forall|j: int|
                0 <= j < i ==> !is_complete(#[trigger] events[j]);
        match events[i] {
            EventView::StreamComplete { bytes, sha256_ok } => if !sha256_ok {
                Outcome::ShaMismatch
            } else if bytes == expected {
                Outcome::Delivered
            } else {
                Outcome::WrongBytes
            },
            _ => Outcome::FrameFail,
        }
    } else if events.len() == 0 {
        Outcome::NoPreamble
    } else if some_drop(events, events.len() as int, DropKind::ReedSolomon) {
        Outcome::RsFail
    } else if some_drop(events, events.len() as int, DropKind::Crc) {
        Outcome::CrcFail
    } else if some_drop(events, events.len() as int, DropKind::Sync) {
        Outcome::SyncFail
    } else {
        Outcome::FrameFail
    }
}

fn vec_eq(a: &Vec<u8>, b: &[u8]) -> (r: bool)
    ensures
        r == (a@ == b@),
{
    if a.len() != b.len() {
        return false;
    }
    let mut i: usize = 0;
    while i < a.len()
        invariant
            i <= a@.len() == b@.len(),
            forall|k: int| 0 <= k < i ==> a@[k] == b@[k],
        decreases a@.len() - i,
    {
        if a[i] != b[i] {
            return false;
        }
        i += 1;
    }
    assert(a@ =~= b@);
    true
}

/// The verdict on the events a receiver reported for one capture.
pub fn classify(events: &[FrameEvent], expected: &[u8]) -> (o: Outcome)
    ensures
        o == spec_classify(events@.map_values(|e: FrameEvent| e@), expected@),
{
    let ghost evs = events@.map_values(|e: FrameEvent| e@);
    let mut saw_drop_sync = false;
    let mut saw_drop_rs = false;
    let mut saw_drop_crc = false;
    let mut i: usize = 0;
    while i < events.len()
        invariant
            i <= events@.len(),
            evs == events@.map_values(|e: FrameEvent| e@),
            forall|j: int| 0 <= j < i ==> !is_complete(#[trigger] evs[j]),
            saw_drop_rs == some_drop(evs, i as int, DropKind::ReedSolomon),
            saw_drop_crc == some_drop(evs, i as int, DropKind::Crc),
            saw_drop_sync == some_drop(evs, i as int, DropKind::Sync),
        decreases events@.len() - i,
    {
        let ghost e = evs[i as int];
        match &events[i] {
            FrameEvent::FrameOk { .. } => {
                assert(!drop_with(e, DropKind::Sync) && !drop_with(e, DropKind::ReedSolomon) && !drop_with(e, DropKind::Crc));
            },
            FrameEvent::FrameDropped { reason, .. } => {
                let ghost r = reason@;
                assert(e matches EventView::FrameDropped { reason: rr, .. } && rr == r);
                let has_sync = str_contains(reason.as_str(), "sync");
                let has_rs_upper = str_contains(reason.as_str(), "RS");
                let has_rs_mixed = str_contains(reason.as_str(), "Rs");
                let has_crc = str_contains(reason.as_str(), "CRC");
                if has_sync {
                    assert(reason_kind(r) == DropKind::Sync);
                    saw_drop_sync = true;
                } else if has_rs_upper || has_rs_mixed {
                    assert(reason_kind(r) == DropKind::ReedSolomon);
                    saw_drop_rs = true;
                } else if has_crc {
                    assert(reason_kind(r) == DropKind::Crc);
                    saw_drop_crc = true;
                } else {
                    assert(reason_kind(r) == DropKind::Other);
                }
            },
            FrameEvent::StreamComplete { bytes, sha256_ok } => {
                assert(is_complete(evs[i as int]));
                assert(forall|j: int| 0 <= j < i ==> !is_complete(#[trigger] evs[j]));
                let ghost k = choose|k: int|
                    0 <= k < evs.len() && is_complete(#[trigger] evs[k]) && forall|j: int|
                        0 <= j < k ==> !is_complete(#[trigger] evs[j]);
                assert(k == i) by {
                    if k < i {
                        assert(!is_complete(evs[k]));
                    } else if k > i {
                        assert(!is_complete(evs[i as int]));
                    }
                }
                if !*sha256_ok {
                    return Outcome::ShaMismatch;
                }
                if vec_eq(bytes, expected) {
                    return Outcome::Delivered;
                }
                return Outcome::WrongBytes;
            },
        }
        assert(some_drop(evs, i + 1, DropKind::ReedSolomon) == (saw_drop_rs)) by {
            if drop_with(evs[i as int], DropKind::ReedSolomon) {
                assert(some_drop(evs, i + 1, DropKind::ReedSolomon));
            }
            if some_drop(evs, i + 1, DropKind::ReedSolomon) && !some_drop(evs, i as int, DropKind::ReedSolomon) {
                let w = choose|w: int| 0 <= w < i + 1 && #[trigger] drop_with(evs[w], DropKind::ReedSolomon);
                assert(w == i);
            }
        }
        assert(some_drop(evs, i + 1, DropKind::Crc) == (saw_drop_crc)) by {
            if drop_with(evs[i as int], DropKind::Crc) {
                assert(some_drop(evs, i + 1, DropKind::Crc));
            }
            if some_drop(evs, i + 1, DropKind::Crc) && !some_drop(evs, i as int, DropKind::Crc) {
                let w = choose|w: int| 0 <= w < i + 1 && #[trigger] drop_with(evs[w], DropKind::Crc);
                assert(w == i);
            }
        }
        assert(some_drop(evs, i + 1, DropKind::Sync) == (saw_drop_sync)) by {
            if drop_with(evs[i as int], DropKind::Sync) {
                assert(some_drop(evs, i + 1, DropKind::Sync));
            }
            if some_drop(evs, i + 1, DropKind::Sync) && !some_drop(evs, i as int, DropKind::Sync) {
                let w = choose|w: int| 0 <= w < i + 1 && #[trigger] drop_with(evs[w], DropKind::Sync);
                assert(w == i);
            }
        }
        i += 1;
    }
    assert(!exists|i: int| 0 <= i < evs.len() && is_complete(#[trigger] evs[i]));
    if events.len() == 0 {
        Outcome::NoPreamble
    } else if saw_drop_rs {
        Outcome::RsFail
    } else if saw_drop_crc {
        Outcome::CrcFail
    } else if saw_drop_sync {
        Outcome::SyncFail
    } else {
        Outcome::FrameFail
    }
}

/// The variant combination at position `i` of the sweep: pulse shaping is the
/// slowest-changing flag, timing recovery the fastest.
pub open spec fn sweep_variant(i: int) -> DspVariants {
    DspVariants { pulse_shape: i / 4 == 1, matched_filter: (i / 2) % 2 == 1, timing_recovery: i % 2 == 1 }
}

/// The tag of the variant combination at position `i` of the sweep.
pub open spec fn sweep_tag(i: int) -> Seq<char> {
    spec_variant_tag(sweep_variant(i))
}

/// Whether `v` is the tag of one of the sweep's combinations.
pub open spec fn is_sweep_tag(v: Seq<char>) -> bool {
    exists|i: int| 0 <= i < 8 && #[trigger] sweep_tag(i) == v
}

/// The eight combinations of the sweep have eight different tags.
pub proof fn lemma_sweep_tags_distinct()
    ensures
        forall|a: int, b: int| 0 <= a < b < 8 ==> sweep_tag(a) != sweep_tag(b),
{
    assert forall|a: int, b: int| 0 <= a < b < 8 implies sweep_tag(a) != sweep_tag(b) by {
        lemma_tag_injective(sweep_variant(a), sweep_variant(b));
    }
}

/// All eight variant combinations, in sweep order.
pub fn all_variants() -> (v: Vec<DspVariants>)
    ensures
        v@.len() == 8,
        forall|i: int| 0 <= i < 8 ==> #[trigger] v@[i] == sweep_variant(i),
{
    let mut out: Vec<DspVariants> = Vec::with_capacity(8);
    let mut i: usize = 0;
    while i < 8
        invariant
            i <= 8,
            out@.len() == i,
            forall|k: int| 0 <= k < i ==> #[trigger] out@[k] == sweep_variant(k),
        decreases 8 - i,
    {
        out.push(DspVariants { pulse_shape: i / 4 == 1, matched_filter: (i / 2) % 2 == 1, timing_recovery: i % 2 == 1 });
        i += 1;
    }
    out
}

/// The PHY a capture is decoded with.
pub fn make_phy(profile: Profile, symbol_rate: u32, variants: DspVariants) -> (p: FskPhy)
    requires
        valid_symbol_rate(symbol_rate),
    ensures
        p.is_profile_at(profile, symbol_rate, variants),
{
    match profile {
        Profile::Audible => FskPhy::audible_at(symbol_rate, variants),
        Profile::Ultrasonic => FskPhy::ultrasonic_at(symbol_rate, variants),
    }
}

// ---------------------------------------------------------------------------
// Capture entries
// ---------------------------------------------------------------------------

/// Why a capture entry could not be used.
#[derive(Debug, Clone, PartialEq, Eq)]
pub enum RankError {
    /// The entry gives neither `expected` nor `expected_hex`.
    NoExpectedPayload { file: String },
    /// `expected_hex` has an odd number of bytes once whitespace is removed.
    OddLengthHex,
    /// A pair of `expected_hex` is not a hexadecimal byte.
    InvalidHexDigit,
    /// The profile is neither "audible" nor "ultrasonic".
    UnknownProfile { name: String },
}

/// The text of a rank error.
pub open spec fn rank_error_text(e: RankError) -> Seq<char> {
    match e {
        RankError::NoExpectedPayload { file } => "capture "@ + file@ + " has neither expected nor expected_hex"@,
        RankError::OddLengthHex => "odd-length hex string"@,
        RankError::InvalidHexDigit => "invalid digit found in string"@,
        RankError::UnknownProfile { name } => "unknown profile "@ + name@,
    }
}

impl RankError {
    pub fn message(&self) -> (s: String)
        ensures
            s@ == rank_error_text(*self),
    {
        match self {
            RankError::NoExpectedPayload { file } => {
                let mut s = String::from_str("capture ");
                s.append(file.as_str());
                s.append(" has neither expected nor expected_hex");
                s
            },
            RankError::OddLengthHex => String::from_str("odd-length hex string"),
            RankError::InvalidHexDigit => String::from_str("invalid digit found in string"),
            RankError::UnknownProfile { name } => {
                let mut s = String::from_str("unknown profile ");
                s.append(name.as_str());
                s
            },
        }
    }
}

/// A character with the Unicode White_Space property.
pub open spec fn is_whitespace(c: char) -> bool {
    let v = c as u32;
    (0x09 <= v <= 0x0d) || v == 0x20 || v == 0x85 || v == 0xa0 || v == 0x1680 || (0x2000 <= v <= 0x200a)
        || v == 0x2028 || v == 0x2029 || v == 0x202f || v == 0x205f || v == 0x3000
}

/// The characters of `s` that are not whitespace, in order.
pub open spec fn strip_whitespace(s: Seq<char>) -> Seq<char>
    decreases s.len(),
{
    if s.len() == 0 {
        s
    } else if is_whitespace(s.last()) {
        strip_whitespace(s.drop_last())
    } else {
        strip_whitespace(s.drop_last()).push(s.last())
    }
}

/// Bytes a character takes in UTF-8.
pub open spec fn utf8_width(c: char) -> nat {
    let v = c as u32;
    if v < 0x80 {
        1
    } else if v < 0x800 {
        2
    } else if v < 0x10000 {
        3
    } else {
        4
    }
}

/// Bytes a run of characters takes in UTF-8.
pub open spec fn utf8_len(s: Seq<char>) -> nat
    decreases s.len(),
{
    if s.len() == 0 {
        0
    } else {
        utf8_len(s.drop_last()) + utf8_width(s.last())
    }
}

/// The value of a hexadecimal digit.
pub open spec fn hex_value(c: char) -> Option<u8> {
    let v = c as u32;
    if 0x30 <= v <= 0x39 {
        Some((v - 0x30) as u8)
    } else if 0x61 <= v <= 0x66 {
        Some((v - 0x61 + 10) as u8)
    } else if 0x41 <= v <= 0x46 {
        Some((v - 0x41 + 10) as u8)
    } else {
        None
    }
}

/// The byte a two-character pair parses to in base 16: two digits, or a
/// '+' sign and one digit.
pub open spec fn pair_value(c0: char, c1: char) -> Option<u8> {
    if c0 == '+' {
        hex_value(c1)
    } else {
        match (hex_value(c0), hex_value(c1)) {
            (Some(a), Some(b)) => Some((16 * a + b) as u8),
            _ => None,
        }
    }
}

/// How reading a whitespace-free hex text two bytes at a time goes.
pub enum HexRead {
    /// Every pair parsed; the bytes, in order.
    Bytes(Seq<u8>),
    /// Some pair is not a hexadecimal byte.
    BadDigit,
    /// Some two-byte window does not fall on character boundaries.
    Unsliceable,
}

/// Reading `cs` two UTF-8 bytes at a time. A pair of one-byte characters is
/// parsed; a two-byte character is a single window that is no digit; a
/// window that would split a character cannot be taken.
pub open spec fn read_hex_pairs(cs: Seq<char>) -> HexRead
    decreases cs.len(),
{
    if cs.len() == 0 {
        HexRead::Bytes(Seq::empty())
    } else if utf8_width(cs[0]) == 1 {
        if cs.len() < 2 || utf8_width(cs[1]) != 1 {
            HexRead::Unsliceable
        } else {
            match pair_value(cs[0], cs[1]) {
                None => HexRead::BadDigit,
                Some(b) => match read_hex_pairs(cs.subrange(2, cs.len() as int)) {
                    HexRead::Bytes(rest) => HexRead::Bytes(seq![b] + rest),
                    other => other,
                },
            }
        }
    } else if utf8_width(cs[0]) == 2 {
        HexRead::BadDigit
    } else {
        HexRead::Unsliceable
    }
}

/// Whether decoding `s` as hex would have to cut a character in two.
pub open spec fn hex_text_unsliceable(s: Seq<char>) -> bool {
    utf8_len(strip_whitespace(s)) % 2 == 0 && read_hex_pairs(strip_whitespace(s)) is Unsliceable
}

/// What decoding a hex text gives: whitespace is ignored, the rest must be
/// an even number of bytes, and every pair of them a hexadecimal byte.
pub open spec fn spec_hex_decode(s: Seq<char>) -> Result<Seq<u8>, RankError> {
    let cs = strip_whitespace(s);
    if utf8_len(cs) % 2 == 1 {
        Err(RankError::OddLengthHex)
    } else {
        match read_hex_pairs(cs) {
            HexRead::Bytes(b) => Ok(b),
            _ => Err(RankError::InvalidHexDigit),
        }
    }
}

fn char_width(c: char) -> (w: usize)
    ensures
        w == utf8_width(c),
{
    let v = c as u32;
    if v < 0x80 {
        1
    } else if v < 0x800 {
        2
    } else if v < 0x10000 {
        3
    } else {
        4
    }
}

fn hex_digit(c: char) -> (r: Option<u8>)
    ensures
        r == hex_value(c),
{
    let v = c as u32;
    if 0x30 <= v && v <= 0x39 {
        Some((v - 0x30) as u8)
    } else if 0x61 <= v && v <= 0x66 {
        Some((v - 0x61 + 10) as u8)
    } else if 0x41 <= v && v <= 0x46 {
        Some((v - 0x41 + 10) as u8)
    } else {
        None
    }
}

fn pair(c0: char, c1: char) -> (r: Option<u8>)
    ensures
        r == pair_value(c0, c1),
{
    if c0 == '+' {
        hex_digit(c1)
    } else {
        match (hex_digit(c0), hex_digit(c1)) {
            (Some(a), Some(b)) => Some(16 * a + b),
            _ => None,
        }
    }
}

/// The non-whitespace characters of `s`, and whether they take an odd
/// number of bytes in UTF-8.
fn strip(s: &str) -> (r: (Vec<char>, bool))
    ensures
        r.0@ == strip_whitespace(s@),
        r.1 == (utf8_len(strip_whitespace(s@)) % 2 == 1),
{
    let n = s.unicode_len();
    let mut out: Vec<char> = Vec::new();
    let mut odd = false;
    let mut i: usize = 0;
    assert(s@.take(0) =~= Seq::<char>::empty());
    while i < n
        invariant
            n == s@.len(),
            i <= n,
            out@ == strip_whitespace(s@.take(i as int)),
            odd == (utf8_len(out@) % 2 == 1),
        decreases n - i,
    {
        let c = s.get_char(i);
        assert(s@.take(i + 1).drop_last() =~= s@.take(i as int));
        let v = c as u32;
        let ws = (0x09 <= v && v <= 0x0d) || v == 0x20 || v == 0x85 || v == 0xa0 || v == 0x1680 || (0x2000
            <= v && v <= 0x200a) || v == 0x2028 || v == 0x2029 || v == 0x202f || v == 0x205f || v == 0x3000;
        if !ws {
            let ghost before = out@;
            out.push(c);
            if char_width(c) % 2 == 1 {
                odd = !odd;
            }
            assert(out@.drop_last() =~= before);
        }
        i += 1;
    }
    assert(s@.take(n as int) =~= s@);
    (out, odd)
}

/// Reads the pairs of `cs` from position `start` on: the result of reading the
/// whole run is that of the part before `start` joined to it.
pub open spec fn join_read(prefix: Seq<u8>, r: HexRead) -> HexRead {
    match r {
        HexRead::Bytes(b) => HexRead::Bytes(prefix + b),
        other => other,
    }
}

/// Reading a hex text: `Ok` with the bytes, or the kind of failure.
fn read_hex(s: &str) -> (r: Result<Vec<u8>, HexFailure>)
    ensures
        match r {
            Ok(b) => utf8_len(strip_whitespace(s@)) % 2 == 0 && read_hex_pairs(strip_whitespace(s@)) == HexRead::Bytes(b@),
            Err(HexFailure::OddLength) => utf8_len(strip_whitespace(s@)) % 2 == 1,
            Err(HexFailure::BadDigit) => utf8_len(strip_whitespace(s@)) % 2 == 0 && read_hex_pairs(strip_whitespace(s@)) is BadDigit,
            Err(HexFailure::Unsliceable) => hex_text_unsliceable(s@),
        },
{
    let (cs, odd) = strip(s);
    if odd {
        return Err(HexFailure::OddLength);
    }
    let ghost all = cs@;
    let mut out: Vec<u8> = Vec::new();
    let mut i: usize = 0;
    assert(all.subrange(0, all.len() as int) =~= all);
    while i < cs.len()
        invariant
            all == cs@,
            all == strip_whitespace(s@),
            utf8_len(strip_whitespace(s@)) % 2 == 0,
            i <= cs@.len(),
            read_hex_pairs(all) == join_read(out@, read_hex_pairs(all.subrange(i as int, all.len() as int))),
        decreases cs@.len() - i,
    {
        let ghost rest = all.subrange(i as int, all.len() as int);
        let c0 = cs[i];
        assert(rest[0] == c0);
        let w0 = char_width(c0);
        if w0 == 1 {
            if i + 1 >= cs.len() {
                assert(read_hex_pairs(rest) is Unsliceable);
                return Err(HexFailure::Unsliceable);
            }
            assert(rest[1] == cs@[i + 1]);
            if char_width(cs[i + 1]) != 1 {
                assert(read_hex_pairs(rest) is Unsliceable);
                return Err(HexFailure::Unsliceable);
            }
            match pair(c0, cs[i + 1]) {
                None => {
                    assert(read_hex_pairs(rest) is BadDigit);
                    return Err(HexFailure::BadDigit);
                },
                Some(b) => {
                    assert(rest.subrange(2, rest.len() as int) =~= all.subrange(i + 2, all.len() as int));
                    let ghost before = out@;
                    out.push(b);
                    proof {
                        match read_hex_pairs(all.subrange(i + 2, all.len() as int)) {
                            HexRead::Bytes(r) => {
                                assert(before + (seq![b] + r) =~= out@ + r);
                            },
                            _ => {},
                        }
                    }
                    i = i + 2;
                },
            }
        } else if w0 == 2 {
            assert(read_hex_pairs(rest) is BadDigit);
            return Err(HexFailure::BadDigit);
        } else {
            assert(read_hex_pairs(rest) is Unsliceable);
            return Err(HexFailure::Unsliceable);
        }
    }
    assert(all.subrange(i as int, all.len() as int) =~= Seq::<char>::empty());
    assert(out@ + Seq::<u8>::empty() =~= out@);
    Ok(out)
}

/// The ways reading a hex text can fail.
pub enum HexFailure {
    OddLength,
    BadDigit,
    Unsliceable,
}

/// Decodes a hex text: whitespace anywhere is ignored; what remains is read
/// two bytes at a time, each pair as a base-16 byte. The text must not place
/// a character across a pair boundary.
pub fn hex_decode(s: &str) -> (r: Result<Vec<u8>, RankError>)
    requires
        !hex_text_unsliceable(s@),
    ensures
        match r {
            Ok(b) => spec_hex_decode(s@) == Ok::<Seq<u8>, RankError>(b@),
            Err(e) => spec_hex_decode(s@) == Err::<Seq<u8>, RankError>(e),
        },
{
    match read_hex(s) {
        Ok(b) => Ok(b),
        Err(HexFailure::OddLength) => Err(RankError::OddLengthHex),
        Err(_) => Err(RankError::InvalidHexDigit),
    }
}

/// Whether `hex_decode` would have to cut a character of `s` in two, which
/// it cannot do.
pub fn hex_decode_would_split_char(s: &str) -> (b: bool)
    ensures
        b == hex_text_unsliceable(s@),
{
    match read_hex(s) {
        Err(HexFailure::Unsliceable) => true,
        _ => false,
    }
}

/// One capture of the corpus, as its manifest entry describes it.
#[derive(Debug, Clone)]
pub struct CaptureEntry {
    pub file: String,
    /// The payload as UTF-8 text...
    pub expected: Option<String>,
    /// ...or as hex, for arbitrary bytes.
    pub expected_hex: Option<String>,
    /// Free-form label, surfaced in the output.
    pub direction: String,
    /// "audible" or "ultrasonic".
    pub profile: String,
    /// Symbols per second the capture was sent at; 50 when absent.
    pub symbol_rate: Option<u32>,
}

/// The bytes a capture entry says its recording decodes to.
pub open spec fn spec_expected_bytes(e: CaptureEntry) -> Result<Seq<u8>, RankError> {
    match e.expected {
        Some(s) => Ok(vstd::utf8::encode_utf8(s@)),
        None => match e.expected_hex {
            Some(h) => spec_hex_decode(h@),
            None => Err(RankError::NoExpectedPayload { file: e.file }),
        },
    }
}

impl CaptureEntry {
    /// The payload the capture should decode to: `expected` as UTF-8 bytes,
    /// else `expected_hex` decoded.
    pub fn expected_bytes(&self) -> (r: Result<Vec<u8>, RankError>)
        requires
            self.expected is None && self.expected_hex is Some ==> !hex_text_unsliceable(
                self.expected_hex->0@,
            ),
        ensures
            match r {
                Ok(b) => spec_expected_bytes(*self) == Ok::<Seq<u8>, RankError>(b@),
                Err(e) => spec_expected_bytes(*self) == Err::<Seq<u8>, RankError>(e),
            },
    {
        if let Some(s) = &self.expected {
            let mut out: Vec<u8> = Vec::new();
            crate::tx::append_bytes(&mut out, s.as_str().as_bytes());
            return Ok(out);
        }
        if let Some(h) = &self.expected_hex {
            return hex_decode(h.as_str());
        }
        Err(RankError::NoExpectedPayload { file: self.file.clone() })
    }

    /// The tone plan the capture was sent with.
    pub fn profile(&self) -> (r: Result<Profile, RankError>)
        ensures
            self.profile@ == "audible"@ ==> r == Ok::<Profile, RankError>(Profile::Audible),
            self.profile@ == "ultrasonic"@ ==> r == Ok::<Profile, RankError>(Profile::Ultrasonic),
            self.profile@ != "audible"@ && self.profile@ != "ultrasonic"@ ==> (r matches Err(e) && e
                == RankError::UnknownProfile { name: self.profile }),
    {
        proof {
            reveal_strlit("audible");
            reveal_strlit("ultrasonic");
            assert("audible"@.len() == 7);
            assert("ultrasonic"@.len() == 10);
            assert("audible"@ != "ultrasonic"@);
        }
        if str_eq(self.profile.as_str(), "audible") {
            Ok(Profile::Audible)
        } else if str_eq(self.profile.as_str(), "ultrasonic") {
            Ok(Profile::Ultrasonic)
        } else {
            Err(RankError::UnknownProfile { name: self.profile.clone() })
        }
    }

    /// Symbols per second the capture was sent at.
    pub fn symbol_rate(&self) -> (r: u32)
        ensures
            r == match self.symbol_rate {
                Some(v) => v,
                None => DEFAULT_SYMBOL_RATE,
            },
    {
        match self.symbol_rate {
            Some(v) => v,
            None => DEFAULT_SYMBOL_RATE,
        }
    }
}

// ---------------------------------------------------------------------------
// Tally
// ---------------------------------------------------------------------------

/// Where an outcome is counted in a tally row: "ok" first, then the failures
/// in the alphabetical order of their labels, which is the order a summary
/// lists them in.
pub open spec fn outcome_slot(o: Outcome) -> int {
    match o {
        Outcome::Delivered => 0,
        Outcome::CrcFail => 1,
        Outcome::FrameFail => 2,
        Outcome::NoPreamble => 3,
        Outcome::RsFail => 4,
        Outcome::ShaMismatch => 5,
        Outcome::SyncFail => 6,
        Outcome::WrongBytes => 7,
    }
}

/// The outcome counted in a slot.
pub open spec fn slot_outcome(j: int) -> Outcome {
    if j == 0 {
        Outcome::Delivered
    } else if j == 1 {
        Outcome::CrcFail
    } else if j == 2 {
        Outcome::FrameFail
    } else if j == 3 {
        Outcome::NoPreamble
    } else if j == 4 {
        Outcome::RsFail
    } else if j == 5 {
        Outcome::ShaMismatch
    } else if j == 6 {
        Outcome::SyncFail
    } else {
        Outcome::WrongBytes
    }
}

fn slot_of(o: Outcome) -> (j: usize)
    ensures
        j == outcome_slot(o),
        j < 8,
        slot_outcome(j as int) == o,
{
    match o {
        Outcome::Delivered => 0,
        Outcome::CrcFail => 1,
        Outcome::FrameFail => 2,
        Outcome::NoPreamble => 3,
        Outcome::RsFail => 4,
        Outcome::ShaMismatch => 5,
        Outcome::SyncFail => 6,
        Outcome::WrongBytes => 7,
    }
}

fn outcome_in_slot(j: usize) -> (o: Outcome)
    requires
        j < 8,
    ensures
        o == slot_outcome(j as int),
        outcome_slot(o) == j,
{
    if j == 0 {
        Outcome::Delivered
    } else if j == 1 {
        Outcome::CrcFail
    } else if j == 2 {
        Outcome::FrameFail
    } else if j == 3 {
        Outcome::NoPreamble
    } else if j == 4 {
        Outcome::RsFail
    } else if j == 5 {
        Outcome::ShaMismatch
    } else if j == 6 {
        Outcome::SyncFail
    } else {
        Outcome::WrongBytes
    }
}

/// Strict lexicographic order on character sequences, by code point.
pub open spec fn text_lt(a: Seq<char>, b: Seq<char>) -> bool
    decreases a.len(),
{
    if b.len() == 0 {
        false
    } else if a.len() == 0 {
        true
    } else if (a[0] as u32) < (b[0] as u32) {
        true
    } else if a[0] == b[0] {
        text_lt(a.drop_first(), b.drop_first())
    } else {
        false
    }
}

/// Tally rows are ordered by symbol rate, then by variant label.
pub open spec fn key_lt(r1: u32, v1: Seq<char>, r2: u32, v2: Seq<char>) -> bool {
    r1 < r2 || (r1 == r2 && text_lt(v1, v2))
}

fn text_less(a: &str, b: &str) -> (r: bool)
    ensures
        r == text_lt(a@, b@),
{
    let na = a.unicode_len();
    let nb = b.unicode_len();
    let mut i: usize = 0;
    assert(a@.skip(0) =~= a@ && b@.skip(0) =~= b@);
    while i < na && i < nb
        invariant
            na == a@.len(),
            nb == b@.len(),
            i <= na,
            i <= nb,
            text_lt(a@, b@) == text_lt(a@.skip(i as int), b@.skip(i as int)),
        decreases na - i,
    {
        let ca = a.get_char(i);
        let cb = b.get_char(i);
        assert(a@.skip(i as int)[0] == ca && b@.skip(i as int)[0] == cb);
        if (ca as u32) < (cb as u32) {
            return true;
        }
        if ca != cb {
            return false;
        }
        assert(a@.skip(i as int).drop_first() =~= a@.skip(i + 1));
        assert(b@.skip(i as int).drop_first() =~= b@.skip(i + 1));
        i += 1;
    }
    i < nb
}

/// One row of the tally: a symbol rate, a variant label, and the count of
/// each outcome by slot.
pub struct TallyRow {
    pub symbol_rate: u32,
    pub variant: String,
    pub counts: [usize; 8],
}

/// Counts of outcomes per (symbol rate, variant), rows kept in key order.
pub struct RankTally {
    rows: Vec<TallyRow>,
}

/// A summary count of one outcome: " label=count" when there is any.
pub open spec fn detail_text(c: Seq<usize>, j: int) -> Seq<char> {
    if c[j] > 0 {
        " "@ + outcome_tag(slot_outcome(j)) + "="@ + decimal(c[j] as nat)
    } else {
        Seq::empty()
    }
}

/// The failure counts of a row, in slot order, from slot `j` on.
pub open spec fn details_from(c: Seq<usize>, j: int) -> Seq<char>
    decreases 8 - j,
{
    if j >= 8 {
        Seq::empty()
    } else {
        detail_text(c, j) + details_from(c, j + 1)
    }
}

/// Sum of a row's counts.
pub open spec fn row_total(c: Seq<usize>) -> int {
    c[0] + c[1] + c[2] + c[3] + c[4] + c[5] + c[6] + c[7]
}

/// The summary line of a row:
/// `SUMMARY rate=R variant=V ok=K/N` followed by each failure that
/// occurred, as ` label=count`.
pub open spec fn summary_text(rate: u32, variant: Seq<char>, c: Seq<usize>) -> Seq<char> {
    "SUMMARY rate="@ + decimal(rate as nat) + " variant="@ + variant + " ok="@ + decimal(c[0] as nat) + "/"@
        + decimal(row_total(c) as nat) + details_from(c, 1)
}

impl RankTally {
    /// Rows strictly increasing by key, each counting at least one cell and
    /// no more cells than a `usize` holds.
    pub closed spec fn wf(self) -> bool {
        &&& forall|a: int, b: int|
            0 <= a < b < self.rows@.len() ==> key_lt(
                #[trigger] self.rows@[a].symbol_rate,
                self.rows@[a].variant@,
                #[trigger] self.rows@[b].symbol_rate,
                self.rows@[b].variant@,
            )
        &&& forall|k: int|
            0 <= k < self.rows@.len() ==> 1 <= row_total(#[trigger] self.rows@[k].counts@) <= usize::MAX
    }

    /// Number of rows.
    pub closed spec fn spec_len(self) -> nat {
        self.rows@.len()
    }

    pub closed spec fn row_rate(self, k: int) -> u32 {
        self.rows@[k].symbol_rate
    }

    pub closed spec fn row_variant(self, k: int) -> Seq<char> {
        self.rows@[k].variant@
    }

    pub closed spec fn row_counts(self, k: int) -> Seq<usize> {
        self.rows@[k].counts@
    }

    /// Row `k` exists and holds the key `(rate, variant)`.
    pub closed spec fn has_key(self, rate: u32, variant: Seq<char>, k: int) -> bool {
        0 <= k < self.rows@.len() && self.rows@[k].symbol_rate == rate && self.rows@[k].variant@ == variant
    }

    /// How many cells at `rate` under `variant` had the outcome of slot `j`.
    pub open spec fn count(self, rate: u32, variant: Seq<char>, j: int) -> int {
        if exists|k: int| #[trigger] self.has_key(rate, variant, k) {
            self.row_counts(choose|k: int| #[trigger] self.has_key(rate, variant, k))[j] as int
        } else {
            0
        }
    }

    /// How many cells at `rate` under `variant` were counted in all.
    pub open spec fn total(self, rate: u32, variant: Seq<char>) -> int {
        self.count(rate, variant, 0) + self.count(rate, variant, 1) + self.count(rate, variant, 2)
            + self.count(rate, variant, 3) + self.count(rate, variant, 4) + self.count(rate, variant, 5)
            + self.count(rate, variant, 6) + self.count(rate, variant, 7)
    }

    pub fn new() -> (t: Self)
        ensures
            t.wf(),
            t.spec_len() == 0,
            forall|r: u32, v: Seq<char>, j: int| #[trigger] t.count(r, v, j) == 0,
    {
        RankTally { rows: Vec::new() }
    }

    /// Where the key `(rate, variant)` stands among the rows, or would stand.
    fn locate(&self, rate: u32, variant: &str) -> (res: (usize, bool))
        requires
            self.wf(),
        ensures
            res.0 <= self.spec_len(),
            res.1 ==> self.has_key(rate, variant@, res.0 as int),
            !res.1 ==> forall|k: int|
                0 <= k < res.0 ==> key_lt(#[trigger] self.row_rate(k), self.row_variant(k), rate, variant@),
            !res.1 && res.0 < self.spec_len() ==> key_lt(
                rate,
                variant@,
                self.row_rate(res.0 as int),
                self.row_variant(res.0 as int),
            ),
    {
        let n = self.rows.len();
        let mut i: usize = 0;
        while i < n
            invariant
                n == self.rows@.len(),
                i <= n,
                forall|k: int| 0 <= k < i ==> key_lt(#[trigger] self.row_rate(k), self.row_variant(k), rate, variant@),
            decreases n - i,
        {
            let here = &self.rows[i];
            if here.symbol_rate == rate && str_eq(here.variant.as_str(), variant) {
                return (i, true);
            }
            if here.symbol_rate > rate || (here.symbol_rate == rate && text_less(variant, here.variant.as_str())) {
                return (i, false);
            }
            proof {
                if here.symbol_rate == rate {
                    lemma_text_lt_total(here.variant@, variant@);
                }
            }
            i += 1;
        }
        (n, false)
    }

    /// Counts one cell.
    pub fn record(&mut self, symbol_rate: u32, variant: &str, outcome: Outcome)
        requires
            old(self).wf(),
            old(self).total(symbol_rate, variant@) < usize::MAX,
        ensures
            final(self).wf(),
            forall|r: u32, v: Seq<char>, j: int|
                0 <= j < 8 ==> #[trigger] final(self).count(r, v, j) == old(self).count(r, v, j) + (if r
                    == symbol_rate && v == variant@ && j == outcome_slot(outcome) {
                    1int
                } else {
                    0int
                }),
            final(self).spec_len() == old(self).spec_len() + (if old(self).total(symbol_rate, variant@) == 0 {
                1int
            } else {
                0int
            }),
    {
        let slot = slot_of(outcome);
        let ghost old_t = *self;
        let (i, found) = self.locate(symbol_rate, variant);
        if found {
            proof {
                old_t.lemma_total_at(i as int);
            }
            let mut row = self.rows.remove(i);
            let c = row.counts[slot];
            row.counts[slot] = c + 1;
            self.rows.insert(i, row);
            proof {
                assert forall|k: int| 0 <= k < self.rows@.len() && k != i implies self.rows@[k] == old_t.rows@[k] by {
                    if k < i {
                        assert(self.rows@[k] == old_t.rows@.remove(i as int)[k]);
                    } else {
                        assert(self.rows@[k] == old_t.rows@.remove(i as int)[k - 1]);
                    }
                }
                self.lemma_bumped(old_t, i as int, slot as int);
            }
        } else {
            let mut counts = [0usize; 8];
            counts[slot] = 1;
            let row = TallyRow { symbol_rate, variant: String::from_str(variant), counts };
            self.rows.insert(i, row);
            proof {
                assert forall|k: int| 0 <= k < i implies self.rows@[k] == old_t.rows@[k] by {}
                assert forall|k: int| i < k < self.rows@.len() implies self.rows@[k] == old_t.rows@[k - 1] by {}
                assert(self.row_counts(i as int) =~= Seq::new(8, |j: int| if j == slot { 1usize } else { 0usize }));
                self.lemma_inserted(old_t, i as int, slot as int);
            }
        }
    }

    /// In an ordered tally a key stands in at most one row.
    proof fn lemma_key_unique(self, r: u32, v: Seq<char>, a: int, b: int)
        requires
            self.wf(),
            self.has_key(r, v, a),
            self.has_key(r, v, b),
        ensures
            a == b,
    {
        lemma_text_lt_irreflexive(v);
        if a < b {
            assert(key_lt(self.rows@[a].symbol_rate, self.rows@[a].variant@, self.rows@[b].symbol_rate, self.rows@[b].variant@));
        } else if b < a {
            assert(key_lt(self.rows@[b].symbol_rate, self.rows@[b].variant@, self.rows@[a].symbol_rate, self.rows@[a].variant@));
        }
    }

    /// The count of a present key is its row's count.
    proof fn lemma_count_of(self, r: u32, v: Seq<char>, k: int, j: int)
        requires
            self.wf(),
            self.has_key(r, v, k),
        ensures
            self.count(r, v, j) == self.row_counts(k)[j] as int,
    {
        let c = choose|m: int| #[trigger] self.has_key(r, v, m);
        self.lemma_key_unique(r, v, c, k);
    }

    /// A row's total is what `total` reports for its key.
    proof fn lemma_total_at(self, i: int)
        requires
            self.wf(),
            0 <= i < self.spec_len(),
        ensures
            self.total(self.row_rate(i), self.row_variant(i)) == row_total(self.row_counts(i)),
    {
        assert forall|j: int| 0 <= j < 8 implies #[trigger] self.count(self.row_rate(i), self.row_variant(i), j)
            == self.row_counts(i)[j] as int by {
            self.lemma_count_at(i, j);
        }
    }

    /// A row's counts are what `count` reports for its key.
    proof fn lemma_count_at(self, i: int, j: int)
        requires
            self.wf(),
            0 <= i < self.spec_len(),
        ensures
            self.count(self.row_rate(i), self.row_variant(i), j) == self.row_counts(i)[j] as int,
    {
        assert(self.has_key(self.row_rate(i), self.row_variant(i), i));
        self.lemma_count_of(self.row_rate(i), self.row_variant(i), i, j);
    }

    /// Bumping one count of row `i` keeps the order and adds one to exactly
    /// that count.
    proof fn lemma_bumped(self, old_t: Self, i: int, slot: int)
        requires
            old_t.wf(),
            0 <= i < old_t.spec_len(),
            0 <= slot < 8,
            self.spec_len() == old_t.spec_len(),
            forall|k: int| 0 <= k < self.spec_len() && k != i ==> self.rows@[k] == old_t.rows@[k],
            self.row_rate(i) == old_t.row_rate(i),
            self.row_variant(i) == old_t.row_variant(i),
            old_t.row_counts(i).len() == 8,
            row_total(old_t.row_counts(i)) < usize::MAX,
            self.row_counts(i) == old_t.row_counts(i).update(slot, (old_t.row_counts(i)[slot] + 1) as usize),
        ensures
            self.wf(),
            forall|r: u32, v: Seq<char>, j: int|
                0 <= j < 8 ==> #[trigger] self.count(r, v, j) == old_t.count(r, v, j) + (if r == old_t.row_rate(i)
                    && v == old_t.row_variant(i) && j == slot {
                    1int
                } else {
                    0int
                }),
    {
        assert forall|a: int, b: int| 0 <= a < b < self.rows@.len() implies key_lt(
            #[trigger] self.rows@[a].symbol_rate,
            self.rows@[a].variant@,
            #[trigger] self.rows@[b].symbol_rate,
            self.rows@[b].variant@,
        ) by {
            assert(key_lt(
                old_t.rows@[a].symbol_rate,
                old_t.rows@[a].variant@,
                old_t.rows@[b].symbol_rate,
                old_t.rows@[b].variant@,
            ));
        }
        assert(self.wf());
        let kr = old_t.row_rate(i);
        let kv = old_t.row_variant(i);
        assert forall|r: u32, v: Seq<char>, j: int| 0 <= j < 8 implies #[trigger] self.count(r, v, j) == old_t.count(r, v, j)
            + (if r == kr && v == kv && j == slot {
            1int
        } else {
            0int
        }) by {
            if r == kr && v == kv {
                assert(old_t.has_key(r, v, i));
                assert(self.has_key(r, v, i));
                old_t.lemma_count_of(r, v, i, j);
                self.lemma_count_of(r, v, i, j);
            } else if exists|k: int| #[trigger] old_t.has_key(r, v, k) {
                let k = choose|k: int| #[trigger] old_t.has_key(r, v, k);
                assert(k != i);
                assert(self.rows@[k] == old_t.rows@[k]);
                assert(self.has_key(r, v, k));
                old_t.lemma_count_of(r, v, k, j);
                self.lemma_count_of(r, v, k, j);
            } else {
                assert forall|k: int| !(#[trigger] self.has_key(r, v, k)) by {
                    if self.has_key(r, v, k) && k != i {
                        assert(self.rows@[k] == old_t.rows@[k]);
                        assert(old_t.has_key(r, v, k));
                    }
                }
            }
        }
    }

    /// Inserting a new row at its place in the order keeps the order and
    /// counts its one cell.
    proof fn lemma_inserted(self, old_t: Self, i: int, slot: int)
        requires
            old_t.wf(),
            0 <= i <= old_t.spec_len(),
            0 <= slot < 8,
            self.spec_len() == old_t.spec_len() + 1,
            forall|k: int| 0 <= k < i ==> self.rows@[k] == old_t.rows@[k],
            forall|k: int| i < k < self.spec_len() ==> self.rows@[k] == old_t.rows@[k - 1],
            forall|k: int| 0 <= k < i ==> key_lt(
                #[trigger] old_t.row_rate(k),
                old_t.row_variant(k),
                self.row_rate(i),
                self.row_variant(i),
            ),
            i < old_t.spec_len() ==> key_lt(self.row_rate(i), self.row_variant(i), old_t.row_rate(i), old_t.row_variant(i)),
            self.row_counts(i) == Seq::new(8, |j: int| if j == slot { 1usize } else { 0usize }),
        ensures
            self.wf(),
            old_t.total(self.row_rate(i), self.row_variant(i)) == 0,
            forall|r: u32, v: Seq<char>, j: int|
                0 <= j < 8 ==> #[trigger] self.count(r, v, j) == old_t.count(r, v, j) + (if r == self.row_rate(i)
                    && v == self.row_variant(i) && j == slot {
                    1int
                } else {
                    0int
                }),
    {
        let kr = self.row_rate(i);
        let kv = self.row_variant(i);
        // Every old row from i on lies after the new key.
        assert forall|k: int| i <= k < old_t.spec_len() implies key_lt(kr, kv, #[trigger] old_t.row_rate(k), old_t.row_variant(k)) by {
            if k > i {
                assert(key_lt(old_t.rows@[i].symbol_rate, old_t.rows@[i].variant@, old_t.rows@[k].symbol_rate, old_t.rows@[k].variant@));
                if kr == old_t.row_rate(i) && old_t.row_rate(i) == old_t.row_rate(k) {
                    lemma_text_lt_trans(kv, old_t.row_variant(i), old_t.row_variant(k));
                }
            }
        }
        assert forall|a: int, b: int| 0 <= a < b < self.rows@.len() implies key_lt(
            #[trigger] self.rows@[a].symbol_rate,
            self.rows@[a].variant@,
            #[trigger] self.rows@[b].symbol_rate,
            self.rows@[b].variant@,
        ) by {
            if b < i {
                assert(key_lt(
                    old_t.rows@[a].symbol_rate,
                    old_t.rows@[a].variant@,
                    old_t.rows@[b].symbol_rate,
                    old_t.rows@[b].variant@,
                ));
            } else if b == i {
                assert(key_lt(old_t.row_rate(a), old_t.row_variant(a), kr, kv));
            } else if a < i {
                assert(self.rows@[a] == old_t.rows@[a]);
                assert(self.rows@[b] == old_t.rows@[b - 1]);
                assert(key_lt(old_t.row_rate(a), old_t.row_variant(a), kr, kv));
                assert(key_lt(kr, kv, old_t.row_rate(b - 1), old_t.row_variant(b - 1)));
                if old_t.row_rate(a) == kr && kr == old_t.row_rate(b - 1) {
                    lemma_text_lt_trans(old_t.row_variant(a), kv, old_t.row_variant(b - 1));
                }
            } else if a == i {
                assert(self.rows@[b] == old_t.rows@[b - 1]);
                assert(key_lt(kr, kv, old_t.row_rate(b - 1), old_t.row_variant(b - 1)));
            } else {
                assert(self.rows@[a] == old_t.rows@[a - 1]);
                assert(self.rows@[b] == old_t.rows@[b - 1]);
                assert(key_lt(
                    old_t.rows@[a - 1].symbol_rate,
                    old_t.rows@[a - 1].variant@,
                    old_t.rows@[b - 1].symbol_rate,
                    old_t.rows@[b - 1].variant@,
                ));
            }
        }
        assert(self.wf());
        assert forall|r: u32, v: Seq<char>, j: int| 0 <= j < 8 implies #[trigger] self.count(r, v, j) == old_t.count(r, v, j)
            + (if r == kr && v == kv && j == slot {
            1int
        } else {
            0int
        }) by {
            if r == kr && v == kv {
                assert(self.has_key(r, v, i));
                self.lemma_count_of(r, v, i, j);
                assert forall|k: int| !(#[trigger] old_t.has_key(r, v, k)) by {
                    lemma_text_lt_irreflexive(kv);
                    if old_t.has_key(r, v, k) {
                        if k < i {
                            assert(key_lt(old_t.row_rate(k), old_t.row_variant(k), kr, kv));
                        } else {
                            assert(key_lt(kr, kv, old_t.row_rate(k), old_t.row_variant(k)));
                        }
                    }
                }
            } else if exists|k: int| #[trigger] old_t.has_key(r, v, k) {
                let k = choose|k: int| #[trigger] old_t.has_key(r, v, k);
                old_t.lemma_count_of(r, v, k, j);
                let k2 = if k < i { k } else { k + 1 };
                assert(self.rows@[k2] == old_t.rows@[k]);
                assert(self.has_key(r, v, k2));
                self.lemma_count_of(r, v, k2, j);
            } else {
                assert forall|k: int| !(#[trigger] self.has_key(r, v, k)) by {
                    if self.has_key(r, v, k) {
                        if k < i {
                            assert(self.rows@[k] == old_t.rows@[k]);
                            assert(old_t.has_key(r, v, k));
                        } else if k > i {
                            assert(self.rows@[k] == old_t.rows@[k - 1]);
                            assert(old_t.has_key(r, v, k - 1));
                        }
                    }
                }
            }
        }
        assert forall|k: int| !(#[trigger] old_t.has_key(kr, kv, k)) by {
            lemma_text_lt_irreflexive(kv);
            if old_t.has_key(kr, kv, k) {
                if k < i {
                    assert(key_lt(old_t.row_rate(k), old_t.row_variant(k), kr, kv));
                } else {
                    assert(key_lt(kr, kv, old_t.row_rate(k), old_t.row_variant(k)));
                }
            }
        }
    }
}

impl RankTally {
    /// The rows are the tally: they stand in strictly increasing key order,
    /// each row's counts are what `count` reports for its key, every row has
    /// counted at least one cell, and a key without a row has counted
    /// nothing.
    pub proof fn lemma_rows_are_the_counts(self)
        requires
            self.wf(),
        ensures
            forall|a: int, b: int|
                0 <= a < b < self.spec_len() ==> key_lt(
                    #[trigger] self.row_rate(a),
                    self.row_variant(a),
                    #[trigger] self.row_rate(b),
                    self.row_variant(b),
                ),
            forall|k: int, j: int|
                0 <= k < self.spec_len() ==> #[trigger] self.count(self.row_rate(k), self.row_variant(k), j)
                    == self.row_counts(k)[j] as int,
            forall|r: u32, v: Seq<char>, j: int|
                (forall|k: int| 0 <= k < self.spec_len() ==> !(self.row_rate(k) == r && self.row_variant(k) == v))
                    ==> #[trigger] self.count(r, v, j) == 0,
            forall|k: int| 0 <= k < self.spec_len() ==> #[trigger] self.total(self.row_rate(k), self.row_variant(k)) >= 1,
    {
        assert forall|k: int| 0 <= k < self.spec_len() implies #[trigger] self.total(
            self.row_rate(k),
            self.row_variant(k),
        ) >= 1 by {
            self.lemma_total_at(k);
        }
        assert forall|a: int, b: int| 0 <= a < b < self.spec_len() implies key_lt(
            #[trigger] self.row_rate(a),
            self.row_variant(a),
            #[trigger] self.row_rate(b),
            self.row_variant(b),
        ) by {
            assert(key_lt(self.rows@[a].symbol_rate, self.rows@[a].variant@, self.rows@[b].symbol_rate, self.rows@[b].variant@));
        }
        assert forall|k: int, j: int| 0 <= k < self.spec_len() implies #[trigger] self.count(
            self.row_rate(k),
            self.row_variant(k),
            j,
        ) == self.row_counts(k)[j] as int by {
            self.lemma_count_at(k, j);
        }
        assert forall|r: u32, v: Seq<char>, j: int|
            (forall|k: int| 0 <= k < self.spec_len() ==> !(self.row_rate(k) == r && self.row_variant(k) == v))
            implies #[trigger] self.count(r, v, j) == 0 by {
            assert forall|k: int| !(#[trigger] self.has_key(r, v, k)) by {
                if self.has_key(r, v, k) {
                    assert(self.row_rate(k) == r && self.row_variant(k) == v);
                }
            }
        }
    }

    /// Counts the eight cells of one capture at `symbol_rate`: the outcome
    /// of the variant combination at position `i` of the sweep is
    /// `outcomes[i]`. Each combination's tag gains one cell, of its outcome;
    /// nothing else changes.
    pub fn record_sweep(&mut self, symbol_rate: u32, outcomes: &[Outcome])
        requires
            old(self).wf(),
            outcomes@.len() == 8,
            forall|i: int| 0 <= i < 8 ==> #[trigger] old(self).total(symbol_rate, sweep_tag(i)) < usize::MAX,
        ensures
            final(self).wf(),
            forall|i: int, j: int|
                0 <= i < 8 && 0 <= j < 8 ==> #[trigger] final(self).count(symbol_rate, sweep_tag(i), j) == old(self).count(
                    symbol_rate,
                    sweep_tag(i),
                    j,
                ) + (if j == outcome_slot(outcomes@[i]) {
                    1int
                } else {
                    0int
                }),
            forall|i: int|
                0 <= i < 8 ==> #[trigger] final(self).total(symbol_rate, sweep_tag(i)) == old(self).total(
                    symbol_rate,
                    sweep_tag(i),
                ) + 1,
            forall|r: u32, v: Seq<char>, j: int|
                0 <= j < 8 && !(r == symbol_rate && is_sweep_tag(v)) ==> #[trigger] final(self).count(r, v, j) == old(
                    self,
                ).count(r, v, j),
    {
        let ghost old_t = *self;
        proof {
            lemma_sweep_tags_distinct();
        }
        let mut i: usize = 0;
        while i < 8
            invariant
                0 <= i <= 8,
                outcomes@.len() == 8,
                self.wf(),
                forall|k: int| 0 <= k < 8 ==> #[trigger] old_t.total(symbol_rate, sweep_tag(k)) < usize::MAX,
                forall|a: int, b: int| 0 <= a < b < 8 ==> sweep_tag(a) != sweep_tag(b),
                forall|k: int, j: int|
                    0 <= k < 8 && 0 <= j < 8 ==> #[trigger] self.count(symbol_rate, sweep_tag(k), j) == old_t.count(
                        symbol_rate,
                        sweep_tag(k),
                        j,
                    ) + (if k < i && j == outcome_slot(outcomes@[k]) {
                        1int
                    } else {
                        0int
                    }),
                forall|r: u32, v: Seq<char>, j: int|
                    0 <= j < 8 && !(r == symbol_rate && is_sweep_tag(v)) ==> #[trigger] self.count(r, v, j) == old_t.count(r, v, j),
            decreases 8 - i,
        {
            let v = DspVariants { pulse_shape: i / 4 == 1, matched_filter: (i / 2) % 2 == 1, timing_recovery: i % 2 == 1 };
            let tag = v.tag();
            assert(tag@ == sweep_tag(i as int));
            assert(self.total(symbol_rate, tag@) == old_t.total(symbol_rate, tag@)) by {
                assert(self.count(symbol_rate, sweep_tag(i as int), 0) == old_t.count(symbol_rate, sweep_tag(i as int), 0));
                assert(self.count(symbol_rate, sweep_tag(i as int), 1) == old_t.count(symbol_rate, sweep_tag(i as int), 1));
                assert(self.count(symbol_rate, sweep_tag(i as int), 2) == old_t.count(symbol_rate, sweep_tag(i as int), 2));
                assert(self.count(symbol_rate, sweep_tag(i as int), 3) == old_t.count(symbol_rate, sweep_tag(i as int), 3));
                assert(self.count(symbol_rate, sweep_tag(i as int), 4) == old_t.count(symbol_rate, sweep_tag(i as int), 4));
                assert(self.count(symbol_rate, sweep_tag(i as int), 5) == old_t.count(symbol_rate, sweep_tag(i as int), 5));
                assert(self.count(symbol_rate, sweep_tag(i as int), 6) == old_t.count(symbol_rate, sweep_tag(i as int), 6));
                assert(self.count(symbol_rate, sweep_tag(i as int), 7) == old_t.count(symbol_rate, sweep_tag(i as int), 7));
            }
            assert(old_t.total(symbol_rate, sweep_tag(i as int)) < usize::MAX);
            let ghost before = *self;
            self.record(symbol_rate, tag.as_str(), outcomes[i]);
            proof {
                assert forall|k: int, j: int| 0 <= k < 8 && 0 <= j < 8 implies #[trigger] self.count(
                    symbol_rate,
                    sweep_tag(k),
                    j,
                ) == old_t.count(symbol_rate, sweep_tag(k), j) + (if k < i + 1 && j == outcome_slot(outcomes@[k]) {
                    1int
                } else {
                    0int
                }) by {
                    assert(before.count(symbol_rate, sweep_tag(k), j) == old_t.count(symbol_rate, sweep_tag(k), j) + (
                    if k < i && j == outcome_slot(outcomes@[k]) {
                        1int
                    } else {
                        0int
                    }));
                    if k != i {
                        assert(sweep_tag(k) != sweep_tag(i as int));
                    }
                }
                assert forall|r: u32, v: Seq<char>, j: int| 0 <= j < 8 && !(r == symbol_rate && is_sweep_tag(v)) implies #[trigger] self.count(
                    r,
                    v,
                    j,
                ) == old_t.count(r, v, j) by {
                    assert(before.count(r, v, j) == old_t.count(r, v, j));
                    if r == symbol_rate && v == sweep_tag(i as int) {
                        assert(is_sweep_tag(v));
                    }
                }
            }
            i += 1;
        }
        assert forall|k: int| 0 <= k < 8 implies #[trigger] self.total(symbol_rate, sweep_tag(k)) == old_t.total(
            symbol_rate,
            sweep_tag(k),
        ) + 1 by {
            assert(self.count(symbol_rate, sweep_tag(k), 0) == old_t.count(symbol_rate, sweep_tag(k), 0) + (if 0 == outcome_slot(outcomes@[k]) { 1int } else { 0int }));
            assert(self.count(symbol_rate, sweep_tag(k), 1) == old_t.count(symbol_rate, sweep_tag(k), 1) + (if 1 == outcome_slot(outcomes@[k]) { 1int } else { 0int }));
            assert(self.count(symbol_rate, sweep_tag(k), 2) == old_t.count(symbol_rate, sweep_tag(k), 2) + (if 2 == outcome_slot(outcomes@[k]) { 1int } else { 0int }));
            assert(self.count(symbol_rate, sweep_tag(k), 3) == old_t.count(symbol_rate, sweep_tag(k), 3) + (if 3 == outcome_slot(outcomes@[k]) { 1int } else { 0int }));
            assert(self.count(symbol_rate, sweep_tag(k), 4) == old_t.count(symbol_rate, sweep_tag(k), 4) + (if 4 == outcome_slot(outcomes@[k]) { 1int } else { 0int }));
            assert(self.count(symbol_rate, sweep_tag(k), 5) == old_t.count(symbol_rate, sweep_tag(k), 5) + (if 5 == outcome_slot(outcomes@[k]) { 1int } else { 0int }));
            assert(self.count(symbol_rate, sweep_tag(k), 6) == old_t.count(symbol_rate, sweep_tag(k), 6) + (if 6 == outcome_slot(outcomes@[k]) { 1int } else { 0int }));
            assert(self.count(symbol_rate, sweep_tag(k), 7) == old_t.count(symbol_rate, sweep_tag(k), 7) + (if 7 == outcome_slot(outcomes@[k]) { 1int } else { 0int }));
        }
    }

    /// One `SUMMARY` line per row, in key order.
    pub fn summary_lines(&self) -> (lines: Vec<String>)
        requires
            self.wf(),
        ensures
            lines@.len() == self.spec_len(),
            forall|k: int|
                0 <= k < lines@.len() ==> #[trigger] lines@[k]@ == summary_text(
                    self.row_rate(k),
                    self.row_variant(k),
                    self.row_counts(k),
                ),
    {
        let mut lines: Vec<String> = Vec::new();
        let n = self.rows.len();
        let mut k: usize = 0;
        while k < n
            invariant
                n == self.rows@.len(),
                k <= n,
                self.wf(),
                lines@.len() == k,
                forall|m: int|
                    0 <= m < k ==> #[trigger] lines@[m]@ == summary_text(
                        self.row_rate(m),
                        self.row_variant(m),
                        self.row_counts(m),
                    ),
            decreases n - k,
        {
            let line = summary_line(&self.rows[k]);
            lines.push(line);
            k += 1;
        }
        lines
    }
}

fn summary_line(row: &TallyRow) -> (s: String)
    requires
        row_total(row.counts@) <= usize::MAX,
    ensures
        s@ == summary_text(row.symbol_rate, row.variant@, row.counts@),
{
    let c = &row.counts;
    let total: usize = c[0] + c[1] + c[2] + c[3] + c[4] + c[5] + c[6] + c[7];
    let mut s = String::from_str("SUMMARY rate=");
    push_decimal(&mut s, row.symbol_rate as u64);
    s.append(" variant=");
    s.append(row.variant.as_str());
    s.append(" ok=");
    push_decimal(&mut s, c[0] as u64);
    s.append("/");
    push_decimal(&mut s, total as u64);
    let ghost head = s@;
    let mut j: usize = 1;
    while j < 8
        invariant
            1 <= j <= 8,
            c@ == row.counts@,
            c@.len() == 8,
            s@ + details_from(c@, j as int) == head + details_from(c@, 1),
        decreases 8 - j,
    {
        let ghost before = s@;
        if c[j] > 0 {
            s.append(" ");
            s.append(outcome_in_slot(j).tag());
            s.append("=");
            push_decimal(&mut s, c[j] as u64);
        }
        proof {
            assert(s@ =~= before + detail_text(c@, j as int));
            assert(details_from(c@, j as int) == detail_text(c@, j as int) + details_from(c@, j + 1));
            assert(before + details_from(c@, j as int) =~= s@ + details_from(c@, j + 1));
        }
        j += 1;
    }
    proof {
        assert(details_from(c@, 8) =~= Seq::<char>::empty());
        assert(s@ =~= head + details_from(c@, 1));
    }
    s
}

/// The line of one cell:
/// `capture=F direction=D rate=R variant=V outcome=O`, with `?` for an
/// empty direction.
pub open spec fn cell_text(file: Seq<char>, direction: Seq<char>, rate: u32, variant: Seq<char>, o: Outcome) -> Seq<char> {
    "capture="@ + file + " direction="@ + (if direction.len() == 0 {
        "?"@
    } else {
        direction
    }) + " rate="@ + decimal(rate as nat) + " variant="@ + variant + " outcome="@ + outcome_tag(o)
}

/// The output line of one capture under one variant combination.
pub fn cell_line(entry: &CaptureEntry, symbol_rate: u32, variants: DspVariants, outcome: Outcome) -> (s: String)
    ensures
        s@ == cell_text(entry.file@, entry.direction@, symbol_rate, crate::fsk::spec_variant_tag(variants), outcome),
{
    let mut s = String::from_str("capture=");
    s.append(entry.file.as_str());
    s.append(" direction=");
    if entry.direction.as_str().is_empty() {
        s.append("?");
    } else {
        s.append(entry.direction.as_str());
    }
    s.append(" rate=");
    push_decimal(&mut s, symbol_rate as u64);
    s.append(" variant=");
    let tag = variants.tag();
    s.append(tag.as_str());
    s.append(" outcome=");
    s.append(outcome.tag());
    s
}

// ---------------------------------------------------------------------------
// Laws
// ---------------------------------------------------------------------------

/// The first `StreamComplete` event names the outcome: with a bad SHA-256 it
/// is `ShaMismatch` whatever its bytes; with a good one it is `Delivered`
/// for the expected bytes and `WrongBytes` for any others.
pub proof fn lemma_classify_first_stream(events: Seq<EventView>, expected: Seq<u8>, i: int)
    requires
        0 <= i < events.len(),
        events[i] is StreamComplete,
        forall|j: int| 0 <= j < i ==> !(events[j] is StreamComplete),
    ensures
        events[i] matches EventView::StreamComplete { bytes, sha256_ok } && (if !sha256_ok {
            spec_classify(events, expected) == Outcome::ShaMismatch
        } else if bytes == expected {
            spec_classify(events, expected) == Outcome::Delivered
        } else {
            spec_classify(events, expected) == Outcome::WrongBytes
        }),
{
    assert(is_complete(events[i]));
    let k = choose|k: int|
        0 <= k < events.len() && is_complete(#[trigger] events[k]) && forall|j: int|
            0 <= j < k ==> !is_complete(#[trigger] events[j]);
    assert(k == i) by {
        if k < i {
            assert(!(events[k] is StreamComplete));
        } else if k > i {
            assert(!is_complete(events[i]));
        }
    }
}

/// Without any event the preamble was never found; events that never
/// complete a stream are never a delivery, a checksum mismatch or wrong bytes.
pub proof fn lemma_classify_without_stream(events: Seq<EventView>, expected: Seq<u8>)
    requires
        forall|j: int| 0 <= j < events.len() ==> !(#[trigger] events[j] is StreamComplete),
    ensures
        events.len() == 0 ==> spec_classify(events, expected) == Outcome::NoPreamble,
        spec_classify(events, expected) != Outcome::Delivered,
        spec_classify(events, expected) != Outcome::ShaMismatch,
        spec_classify(events, expected) != Outcome::WrongBytes,
{
    assert(!exists|i: int| 0 <= i < events.len() && is_complete(#[trigger] events[i])) by {
        if exists|i: int| 0 <= i < events.len() && is_complete(#[trigger] events[i]) {
            let i = choose|i: int| 0 <= i < events.len() && is_complete(#[trigger] events[i]);
            assert(!(events[i] is StreamComplete));
        }
    }
}

/// Hex digits have their standard values: '0'–'9' are 0–9, 'a'–'f' and
/// 'A'–'F' are 10–15, and no other character is a digit.
pub proof fn lemma_hex_digit_values(c: char)
    ensures
        0x30 <= (c as u32) <= 0x39 ==> hex_value(c) == Some(((c as u32) - 0x30) as u8),
        0x61 <= (c as u32) <= 0x66 ==> hex_value(c) == Some(((c as u32) - 0x61 + 10) as u8),
        0x41 <= (c as u32) <= 0x46 ==> hex_value(c) == Some(((c as u32) - 0x41 + 10) as u8),
        !(0x30 <= (c as u32) <= 0x39 || 0x61 <= (c as u32) <= 0x66 || 0x41 <= (c as u32) <= 0x46) ==> hex_value(c)
            is None,
        hex_value(c) matches Some(v) ==> v < 16,
{
}

/// A text of two hex digits decodes to the one byte they spell, the first
/// digit the high nibble.
pub proof fn lemma_hex_pair_decodes(c0: char, c1: char, hi: u8, lo: u8)
    requires
        hex_value(c0) == Some(hi),
        hex_value(c1) == Some(lo),
    ensures
        spec_hex_decode(seq![c0, c1]) == Ok::<Seq<u8>, RankError>(seq![(16 * hi + lo) as u8]),
        16 * hi + lo < 256,
{
    lemma_hex_digit_values(c0);
    lemma_hex_digit_values(c1);
    let s = seq![c0, c1];
    assert(!is_whitespace(c0) && !is_whitespace(c1));
    assert(s.drop_last() =~= seq![c0]);
    assert(seq![c0].drop_last() =~= Seq::<char>::empty());
    let e = Seq::<char>::empty();
    assert(strip_whitespace(e) == e);
    assert(utf8_len(e) == 0);
    assert(seq![c0].last() == c0 && s.last() == c1);
    assert(strip_whitespace(seq![c0]) == strip_whitespace(e).push(c0));
    assert(e.push(c0) =~= seq![c0]);
    assert(strip_whitespace(seq![c0]) =~= seq![c0]);
    assert(strip_whitespace(s) == strip_whitespace(seq![c0]).push(c1));
    assert(seq![c0].push(c1) =~= s);
    assert(strip_whitespace(s) =~= s);
    assert(utf8_width(c0) == 1 && utf8_width(c1) == 1);
    assert(utf8_len(seq![c0]) == utf8_len(e) + utf8_width(c0));
    assert(utf8_len(seq![c0]) == 1);
    assert(utf8_len(s) == 2);
    assert(c0 != '+');
    assert(s.subrange(2, 2) =~= Seq::<char>::empty());
    assert(s[0] == c0 && s[1] == c1);
    assert(pair_value(c0, c1) == Some((16 * hi + lo) as u8));
    assert(read_hex_pairs(s.subrange(2, s.len() as int)) == HexRead::Bytes(Seq::<u8>::empty()));
    assert(read_hex_pairs(s) == HexRead::Bytes(seq![(16 * hi + lo) as u8] + Seq::<u8>::empty()));
    assert(seq![(16 * hi + lo) as u8] + Seq::<u8>::empty() =~= seq![(16 * hi + lo) as u8]);
}

/// The text of a row's failure details from slot `j0` on contains the
/// detail of every later slot that counted a cell.
proof fn lemma_details_contain(c: Seq<usize>, j0: int, j: int) -> (k: int)
    requires
        1 <= j0 <= j < 8,
        c.len() == 8,
    ensures
        0 <= k,
        k + detail_text(c, j).len() <= details_from(c, j0).len(),
        details_from(c, j0).subrange(k, k + detail_text(c, j).len()) == detail_text(c, j),
    decreases j - j0,
{
    let d = details_from(c, j0);
    assert(d == detail_text(c, j0) + details_from(c, j0 + 1));
    if j0 == j {
        assert(d.subrange(0, detail_text(c, j).len() as int) =~= detail_text(c, j));
        0
    } else {
        let k1 = lemma_details_contain(c, j0 + 1, j);
        let head = detail_text(c, j0);
        let k = head.len() + k1;
        assert(d.subrange(k, k + detail_text(c, j).len()) =~= details_from(c, j0 + 1).subrange(
            k1,
            k1 + detail_text(c, j).len(),
        ));
        k
    }
}

/// A summary line shows every failure its row counted, as ` label=count`,
/// and the delivered count over the total as `ok=k/n`.
pub proof fn lemma_summary_shows_every_failure(rate: u32, variant: Seq<char>, c: Seq<usize>, o: Outcome)
    requires
        c.len() == 8,
        o != Outcome::Delivered,
        c[outcome_slot(o)] > 0,
    ensures
        contains_sub(
            summary_text(rate, variant, c),
            " "@ + outcome_tag(o) + "="@ + decimal(c[outcome_slot(o)] as nat),
        ),
        contains_sub(summary_text(rate, variant, c), "ok="@ + decimal(c[0] as nat) + "/"@ + decimal(row_total(c) as nat)),
{
    let j = outcome_slot(o);
    assert(slot_outcome(j) == o);
    let needle = " "@ + outcome_tag(o) + "="@ + decimal(c[j] as nat);
    assert(detail_text(c, j) == needle);
    let head = "SUMMARY rate="@ + decimal(rate as nat) + " variant="@ + variant + " ok="@ + decimal(c[0] as nat) + "/"@
        + decimal(row_total(c) as nat);
    let line = summary_text(rate, variant, c);
    assert(line == head + details_from(c, 1));
    let k = lemma_details_contain(c, 1, j);
    let at = head.len() + k;
    assert(line.subrange(at, at + needle.len()) =~= details_from(c, 1).subrange(k, k + needle.len()));
    assert(0 <= at <= line.len() - needle.len() && line.subrange(at, at + needle.len()) == needle);
    let okn = "ok="@ + decimal(c[0] as nat) + "/"@ + decimal(row_total(c) as nat);
    let pre = "SUMMARY rate="@ + decimal(rate as nat) + " variant="@ + variant + " "@;
    reveal_strlit(" ok=");
    reveal_strlit(" ");
    reveal_strlit("ok=");
    assert(" ok="@ =~= " "@ + "ok="@);
    assert(head =~= pre + okn);
    assert(line.subrange(pre.len() as int, (pre.len() + okn.len()) as int) =~= okn);
    assert(0 <= pre.len() <= line.len() - okn.len() && line.subrange(
        pre.len() as int,
        (pre.len() + okn.len()) as int,
    ) == okn);
}

proof fn lemma_text_lt_irreflexive(a: Seq<char>)
    ensures
        !text_lt(a, a),
    decreases a.len(),
{
    if a.len() > 0 {
        lemma_text_lt_irreflexive(a.drop_first());
    }
}

proof fn lemma_text_lt_trans(a: Seq<char>, b: Seq<char>, c: Seq<char>)
    requires
        text_lt(a, b),
        text_lt(b, c),
    ensures
        text_lt(a, c),
    decreases a.len(),
{
    if a.len() > 0 && b.len() > 0 && c.len() > 0 {
        if a[0] == b[0] && b[0] == c[0] {
            lemma_text_lt_trans(a.drop_first(), b.drop_first(), c.drop_first());
        }
    }
}

proof fn lemma_text_lt_total(a: Seq<char>, b: Seq<char>)
    requires
        !text_lt(b, a),
        a != b,
    ensures
        text_lt(a, b),
    decreases a.len(),
{
    if a.len() > 0 && b.len() > 0 {
        if a[0] == b[0] {
            if a.drop_first() == b.drop_first() {
                assert(a =~= seq![a[0]] + a.drop_first());
                assert(b =~= seq![b[0]] + b.drop_first());
            }
            lemma_text_lt_total(a.drop_first(), b.drop_first());
        } else {
            vstd::utf8::char_u32_cast(a[0], a[0] as u32);
            vstd::utf8::char_u32_cast(b[0], b[0] as u32);
        }
    } else if a.len() == 0 && b.len() == 0 {
        assert(a =~= b);
    }
}

} // verus!
