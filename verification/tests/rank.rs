use modem::fsk::DspVariants;
use modem::phy::Profile;
use modem::rank::{
    all_variants, cell_line, classify, hex_decode, hex_decode_would_split_char, make_phy, CaptureEntry, Outcome,
    RankError, RankTally,
};
use modem::rx::FrameEvent;

fn ok(seq: u32) -> FrameEvent {
    FrameEvent::FrameOk { seq, bytes: vec![] }
}

fn dropped(reason: &str) -> FrameEvent {
    FrameEvent::FrameDropped { seq: 0, reason: reason.to_string() }
}

fn done(bytes: &[u8], sha256_ok: bool) -> FrameEvent {
    FrameEvent::StreamComplete { bytes: bytes.to_vec(), sha256_ok }
}

#[test]
fn outcome_tags() {
    let all = [
        (Outcome::Delivered, "ok"),
        (Outcome::NoPreamble, "no_preamble"),
        (Outcome::SyncFail, "sync_fail"),
        (Outcome::RsFail, "rs_fail"),
        (Outcome::CrcFail, "crc_fail"),
        (Outcome::FrameFail, "frame_fail"),
        (Outcome::ShaMismatch, "sha_mismatch"),
        (Outcome::WrongBytes, "wrong_bytes"),
    ];
    for (o, t) in all {
        assert_eq!(o.tag(), t);
    }
}

#[test]
fn the_first_completed_stream_decides() {
    assert_eq!(classify(&[ok(0), done(b"hi", true)], b"hi"), Outcome::Delivered);
    assert_eq!(classify(&[done(b"hi", false)], b"hi"), Outcome::ShaMismatch);
    assert_eq!(classify(&[done(b"ho", true)], b"hi"), Outcome::WrongBytes);
    assert_eq!(classify(&[dropped("RS uncorrectable"), done(b"hi", true), done(b"x", false)], b"hi"), Outcome::Delivered);
}

#[test]
fn without_a_completed_stream_the_worst_drop_names_the_failure() {
    assert_eq!(classify(&[], b"hi"), Outcome::NoPreamble);
    assert_eq!(classify(&[dropped("bad sync word (6 bit diffs)"), dropped("RS uncorrectable")], b"hi"), Outcome::RsFail);
    assert_eq!(classify(&[dropped("bad sync word (6 bit diffs)"), dropped("CRC mismatch")], b"hi"), Outcome::CrcFail);
    assert_eq!(classify(&[dropped("bad sync word (6 bit diffs)")], b"hi"), Outcome::SyncFail);
    assert_eq!(classify(&[ok(0), ok(1)], b"hi"), Outcome::FrameFail);
    assert_eq!(classify(&[dropped("short demod")], b"hi"), Outcome::FrameFail);
}

#[test]
fn the_sweep_covers_every_combination_in_order() {
    let tags: Vec<String> = all_variants().iter().map(|v| v.tag()).collect();
    assert_eq!(tags, ["baseline", "t", "m", "m+t", "p", "p+t", "p+m", "p+m+t"]);
}

#[test]
fn captures_decode_at_their_own_rate_and_profile() {
    let p = make_phy(Profile::Ultrasonic, 25, DspVariants::all());
    assert_eq!(p.symbol_rate(), 25);
    assert_eq!(p.config().tone_freqs[0], 17_500);
    assert_eq!(p.config().variants, DspVariants::all());
}

#[test]
fn hex_text_decodes_ignoring_whitespace() {
    assert_eq!(hex_decode("deadBEEF"), Ok(vec![0xde, 0xad, 0xbe, 0xef]));
    assert_eq!(hex_decode(" de ad\n be\tef "), Ok(vec![0xde, 0xad, 0xbe, 0xef]));
    assert_eq!(hex_decode(""), Ok(vec![]));
    assert_eq!(hex_decode("abc"), Err(RankError::OddLengthHex));
    assert_eq!(hex_decode("zz"), Err(RankError::InvalidHexDigit));
    // A pair is read as a base-16 number, which may carry a sign.
    assert_eq!(hex_decode("+f"), Ok(vec![0x0f]));
    assert!(!hex_decode_would_split_char("00"));
    assert!(hex_decode_would_split_char("aéb"));
    assert_eq!(hex_decode("aé"), Err(RankError::OddLengthHex));
    assert_eq!(hex_decode("éaa"), Err(RankError::InvalidHexDigit));
}

fn entry(expected: Option<&str>, expected_hex: Option<&str>, profile: &str, rate: Option<u32>) -> CaptureEntry {
    CaptureEntry {
        file: "synth-001.wav".to_string(),
        expected: expected.map(|s| s.to_string()),
        expected_hex: expected_hex.map(|s| s.to_string()),
        direction: String::new(),
        profile: profile.to_string(),
        symbol_rate: rate,
    }
}

#[test]
fn capture_entries_say_what_they_should_decode_to() {
    assert_eq!(entry(Some("héllo"), None, "audible", None).expected_bytes(), Ok("héllo".as_bytes().to_vec()));
    assert_eq!(entry(None, Some("0102"), "audible", None).expected_bytes(), Ok(vec![1, 2]));
    assert_eq!(entry(Some("a"), Some("0102"), "audible", None).expected_bytes(), Ok(vec![b'a']));
    assert_eq!(
        entry(None, None, "audible", None).expected_bytes(),
        Err(RankError::NoExpectedPayload { file: "synth-001.wav".to_string() })
    );
    assert_eq!(entry(None, None, "audible", None).profile(), Ok(Profile::Audible));
    assert_eq!(entry(None, None, "ultrasonic", None).profile(), Ok(Profile::Ultrasonic));
    assert_eq!(
        entry(None, None, "loud", None).profile(),
        Err(RankError::UnknownProfile { name: "loud".to_string() })
    );
    assert_eq!(entry(None, None, "audible", None).symbol_rate(), 50);
    assert_eq!(entry(None, None, "audible", Some(25)).symbol_rate(), 25);
}

#[test]
fn rank_errors_read_as_the_program_prints_them() {
    assert_eq!(
        RankError::NoExpectedPayload { file: "a.wav".to_string() }.message(),
        "capture a.wav has neither expected nor expected_hex"
    );
    assert_eq!(RankError::OddLengthHex.message(), "odd-length hex string");
    assert_eq!(RankError::InvalidHexDigit.message(), "invalid digit found in string");
    assert_eq!(RankError::UnknownProfile { name: "x".to_string() }.message(), "unknown profile x");
}

#[test]
fn cell_lines_name_capture_direction_rate_variant_and_outcome() {
    let mut e = entry(Some("x"), None, "audible", None);
    assert_eq!(
        cell_line(&e, 50, DspVariants::baseline(), Outcome::Delivered),
        "capture=synth-001.wav direction=? rate=50 variant=baseline outcome=ok"
    );
    e.direction = "synthetic".to_string();
    assert_eq!(
        cell_line(&e, 25, DspVariants::all(), Outcome::RsFail),
        "capture=synth-001.wav direction=synthetic rate=25 variant=p+m+t outcome=rs_fail"
    );
}

#[test]
fn rank_reports_ok_for_clean_synthetic_capture() {
    let mut tally = RankTally::new();
    for v in all_variants() {
        tally.record(50, &v.tag(), Outcome::Delivered);
    }
    let lines = tally.summary_lines();
    assert_eq!(lines.len(), 8);
    for v in ["baseline", "t", "m", "m+t", "p", "p+t", "p+m", "p+m+t"] {
        let needle = format!("SUMMARY rate=50 variant={v} ok=1/1");
        assert!(lines.contains(&needle), "expected `{needle}` in {lines:?}");
    }
}

#[test]
fn summaries_are_keyed_by_rate_and_variant_in_order() {
    let mut tally = RankTally::new();
    tally.record(50, "p", Outcome::RsFail);
    tally.record(25, "baseline", Outcome::Delivered);
    tally.record(50, "baseline", Outcome::NoPreamble);
    tally.record(50, "baseline", Outcome::Delivered);
    tally.record(50, "baseline", Outcome::SyncFail);
    tally.record(50, "baseline", Outcome::NoPreamble);
    tally.record(50, "baseline", Outcome::CrcFail);
    assert_eq!(
        tally.summary_lines(),
        vec![
            "SUMMARY rate=25 variant=baseline ok=1/1".to_string(),
            "SUMMARY rate=50 variant=baseline ok=1/5 crc_fail=1 no_preamble=2 sync_fail=1".to_string(),
            "SUMMARY rate=50 variant=p ok=0/1 rs_fail=1".to_string(),
        ]
    );
}

#[test]
fn rank_at_the_wrong_symbol_rate_decodes_nothing() {
    let mut tally = RankTally::new();
    for v in all_variants() {
        tally.record(50, &v.tag(), classify(&[], b"hello rank harness"));
    }
    for line in tally.summary_lines() {
        assert!(line.starts_with("SUMMARY rate=50 variant="), "{line}");
        assert!(line.ends_with(" ok=0/1 no_preamble=1"), "{line}");
    }
}

#[test]
fn a_sweep_counts_one_cell_per_variant_and_nothing_else() {
    let mut tally = RankTally::new();
    let outcomes = [
        Outcome::NoPreamble,
        Outcome::Delivered,
        Outcome::SyncFail,
        Outcome::Delivered,
        Outcome::RsFail,
        Outcome::Delivered,
        Outcome::CrcFail,
        Outcome::Delivered,
    ];
    tally.record_sweep(50, &outcomes);
    tally.record_sweep(50, &[Outcome::Delivered; 8]);
    assert_eq!(
        tally.summary_lines(),
        vec![
            "SUMMARY rate=50 variant=baseline ok=1/2 no_preamble=1".to_string(),
            "SUMMARY rate=50 variant=m ok=1/2 sync_fail=1".to_string(),
            "SUMMARY rate=50 variant=m+t ok=2/2".to_string(),
            "SUMMARY rate=50 variant=p ok=1/2 rs_fail=1".to_string(),
            "SUMMARY rate=50 variant=p+m ok=1/2 crc_fail=1".to_string(),
            "SUMMARY rate=50 variant=p+m+t ok=2/2".to_string(),
            "SUMMARY rate=50 variant=p+t ok=2/2".to_string(),
            "SUMMARY rate=50 variant=t ok=2/2".to_string(),
        ]
    );
}

#[test]
fn every_variant_combination_has_its_own_tag() {
    let tags: Vec<String> = all_variants().iter().map(|v| v.tag()).collect();
    for i in 0..8 {
        for j in 0..8 {
            assert_eq!(tags[i] == tags[j], i == j);
        }
    }
}
