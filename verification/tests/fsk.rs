use modem::cli::{chat_step, gives_up, ChatStep, PhyArgs, PhySpec, VariantArgs};
use modem::ffi::{convert, default_symbol_rate, phy_for, FfiFrameEvent};
use modem::fsk::{
    bytes_to_symbols, symbol_samples_for, symbols_to_bytes, DspVariants, FskConfig, DEFAULT_SYMBOL_RATE,
    SAMPLE_RATE,
};
use modem::phy::{FskPhy, Profile};
use modem::rx::FrameEvent;

#[test]
fn audible_geometry() {
    let c = FskConfig::audible();
    assert_eq!(c.symbol_samples, 960);
    assert_eq!(c.tone_freqs[0], 2000);
    assert_eq!(c.tone_freqs[7], 3400);
}

#[test]
fn ultrasonic_geometry() {
    let c = FskConfig::ultrasonic();
    assert_eq!(c.symbol_samples, 960);
    assert_eq!(c.tone_freqs[0], 17_500);
    assert_eq!(c.tone_freqs[7], 19_250);
}

#[test]
fn nyquist_safe() {
    let nyq = SAMPLE_RATE / 2;
    for c in [FskConfig::audible(), FskConfig::ultrasonic()] {
        for &f in &c.tone_freqs {
            assert!(f < nyq, "tone {f} exceeds Nyquist {nyq}");
        }
    }
}

#[test]
fn tone_plans_are_evenly_spaced() {
    let a = FskConfig::audible();
    let u = FskConfig::ultrasonic();
    for i in 0..8u32 {
        assert_eq!(a.tone_freqs[i as usize], 2000 + 200 * i);
        assert_eq!(u.tone_freqs[i as usize], 17_500 + 250 * i);
    }
}

#[test]
fn symbol_roundtrip_byte_aligned() {
    let bytes = vec![0xDE, 0xAD, 0xBE];
    let syms = bytes_to_symbols(&bytes);
    assert_eq!(syms.len(), 8);
    let back = symbols_to_bytes(&syms, bytes.len());
    assert_eq!(back, bytes);
}

#[test]
fn symbol_roundtrip_unaligned() {
    let bytes = vec![0x01, 0x02];
    let syms = bytes_to_symbols(&bytes);
    assert_eq!(syms.len(), 6);
    let back = symbols_to_bytes(&syms, bytes.len());
    assert_eq!(back, bytes);
}

#[test]
fn symbols_are_three_bit_groups_most_significant_first() {
    // 0xDE 0xAD 0xBE = 110 111 101 010 110 110 111 110
    assert_eq!(bytes_to_symbols(&[0xDE, 0xAD, 0xBE]), vec![6, 7, 5, 2, 6, 6, 7, 6]);
    // 0x80: 100 000 00(0 padding)
    assert_eq!(bytes_to_symbols(&[0x80]), vec![4, 0, 0]);
    assert_eq!(bytes_to_symbols(&[]), Vec::<u8>::new());
}

#[test]
fn symbols_to_bytes_reads_only_the_low_three_bits() {
    assert_eq!(symbols_to_bytes(&[6 | 8, 7, 5], 1), vec![0xDE]);
    // Missing symbols read as zero bits.
    assert_eq!(symbols_to_bytes(&[7], 2), vec![0xE0, 0x00]);
}

#[test]
fn symbol_length_follows_the_rate() {
    assert_eq!(symbol_samples_for(50), 960);
    assert_eq!(symbol_samples_for(25), 1920);
    assert_eq!(symbol_samples_for(48_000), 1);
    let c = FskConfig::audible_at(25, DspVariants::baseline());
    assert_eq!(c.symbol_samples, 1920);
    assert_eq!(c.symbol_rate(), 25);
    assert_eq!(FskConfig::audible().symbol_rate(), DEFAULT_SYMBOL_RATE);
}

#[test]
fn variant_tags() {
    let tags: Vec<String> = [
        (false, false, false),
        (false, false, true),
        (false, true, false),
        (false, true, true),
        (true, false, false),
        (true, false, true),
        (true, true, false),
        (true, true, true),
    ]
    .iter()
    .map(|&(p, m, t)| DspVariants { pulse_shape: p, matched_filter: m, timing_recovery: t }.tag())
    .collect();
    assert_eq!(tags, ["baseline", "t", "m", "m+t", "p", "p+t", "p+m", "p+m+t"]);
    assert_eq!(DspVariants::all().tag(), "p+m+t");
    assert_eq!(DspVariants::default(), DspVariants::baseline());
}

#[test]
fn phy_reports_its_geometry() {
    let p = FskPhy::ultrasonic_at(25, DspVariants::all());
    assert_eq!(p.sample_rate(), 48_000);
    assert_eq!(p.symbol_rate(), 25);
    assert_eq!(p.config().tone_freqs[0], 17_500);
    assert_eq!(p.config().variants, DspVariants::all());
    // 261 bytes = 696 symbols.
    assert_eq!(p.frame_data_samples(261), 696 * 1920);
    assert_eq!(FskPhy::audible().frame_data_samples(1), 3 * 960);
}

fn spec_for(profile: Profile, symbol_rate: u32) -> PhySpec {
    PhySpec::from(PhyArgs { profile, symbol_rate, variants: VariantArgs::default() })
}

#[test]
fn every_command_passes_the_symbol_rate_to_the_phy() {
    for profile in [Profile::Audible, Profile::Ultrasonic] {
        let spec = spec_for(profile, 25);
        assert_eq!(spec.symbol_rate, 25);
        assert_eq!(spec.config().symbol_rate(), 25);
        assert_eq!(spec.config().symbol_samples, 1920);
    }
}

#[test]
fn every_command_defaults_to_the_default_symbol_rate() {
    for profile in [Profile::Audible, Profile::Ultrasonic] {
        let spec = spec_for(profile, DEFAULT_SYMBOL_RATE);
        assert_eq!(spec.symbol_rate, DEFAULT_SYMBOL_RATE);
        assert_eq!(spec.config().symbol_rate(), DEFAULT_SYMBOL_RATE);
        assert_eq!(spec.config().symbol_samples, 960);
    }
}

#[test]
fn the_rate_is_orthogonal_to_profile_and_variants() {
    let slow = PhySpec::from(PhyArgs {
        profile: Profile::Ultrasonic,
        symbol_rate: 25,
        variants: VariantArgs { pulse_shape: true, matched_filter: true, timing_recovery: false },
    });
    assert!(slow.ultrasonic());
    assert_eq!(slow.config().symbol_rate(), 25);
    assert_eq!(slow.config().tone_freqs[0], 17_500);
    assert!(slow.variants.pulse_shape && slow.variants.matched_filter);
    assert!(!slow.variants.timing_recovery);
    assert_eq!(slow.phy().symbol_rate(), 25);
}

#[test]
fn the_rate_less_constructors_still_mean_the_default_rate() {
    assert_eq!(default_symbol_rate(), DEFAULT_SYMBOL_RATE);
    for profile in [Profile::Audible, Profile::Ultrasonic] {
        assert_eq!(phy_for(&profile, default_symbol_rate(), DspVariants::baseline()).symbol_rate(), DEFAULT_SYMBOL_RATE);
    }
    assert_eq!(FskPhy::audible().config().symbol_samples, phy_for(&Profile::Audible, 50, DspVariants::baseline()).config().symbol_samples);
    assert_eq!(FskPhy::ultrasonic_with(DspVariants::baseline()).symbol_rate(), DEFAULT_SYMBOL_RATE);
}

#[test]
fn the_ultrasonic_profile_takes_the_rate_too() {
    let slow = phy_for(&Profile::Ultrasonic, 25, DspVariants::baseline());
    assert_eq!(slow.symbol_rate(), 25);
    assert_eq!(slow.config().tone_freqs[7], 19_250);
}

#[test]
fn events_cross_the_binding_unchanged() {
    assert_eq!(
        convert(FrameEvent::FrameOk { seq: 3, bytes: vec![1, 2] }),
        FfiFrameEvent::FrameOk { seq: 3, bytes: vec![1, 2] }
    );
    assert_eq!(
        convert(FrameEvent::FrameDropped { seq: 4, reason: "CRC mismatch".to_string() }),
        FfiFrameEvent::FrameDropped { seq: 4, reason: "CRC mismatch".to_string() }
    );
    assert_eq!(
        convert(FrameEvent::StreamComplete { bytes: vec![9], sha256_ok: false }),
        FfiFrameEvent::StreamComplete { bytes: vec![9], sha256_ok: false }
    );
}

#[test]
fn web_profiles_by_name() {
    let a = modem::web::make_phy("audible").unwrap();
    assert_eq!(a.config().tone_freqs[0], 2000);
    assert_eq!(a.symbol_rate(), DEFAULT_SYMBOL_RATE);
    let u = modem::web::make_phy("ultrasonic").unwrap();
    assert_eq!(u.config().tone_freqs[0], 17_500);
    assert_eq!(modem::web::make_phy("loud").err(), Some("unknown profile: loud".to_string()));
}

#[test]
fn chat_stops_at_end_of_input_or_an_empty_line() {
    assert!(matches!(chat_step(None), ChatStep::Quit));
    assert!(matches!(chat_step(Some("\n")), ChatStep::Quit));
    assert!(matches!(chat_step(Some("\r\n")), ChatStep::Quit));
    assert!(matches!(chat_step(Some("")), ChatStep::Quit));
    match chat_step(Some("hello there\r\n")) {
        ChatStep::Send(s) => assert_eq!(s, "hello there"),
        ChatStep::Quit => panic!("a line with text must be sent"),
    }
    match chat_step(Some("  x\n\n")) {
        ChatStep::Send(s) => assert_eq!(s, "  x"),
        ChatStep::Quit => panic!("a line with text must be sent"),
    }
}

#[test]
fn symbol_rates_must_divide_the_sample_rate() {
    assert!(modem::fsk::is_valid_symbol_rate(50));
    assert!(modem::fsk::is_valid_symbol_rate(25));
    assert!(modem::fsk::is_valid_symbol_rate(48_000));
    assert!(!modem::fsk::is_valid_symbol_rate(7));
    assert!(!modem::fsk::is_valid_symbol_rate(0));
    assert!(!modem::fsk::is_valid_symbol_rate(96_000));
}

#[test]
fn recv_gives_up_after_ten_idle_seconds_once_started() {
    assert!(!gives_up(false, u64::MAX));
    assert!(!gives_up(true, 10_000_000_000));
    assert!(gives_up(true, 10_000_000_001));
}

#[test]
fn symbol_roundtrip_every_length_up_to_a_few_frames() {
    for n in 0..600usize {
        let bytes: Vec<u8> = (0..n).map(|i| (i * 37 + 11) as u8).collect();
        let syms = bytes_to_symbols(&bytes);
        assert_eq!(syms.len(), (8 * n + 2) / 3);
        assert!(syms.iter().all(|&s| s < 8));
        assert_eq!(symbols_to_bytes(&syms, n), bytes);
    }
}
