use synth::units::SCALE;
use synth::waveform::Waveform;

const QUARTER: u64 = 250_000_000;
const HALF: u64 = 500_000_000;
const THREE_QUARTERS: u64 = 750_000_000;

#[test]
fn sine_hits_its_zeroes_and_peaks() {
    let w = Waveform::Sine;
    assert_eq!(w.generate_sample(0, 440_000), 0);
    assert_eq!(w.generate_sample(QUARTER, 440_000), SCALE);
    assert_eq!(w.generate_sample(HALF, 440_000), 0);
    assert_eq!(w.generate_sample(THREE_QUARTERS, 440_000), -SCALE);
}

#[test]
fn sine_stays_in_range() {
    let w = Waveform::Sine;
    let mut phase: u64 = 0;
    while phase < 1_000_000_000 {
        let s = w.generate_sample(phase, 440_000);
        assert!(-SCALE <= s && s <= SCALE);
        phase += 9_999_991;
    }
}

#[test]
fn square_has_unit_magnitude_and_half_duty() {
    let w = Waveform::Square;
    assert_eq!(w.generate_sample(0, 440_000), SCALE);
    assert_eq!(w.generate_sample(HALF - 1, 440_000), SCALE);
    assert_eq!(w.generate_sample(HALF, 440_000), -SCALE);
    assert_eq!(w.generate_sample(999_999_999, 440_000), -SCALE);
}

#[test]
fn sawtooth_ramps_linearly() {
    let w = Waveform::Sawtooth;
    assert_eq!(w.generate_sample(0, 440_000), -SCALE);
    assert_eq!(w.generate_sample(HALF, 440_000), 0);
    assert_eq!(w.generate_sample(THREE_QUARTERS, 440_000), SCALE / 2);
}

#[test]
fn blended_voice_is_pure_sine_at_the_low_reference() {
    // At and below 20 Hz the organ voice is the sine alone.
    let organ = Waveform::Triangle;
    let sine = Waveform::Sine;
    for &phase in &[0u64, 123_456_789, QUARTER, 600_000_000, THREE_QUARTERS] {
        assert_eq!(
            organ.generate_sample(phase, 20_000),
            sine.generate_sample(phase, 20_000)
        );
        assert_eq!(
            organ.generate_sample(phase, 5_000),
            sine.generate_sample(phase, 5_000)
        );
    }
}

#[test]
fn blended_voice_is_pure_triangle_at_the_high_reference() {
    // At and above 2000 Hz the organ voice is the triangle shape:
    // 4p - 1 below half a cycle, 3 - 4p above.
    let organ = Waveform::Triangle;
    assert_eq!(organ.generate_sample(0, 2_000_000), -SCALE);
    assert_eq!(organ.generate_sample(QUARTER, 2_000_000), 0);
    assert_eq!(organ.generate_sample(HALF, 2_000_000), SCALE);
    assert_eq!(organ.generate_sample(THREE_QUARTERS, 8_000_000), 0);
}

#[test]
fn blended_voice_mixes_in_between() {
    // Between the references the value lies strictly between the two
    // shapes (at a quarter cycle: sine is +1, triangle is 0).
    let organ = Waveform::Triangle;
    let mid = organ.generate_sample(QUARTER, 220_000);
    assert!(0 < mid && mid < SCALE);
}

#[test]
fn waveform_names_parse() {
    assert_eq!(Waveform::parse(&"sine".to_string()), Some(Waveform::Sine));
    assert_eq!(Waveform::parse(&"square".to_string()), Some(Waveform::Square));
    assert_eq!(
        Waveform::parse(&"sawtooth".to_string()),
        Some(Waveform::Sawtooth)
    );
    assert_eq!(
        Waveform::parse(&"triangle".to_string()),
        Some(Waveform::Triangle)
    );
    assert_eq!(Waveform::parse(&"noise".to_string()), None);
    assert_eq!(Waveform::parse(&"Sine".to_string()), None);
    assert_eq!(Waveform::parse(&"".to_string()), None);
}
