use synth::oscillator::Oscillator;
use synth::units::SCALE;
use synth::waveform::Waveform;

const RATE: u32 = 48_000;

fn gain_at(frequency: u64) -> i64 {
    // An oscillator built with a unit amplitude ratio stores exactly the
    // equal-loudness gain of its frequency.
    Oscillator::new(frequency, RATE, Waveform::Sine, SCALE).amp
}

#[test]
fn loudness_gain_is_full_scale_at_the_low_anchor() {
    assert_eq!(gain_at(20_000), SCALE); // 20 Hz
    assert_eq!(gain_at(5_000), SCALE); // below the range: clamped
}

#[test]
fn loudness_gain_is_exactly_a_hundredth_at_the_high_anchor() {
    assert_eq!(gain_at(12_500_000), SCALE / 100); // 12.5 kHz
    assert_eq!(gain_at(20_000_000_000), SCALE / 100); // above: clamped
}

#[test]
fn loudness_gain_is_monotone_non_increasing() {
    let mut frequency: u64 = 20_000;
    let mut last = gain_at(frequency);
    while frequency < 13_000_000 {
        frequency += 37_000;
        let g = gain_at(frequency);
        assert!(g <= last);
        assert!(SCALE / 100 <= g && g <= SCALE);
        last = g;
    }
}

#[test]
fn release_is_idempotent() {
    let mut o = Oscillator::new(440_000, RATE, Waveform::Sine, SCALE);
    o.next_sample();
    o.release();
    let (value, state, released) = (o.envelope.value, o.envelope.state, o.is_released);
    o.release();
    assert_eq!(o.envelope.value, value);
    assert_eq!(o.envelope.state, state);
    assert_eq!(o.is_released, released);
}
