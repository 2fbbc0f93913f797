use synth::envelope::{Envelope, EnvelopeState};
use synth::units::{EPSILON, SCALE};

const RATE: u32 = 48_000;

#[test]
fn starts_near_silent_in_attack() {
    let e = Envelope::new(RATE, 440_000);
    assert_eq!(e.value, EPSILON); // 1e-6 of full scale
    assert_eq!(e.state, EnvelopeState::Attack);
}

#[test]
fn attack_completes_within_its_sample_count() {
    // ceil(attack_seconds * sample_rate) = ceil(0.05 * 48000) = 2400.
    let mut e = Envelope::new(RATE, 440_000);
    for _ in 0..2399 {
        e.next();
    }
    assert!(e.value < SCALE);
    e.next();
    assert_eq!(e.value, SCALE);
    assert_eq!(e.state, EnvelopeState::Sustain);
}

#[test]
fn attack_is_monotonically_non_decreasing() {
    let mut e = Envelope::new(RATE, 440_000);
    let mut last = e.value;
    for _ in 0..3000 {
        let v = e.next();
        assert!(v >= last);
        last = v;
    }
}

#[test]
fn sustain_holds_forever() {
    let mut e = Envelope::new(RATE, 440_000);
    for _ in 0..2400 {
        e.next();
    }
    for _ in 0..10_000 {
        assert_eq!(e.next(), SCALE);
        assert_eq!(e.state, EnvelopeState::Sustain);
        assert!(!e.is_finished());
    }
}

#[test]
fn release_decays_to_zero_within_its_sample_count() {
    // ceil(release_seconds * sample_rate) = ceil(0.1 * 48000) = 4800.
    let mut e = Envelope::new(RATE, 440_000);
    for _ in 0..2400 {
        e.next();
    }
    e.trigger_release();
    assert_eq!(e.state, EnvelopeState::Release);
    let mut last = e.value;
    for _ in 0..4800 {
        let v = e.next();
        assert!(v <= last); // monotonically non-increasing
        last = v;
    }
    assert_eq!(e.value, 0);
    assert_eq!(e.state, EnvelopeState::Release); // never leaves Release
}

#[test]
fn finished_only_when_released_below_epsilon() {
    let mut e = Envelope::new(RATE, 440_000);
    assert!(!e.is_finished()); // Attack, even at the epsilon start level
    for _ in 0..100 {
        e.next();
    }
    assert!(!e.is_finished()); // still attacking
    e.trigger_release();
    assert!(!e.is_finished()); // released but not yet decayed
    for _ in 0..4800 {
        e.next();
    }
    assert!(e.is_finished()); // released and silent
}

#[test]
fn releasing_twice_changes_nothing_more() {
    let mut e = Envelope::new(RATE, 440_000);
    for _ in 0..10 {
        e.next();
    }
    e.trigger_release();
    let (v, s) = (e.value, e.state);
    e.trigger_release();
    assert_eq!(e.value, v);
    assert_eq!(e.state, s);
}
