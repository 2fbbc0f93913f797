use synth::engine::InternalSynth;
use synth::stop::{default_stops, Stop};
use synth::waveform::Waveform;

const RATE: u32 = 48_000;
const A4: u64 = 440_000;

fn engine() -> InternalSynth {
    InternalSynth::new(RATE, default_stops())
}

#[test]
fn fresh_engine_is_silent() {
    let mut e = engine();
    for _ in 0..1000 {
        assert_eq!(e.next_sample(), 0);
    }
}

#[test]
fn add_voice_builds_one_oscillator_per_stop() {
    let mut e = engine();
    e.add_voice(A4);
    assert_eq!(e.notes.len(), 1);
    assert_eq!(e.notes[0].frequency, A4);
    assert_eq!(e.notes[0].oscillators.len(), 3);
    // Frequency ratios 0.5 / 1.0 / 2.0 of the fundamental.
    assert_eq!(e.notes[0].oscillators[0].frequency, 220_000);
    assert_eq!(e.notes[0].oscillators[1].frequency, 440_000);
    assert_eq!(e.notes[0].oscillators[2].frequency, 880_000);
}

#[test]
fn striking_the_same_fundamental_twice_keeps_one_voice() {
    let mut e = engine();
    e.add_voice(A4);
    e.add_voice(A4);
    assert_eq!(e.notes.len(), 1);
    // After releasing, the fundamental may be struck again.
    e.remove_voice(A4);
    e.add_voice(A4);
    assert_eq!(e.notes.len(), 2);
    assert!(e.notes[0].is_released);
    assert!(!e.notes[1].is_released);
}

#[test]
fn remove_voice_is_idempotent() {
    let mut e = engine();
    e.add_voice(A4);
    e.add_voice(523_251);
    e.remove_voice(A4);
    assert!(e.notes[0].is_released);
    assert!(!e.notes[1].is_released);
    // The second removal finds no un-released voice at 440 Hz: a no-op.
    e.remove_voice(A4);
    assert_eq!(e.notes.len(), 2);
    assert!(e.notes[0].is_released);
    assert!(!e.notes[1].is_released);
}

#[test]
fn removing_an_unknown_frequency_is_a_no_op() {
    let mut e = engine();
    e.add_voice(A4);
    e.remove_voice(100_000);
    assert_eq!(e.notes.len(), 1);
    assert!(!e.notes[0].is_released);
}

#[test]
fn released_voice_is_pruned_once_decayed() {
    let mut e = engine();
    e.add_voice(A4);
    e.next_sample(); // envelopes at one attack step
    e.remove_voice(A4);
    assert_eq!(e.notes.len(), 1);
    // The release ramp (from one attack step up) needs two samples to
    // fall below the silence threshold; the call after that prunes.
    e.next_sample();
    e.next_sample();
    assert_eq!(e.notes.len(), 1);
    e.next_sample();
    assert_eq!(e.notes.len(), 0);
    // Later calls never revisit the pruned note.
    e.next_sample();
    assert_eq!(e.notes.len(), 0);
}

#[test]
fn freshly_struck_voice_is_near_silent_but_not_zero() {
    // The first sample after striking 440 Hz with the default timbre:
    // the envelopes still sit near their 1e-6 starting level, so the
    // output is tiny but (unlike true silence) not exactly zero.
    let mut e = engine();
    e.add_voice(A4);
    let s = e.next_sample();
    assert!(s != 0);
    assert!(s.abs() < 10_000); // well below 1e-5 of full scale
}

#[test]
fn use_preset_rebuilds_live_notes() {
    let mut e = engine();
    e.add_voice(A4);
    let solo = vec![Stop { waveform: Waveform::Square, frequency_ratio: 1000, amplitude_ratio: 500_000_000 }];
    e.use_preset(solo.clone());
    assert_eq!(e.stops, solo);
    assert_eq!(e.notes[0].oscillators.len(), 1);
    assert_eq!(e.notes[0].oscillators[0].frequency, A4);
    assert_eq!(e.notes[0].oscillators[0].waveform, Waveform::Square);
}

#[test]
fn add_stop_extends_timbre_and_live_notes() {
    let mut e = engine();
    e.add_voice(A4);
    let extra = Stop { waveform: Waveform::Sine, frequency_ratio: 3000, amplitude_ratio: 100_000_000 };
    e.add_stop(extra);
    assert_eq!(e.stops.len(), 4);
    assert_eq!(e.notes[0].oscillators.len(), 4);
    assert_eq!(e.notes[0].oscillators[3].frequency, 1_320_000);
}

#[test]
fn remove_stop_drops_it_from_the_timbre() {
    let mut e = engine();
    let gone = e.stops[1];
    e.remove_stop(gone);
    assert_eq!(e.stops.len(), 2);
    // Removing a stop that is not part of the timbre is a no-op.
    let unknown = Stop { waveform: Waveform::Square, frequency_ratio: 7000, amplitude_ratio: 1 };
    e.remove_stop(unknown);
    assert_eq!(e.stops.len(), 2);
}

#[test]
fn remove_stop_releases_the_matching_oscillator_of_unit_ratio() {
    // Oscillator matching compares the gain computed from the note's
    // fundamental, which coincides with the stored gain exactly for a
    // frequency ratio of one.
    let solo = vec![Stop { waveform: Waveform::Square, frequency_ratio: 1000, amplitude_ratio: 500_000_000 }];
    let mut e = InternalSynth::new(RATE, solo.clone());
    e.add_voice(A4);
    assert!(!e.notes[0].oscillators[0].is_released);
    e.remove_stop(solo[0]);
    assert!(e.notes[0].oscillators[0].is_released);
}

#[test]
fn empty_timbre_makes_instantly_finished_notes() {
    // A note with no oscillators is vacuously finished and is pruned on
    // the next render call.
    let mut e = InternalSynth::new(RATE, vec![]);
    e.add_voice(A4);
    assert_eq!(e.notes.len(), 1);
    assert!(e.notes[0].is_finished());
    e.next_sample();
    assert_eq!(e.notes.len(), 0);
}

#[test]
fn lowest_sample_rate_still_works() {
    let mut e = InternalSynth::new(1, default_stops());
    e.add_voice(A4);
    for _ in 0..10 {
        let s = e.next_sample();
        assert!(s.abs() <= 404_000_000_000_000);
    }
}
