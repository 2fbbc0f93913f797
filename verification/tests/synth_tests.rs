use synth::config::{PresetConfig, PresetDefaultConfig, PresetStopConfig, StopConfig, SynthConfig};
use synth::midi::try_parse;
use synth::synth::Synth;
use synth::waveform::Waveform;

const RATE: u32 = 48_000;

fn empty_config() -> SynthConfig {
    SynthConfig { stops: vec![], presets: vec![], preset_defaults: vec![] }
}

fn stop_config(identifier: Option<u8>, waveform: &str, ratio: u64, amplitude: i64) -> StopConfig {
    StopConfig {
        midi_identifier: identifier,
        waveform: waveform.to_string(),
        frequency_ratio: ratio,
        amplitude_ratio: amplitude,
    }
}

fn send(s: &mut Synth, raw: [u8; 3]) {
    let message = try_parse(&raw).unwrap();
    s.handle_midi_message(message);
}

#[test]
fn engines_are_created_lazily_per_channel() {
    let mut s = Synth::new(RATE, empty_config()).unwrap();
    assert!(s.synths.iter().all(|slot| slot.is_none()));
    send(&mut s, [0x90, 69, 100]);
    assert!(s.synths[0].is_some());
    assert!(s.synths[1].is_none());
    send(&mut s, [0x93, 69, 100]);
    assert!(s.synths[3].is_some());
}

#[test]
fn unconfigured_channel_gets_the_fallback_sine_stop() {
    let mut s = Synth::new(RATE, empty_config()).unwrap();
    send(&mut s, [0x90, 69, 100]);
    let engine = s.synths[0].as_ref().unwrap();
    assert_eq!(engine.stops.len(), 1);
    assert_eq!(engine.stops[0].waveform, Waveform::Sine);
    assert_eq!(engine.stops[0].frequency_ratio, 1000);
    assert_eq!(engine.stops[0].amplitude_ratio, 1_000_000_000);
    assert_eq!(engine.notes.len(), 1);
    assert_eq!(engine.notes[0].frequency, 440_000);
}

#[test]
fn note_on_with_zero_value_acts_as_note_off() {
    // [0x90, 60, 0] must be dispatched identically to a note-off.
    let mut a = Synth::new(RATE, empty_config()).unwrap();
    send(&mut a, [0x90, 60, 100]);
    send(&mut a, [0x90, 60, 0]);
    let mut b = Synth::new(RATE, empty_config()).unwrap();
    send(&mut b, [0x90, 60, 100]);
    send(&mut b, [0x80, 60, 0]);
    let ea = a.synths[0].as_ref().unwrap();
    let eb = b.synths[0].as_ref().unwrap();
    assert_eq!(ea.notes.len(), 1);
    assert_eq!(eb.notes.len(), 1);
    assert!(ea.notes[0].is_released);
    assert!(eb.notes[0].is_released);
}

#[test]
fn preset_defaults_use_one_based_channel_numbers() {
    // The defaults table is addressed with the wire channel plus one.
    let config = SynthConfig {
        stops: vec![("flute".to_string(), stop_config(None, "square", 1000, 400_000_000))],
        presets: vec![(
            "solo".to_string(),
            PresetConfig {
                midi_identifier: 30,
                stops: vec![PresetStopConfig::Named("flute".to_string())],
            },
        )],
        preset_defaults: vec![PresetDefaultConfig {
            midi_channel: 1,
            preset_name: "solo".to_string(),
        }],
    };
    let mut s = Synth::new(RATE, config).unwrap();
    send(&mut s, [0x90, 69, 100]); // wire channel 0 -> config channel 1
    let engine = s.synths[0].as_ref().unwrap();
    assert_eq!(engine.stops.len(), 1);
    assert_eq!(engine.stops[0].waveform, Waveform::Square);
    // A channel without a default still falls back to the plain sine.
    send(&mut s, [0x91, 69, 100]);
    let other = s.synths[1].as_ref().unwrap();
    assert_eq!(other.stops[0].waveform, Waveform::Sine);
}

fn control_config() -> SynthConfig {
    SynthConfig {
        stops: vec![
            ("flute".to_string(), stop_config(Some(20), "square", 1000, 400_000_000)),
            ("quint".to_string(), stop_config(Some(21), "sine", 1500, 300_000_000)),
        ],
        presets: vec![(
            "duo".to_string(),
            PresetConfig {
                midi_identifier: 30,
                stops: vec![
                    PresetStopConfig::Named("flute".to_string()),
                    PresetStopConfig::Inline(stop_config(None, "sawtooth", 2000, 200_000_000)),
                ],
            },
        )],
        preset_defaults: vec![],
    }
}

#[test]
fn control_change_switches_presets() {
    let mut s = Synth::new(RATE, control_config()).unwrap();
    send(&mut s, [0x90, 69, 100]);
    send(&mut s, [0xB0, 30, 1]); // preset "duo"
    let engine = s.synths[0].as_ref().unwrap();
    assert_eq!(engine.stops.len(), 2);
    assert_eq!(engine.stops[0].waveform, Waveform::Square);
    assert_eq!(engine.stops[1].waveform, Waveform::Sawtooth);
    assert_eq!(engine.stops[1].frequency_ratio, 2000);
    // Live notes adopt the new timbre immediately.
    assert_eq!(engine.notes[0].oscillators.len(), 2);
}

#[test]
fn control_change_adds_and_removes_single_stops() {
    let mut s = Synth::new(RATE, control_config()).unwrap();
    send(&mut s, [0x90, 69, 100]);
    send(&mut s, [0xB0, 21, 1]); // add stop "quint"
    {
        let engine = s.synths[0].as_ref().unwrap();
        assert_eq!(engine.stops.len(), 2);
        assert_eq!(engine.stops[1].frequency_ratio, 1500);
        assert_eq!(engine.notes[0].oscillators.len(), 2);
    }
    send(&mut s, [0xB0, 21, 0]); // value 0 removes it again
    {
        let engine = s.synths[0].as_ref().unwrap();
        assert_eq!(engine.stops.len(), 1);
    }
    // An identifier matching neither table is dropped.
    send(&mut s, [0xB0, 99, 1]);
    assert_eq!(s.synths[0].as_ref().unwrap().stops.len(), 1);
}

#[test]
fn program_change_is_dropped() {
    let mut s = Synth::new(RATE, empty_config()).unwrap();
    send(&mut s, [0x90, 69, 100]);
    send(&mut s, [0xC0, 5, 0]);
    let engine = s.synths[0].as_ref().unwrap();
    assert_eq!(engine.notes.len(), 1);
    assert_eq!(engine.stops.len(), 1);
}

#[test]
fn render_sums_channels_and_is_silent_without_notes() {
    let mut s = Synth::new(RATE, empty_config()).unwrap();
    for _ in 0..100 {
        assert_eq!(s.next_sample(), 0);
    }
    send(&mut s, [0x90, 69, 100]);
    // A struck voice makes the output non-zero within the attack.
    let mut heard = false;
    for _ in 0..100 {
        if s.next_sample() != 0 {
            heard = true;
        }
    }
    assert!(heard);
}

#[test]
fn notes_beyond_the_supported_band_are_dropped() {
    // Identifier 200 would sound far above 20 kHz; no voice is struck.
    let mut s = Synth::new(RATE, empty_config()).unwrap();
    send(&mut s, [0x90, 200, 100]);
    let engine = s.synths[0].as_ref().unwrap();
    assert_eq!(engine.notes.len(), 0);
}
