use synth::config::{
    get_preset, get_preset_defaults, get_presets, get_stop, get_stops, PresetConfig,
    PresetDefaultConfig, PresetStopConfig, StopConfig, SynthConfig,
};
use synth::stop::{ConfigError, Stop};
use synth::waveform::Waveform;

fn stop_config(identifier: Option<u8>, waveform: &str, ratio: u64, amplitude: i64) -> StopConfig {
    StopConfig {
        midi_identifier: identifier,
        waveform: waveform.to_string(),
        frequency_ratio: ratio,
        amplitude_ratio: amplitude,
    }
}

fn sample_config() -> SynthConfig {
    SynthConfig {
        stops: vec![
            ("flute".to_string(), stop_config(Some(20), "square", 1000, 400_000_000)),
            ("bass".to_string(), stop_config(None, "triangle", 500, 600_000_000)),
        ],
        presets: vec![(
            "duo".to_string(),
            PresetConfig {
                midi_identifier: 30,
                stops: vec![
                    PresetStopConfig::Named("flute".to_string()),
                    PresetStopConfig::Inline(stop_config(None, "sine", 2000, 200_000_000)),
                ],
            },
        )],
        preset_defaults: vec![PresetDefaultConfig {
            midi_channel: 1,
            preset_name: "duo".to_string(),
        }],
    }
}

#[test]
fn named_and_inline_stops_resolve() {
    let config = sample_config();
    let named = get_stop(&PresetStopConfig::Named("flute".to_string()), &config).unwrap();
    assert_eq!(
        named,
        Stop { waveform: Waveform::Square, frequency_ratio: 1000, amplitude_ratio: 400_000_000 }
    );
    let inline = get_stop(
        &PresetStopConfig::Inline(stop_config(None, "sawtooth", 1500, 1_000_000)),
        &config,
    )
    .unwrap();
    assert_eq!(inline.waveform, Waveform::Sawtooth);
    assert_eq!(inline.frequency_ratio, 1500);
}

#[test]
fn unknown_stop_name_is_a_startup_error() {
    let config = sample_config();
    assert_eq!(
        get_stop(&PresetStopConfig::Named("oboe".to_string()), &config),
        Err(ConfigError::UnknownStopName)
    );
}

#[test]
fn unknown_waveform_is_a_startup_error() {
    let config = sample_config();
    assert_eq!(
        get_stop(
            &PresetStopConfig::Inline(stop_config(None, "noise", 1000, 1_000_000)),
            &config
        ),
        Err(ConfigError::UnknownWaveform)
    );
}

#[test]
fn out_of_range_ratios_are_a_startup_error() {
    let config = sample_config();
    assert_eq!(
        get_stop(
            &PresetStopConfig::Inline(stop_config(None, "sine", 2_000_000, 1_000_000)),
            &config
        ),
        Err(ConfigError::RatioOutOfRange)
    );
    assert_eq!(
        get_stop(
            &PresetStopConfig::Inline(stop_config(None, "sine", 1000, -5)),
            &config
        ),
        Err(ConfigError::RatioOutOfRange)
    );
    assert_eq!(
        get_stop(
            &PresetStopConfig::Inline(stop_config(None, "sine", 1000, 9_000_000_000)),
            &config
        ),
        Err(ConfigError::RatioOutOfRange)
    );
}

#[test]
fn presets_resolve_in_order() {
    let config = sample_config();
    let preset = get_preset(&config.presets[0].1, &config).unwrap();
    assert_eq!(preset.len(), 2);
    assert_eq!(preset[0].waveform, Waveform::Square);
    assert_eq!(preset[1].waveform, Waveform::Sine);
    assert_eq!(preset[1].frequency_ratio, 2000);
}

#[test]
fn stop_table_keeps_only_identified_stops() {
    let config = sample_config();
    let table = get_stops(&config).unwrap();
    assert_eq!(table.len(), 1);
    assert_eq!(table[0].0, 20);
    assert_eq!(table[0].1.waveform, Waveform::Square);
}

#[test]
fn preset_table_is_keyed_by_identifier() {
    let config = sample_config();
    let table = get_presets(&config).unwrap();
    assert_eq!(table.len(), 1);
    assert_eq!(table[0].0, 30);
    assert_eq!(table[0].1.len(), 2);
}

#[test]
fn preset_defaults_resolve_their_preset() {
    let config = sample_config();
    let table = get_preset_defaults(&config).unwrap();
    assert_eq!(table.len(), 1);
    assert_eq!(table[0].0, 1);
    assert_eq!(table[0].1.len(), 2);
}

#[test]
fn unknown_preset_name_is_a_startup_error() {
    let mut config = sample_config();
    config.preset_defaults[0].preset_name = "tutti".to_string();
    assert_eq!(
        get_preset_defaults(&config),
        Err(ConfigError::UnknownPresetName)
    );
}

#[test]
fn later_entries_shadow_earlier_ones() {
    let mut config = sample_config();
    config.stops.push(("flute".to_string(), stop_config(Some(22), "sine", 3000, 100_000_000)));
    let resolved = get_stop(&PresetStopConfig::Named("flute".to_string()), &config).unwrap();
    assert_eq!(resolved.waveform, Waveform::Sine);
    assert_eq!(resolved.frequency_ratio, 3000);
}
