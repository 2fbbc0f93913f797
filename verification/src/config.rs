//! The resolved configuration: named stops, named presets (ordered stop
//! lists) and per-channel preset defaults, plus the resolution functions
//! that turn them into concrete tables keyed by MIDI identifier.
//!
//! Name tables are association lists; when a name occurs twice the later
//! entry shadows the earlier one, as in a map built by insertion. A lookup
//! failure is a configuration error surfaced at startup, never at runtime.

use vstd::prelude::*;
use crate::stop::{spec_stop_of, ConfigError, Stop};

verus! {

#[derive(Debug, Clone)]
pub struct Config {
    pub jack: JackConfig,
    pub synth: SynthConfig,
}

/// Names of the audio host's client and ports; the core only carries them.
#[derive(Debug, Clone)]
pub struct JackConfig {
    pub client_name: String,
    pub audio_out_port_name: String,
    pub midi_in_port_name: String,
    pub system_audio_l_port_name: String,
    pub system_audio_r_port_name: String,
}

#[derive(Debug, Clone)]
pub struct SynthConfig {
    pub stops: Vec<(String, StopConfig)>,
    pub presets: Vec<(String, PresetConfig)>,
    pub preset_defaults: Vec<PresetDefaultConfig>,
}

#[derive(Debug, Clone)]
pub struct PresetConfig {
    pub midi_identifier: u8,
    pub stops: Vec<PresetStopConfig>,
}

/// A preset names a stop either by reference or inline.
#[derive(Debug, Clone)]
pub enum PresetStopConfig {
    Named(String),
    Inline(StopConfig),
}

#[derive(Debug, Clone)]
pub struct StopConfig {
    /// The control-change identifier that toggles this stop, if any.
    pub midi_identifier: Option<u8>,
    /// Waveform name: "sine", "square", "sawtooth" or "triangle".
    pub waveform: String,
    /// Frequency ratio in permille.
    pub frequency_ratio: u64,
    /// Amplitude ratio in nano-units.
    pub amplitude_ratio: i64,
}

#[derive(Debug, Clone)]
pub struct PresetDefaultConfig {
    pub midi_channel: u8,
    pub preset_name: String,
}

/// Index of the last entry under the given name, or -1: later entries
/// shadow earlier ones.
pub open spec fn spec_named_index<T>(entries: Seq<(String, T)>, name: Seq<char>) -> int
    decreases entries.len(),
{
    if entries.len() == 0 {
        -1
    } else if entries.last().0@ == name {
        entries.len() - 1
    } else {
        spec_named_index(entries.drop_last(), name)
    }
}

/// Find the entry a name denotes.
fn find_named<T>(entries: &Vec<(String, T)>, name: &String) -> (r: Option<usize>)
    ensures
        spec_named_index(entries@, name@) == -1 ==> r is None,
        spec_named_index(entries@, name@) != -1 ==> r == Some(
            spec_named_index(entries@, name@) as usize,
        ),
        r matches Some(i) ==> i < entries@.len() && i == spec_named_index(entries@, name@),
{
    let mut i: usize = entries.len();
    while i > 0
        invariant
            i <= entries@.len(),
            forall|j: int| i <= j < entries@.len() ==> (#[trigger] entries@[j]).0@ != name@,
        decreases i,
    {
        i = i - 1;
        if entries[i].0 == *name {
            proof {
                lemma_named_index_found(entries@, name@, i as int);
            }
            return Some(i);
        }
    }
    proof {
        lemma_named_index_missing(entries@, name@);
    }
    None
}

proof fn lemma_named_index_found<T>(entries: Seq<(String, T)>, name: Seq<char>, i: int)
    requires
        0 <= i < entries.len(),
        entries[i].0@ == name,
        forall|j: int| i < j < entries.len() ==> (#[trigger] entries[j]).0@ != name,
    ensures
        spec_named_index(entries, name) == i,
    decreases entries.len(),
{
    if i < entries.len() - 1 {
        assert(entries.drop_last()[i] == entries[i]);
        assert forall|j: int| i < j < entries.drop_last().len() implies (
        #[trigger] entries.drop_last()[j]).0@ != name by {
            assert(entries.drop_last()[j] == entries[j]);
        }
        lemma_named_index_found(entries.drop_last(), name, i);
    }
}

proof fn lemma_named_index_missing<T>(entries: Seq<(String, T)>, name: Seq<char>)
    requires
        forall|j: int| 0 <= j < entries.len() ==> (#[trigger] entries[j]).0@ != name,
    ensures
        spec_named_index(entries, name) == -1,
    decreases entries.len(),
{
    if entries.len() > 0 {
        assert forall|j: int| 0 <= j < entries.drop_last().len() implies (
        #[trigger] entries.drop_last()[j]).0@ != name by {
            assert(entries.drop_last()[j] == entries[j]);
        }
        lemma_named_index_missing(entries.drop_last(), name);
    }
}

/// The stop a preset entry denotes: an inline definition is parsed
/// directly, a name is looked up among the named stops first.
pub open spec fn spec_get_stop(
    preset_stop_config: PresetStopConfig,
    config: SynthConfig,
) -> Result<Stop, ConfigError> {
    match preset_stop_config {
        PresetStopConfig::Named(name) => {
            let i = spec_named_index(config.stops@, name@);
            if i == -1 {
                Err(ConfigError::UnknownStopName)
            } else {
                spec_stop_of(config.stops@[i].1)
            }
        },
        PresetStopConfig::Inline(stop_config) => spec_stop_of(stop_config),
    }
}

/// Resolve one preset entry to a concrete stop.
pub fn get_stop(preset_stop_config: &PresetStopConfig, config: &SynthConfig) -> (r: Result<
    Stop,
    ConfigError,
>)
    ensures
        r == spec_get_stop(*preset_stop_config, *config),
        r matches Ok(s) ==> s.valid(),
{
    match preset_stop_config {
        PresetStopConfig::Named(name) => {
            match find_named(&config.stops, name) {
                Some(i) => Stop::new(&config.stops[i].1),
                None => Err(ConfigError::UnknownStopName),
            }
        },
        PresetStopConfig::Inline(stop_config) => Stop::new(stop_config),
    }
}

/// The ordered stop list a preset's entries denote; the first entry that
/// fails to resolve decides the error.
pub open spec fn spec_get_preset_stops(
    entries: Seq<PresetStopConfig>,
    config: SynthConfig,
) -> Result<Seq<Stop>, ConfigError>
    decreases entries.len(),
{
    if entries.len() == 0 {
        Ok(Seq::empty())
    } else {
        match spec_get_preset_stops(entries.drop_last(), config) {
            Err(e) => Err(e),
            Ok(rest) => match spec_get_stop(entries.last(), config) {
                Err(e) => Err(e),
                Ok(stop) => Ok(rest.push(stop)),
            },
        }
    }
}

/// Resolve a whole preset to its ordered stop list.
pub fn get_preset(preset_config: &PresetConfig, config: &SynthConfig) -> (r: Result<
    Vec<Stop>,
    ConfigError,
>)
    ensures
        ({
            match spec_get_preset_stops(preset_config.stops@, *config) {
                Ok(s) => r matches Ok(v) && v@ == s,
                Err(e) => r == Err::<Vec<Stop>, ConfigError>(e),
            }
        }),
        r matches Ok(v) ==> crate::stop::spec_stops_valid(v@),
{
    let mut stops: Vec<Stop> = Vec::new();
    let mut i: usize = 0;
    while i < preset_config.stops.len()
        invariant
            i <= preset_config.stops@.len(),
            spec_get_preset_stops(preset_config.stops@.subrange(0, i as int), *config) == Ok::<
                Seq<Stop>,
                ConfigError,
            >(stops@),
            forall|j: int| 0 <= j < stops@.len() ==> (#[trigger] stops@[j]).valid(),
        decreases preset_config.stops@.len() - i,
    {
        let ghost prefix = preset_config.stops@.subrange(0, i as int);
        let stop = match get_stop(&preset_config.stops[i], config) {
            Ok(stop) => stop,
            Err(e) => {
                proof {
                    lemma_preset_prefix_error(preset_config.stops@, *config, i as int, e);
                }
                return Err(e);
            },
        };
        stops.push(stop);
        proof {
            assert(preset_config.stops@.subrange(0, i + 1).drop_last() =~= prefix);
            assert(preset_config.stops@.subrange(0, i + 1).last()
                == preset_config.stops@[i as int]);
        }
        i = i + 1;
    }
    proof {
        assert(preset_config.stops@.subrange(0, preset_config.stops@.len() as int)
            =~= preset_config.stops@);
    }
    Ok(stops)
}

/// What one named-stop entry contributes to the control-change table:
/// nothing without a MIDI identifier, else the identifier and its stop.
pub open spec fn spec_stop_entry(stop_config: StopConfig) -> Result<
    Option<(u8, Stop)>,
    ConfigError,
> {
    match stop_config.midi_identifier {
        None => Ok(None),
        Some(id) => match spec_stop_of(stop_config) {
            Err(e) => Err(e),
            Ok(stop) => Ok(Some((id, stop))),
        },
    }
}

/// The control-change stop table: every named stop that carries a MIDI
/// identifier, in configuration order.
pub open spec fn spec_get_stops(entries: Seq<(String, StopConfig)>) -> Result<
    Seq<(u8, Stop)>,
    ConfigError,
>
    decreases entries.len(),
{
    if entries.len() == 0 {
        Ok(Seq::empty())
    } else {
        match spec_get_stops(entries.drop_last()) {
            Err(e) => Err(e),
            Ok(rest) => match spec_stop_entry(entries.last().1) {
                Err(e) => Err(e),
                Ok(None) => Ok(rest),
                Ok(Some(pair)) => Ok(rest.push(pair)),
            },
        }
    }
}

/// Build the control-change stop table.
pub fn get_stops(config: &SynthConfig) -> (r: Result<Vec<(u8, Stop)>, ConfigError>)
    ensures
        ({
            match spec_get_stops(config.stops@) {
                Ok(s) => r matches Ok(v) && v@ == s,
                Err(e) => r == Err::<Vec<(u8, Stop)>, ConfigError>(e),
            }
        }),
        r matches Ok(v) ==> forall|i: int| 0 <= i < v@.len() ==> (#[trigger] v@[i]).1.valid(),
{
    let mut table: Vec<(u8, Stop)> = Vec::new();
    let mut i: usize = 0;
    while i < config.stops.len()
        invariant
            i <= config.stops@.len(),
            spec_get_stops(config.stops@.subrange(0, i as int)) == Ok::<
                Seq<(u8, Stop)>,
                ConfigError,
            >(table@),
            forall|j: int| 0 <= j < table@.len() ==> (#[trigger] table@[j]).1.valid(),
        decreases config.stops@.len() - i,
    {
        let ghost prefix = config.stops@.subrange(0, i as int);
        proof {
            assert(config.stops@.subrange(0, i + 1).drop_last() =~= prefix);
            assert(config.stops@.subrange(0, i + 1).last() == config.stops@[i as int]);
        }
        match config.stops[i].1.midi_identifier {
            None => {},
            Some(id) => {
                match Stop::new(&config.stops[i].1) {
                    Ok(stop) => {
                        table.push((id, stop));
                    },
                    Err(e) => {
                        proof {
                            lemma_stops_prefix_error(config.stops@, i as int, e);
                        }
                        return Err(e);
                    },
                }
            },
        }
        i = i + 1;
    }
    proof {
        assert(config.stops@.subrange(0, config.stops@.len() as int) =~= config.stops@);
    }
    Ok(table)
}

proof fn lemma_stops_prefix_error(entries: Seq<(String, StopConfig)>, i: int, e: ConfigError)
    requires
        0 <= i < entries.len(),
        spec_get_stops(entries.subrange(0, i)) is Ok,
        spec_stop_entry(entries[i].1) == Err::<Option<(u8, Stop)>, ConfigError>(e),
    ensures
        spec_get_stops(entries) == Err::<Seq<(u8, Stop)>, ConfigError>(e),
    decreases entries.len(),
{
    if entries.len() - 1 == i {
        assert(entries.subrange(0, i) =~= entries.drop_last());
    } else {
        assert(entries.drop_last().subrange(0, i) =~= entries.subrange(0, i));
        assert(entries.drop_last()[i] == entries[i]);
        lemma_stops_prefix_error(entries.drop_last(), i, e);
    }
}

/// The preset table: every preset under its MIDI identifier, resolved to
/// its ordered stop list.
pub open spec fn spec_get_presets(
    entries: Seq<(String, PresetConfig)>,
    config: SynthConfig,
) -> Result<Seq<(u8, Seq<Stop>)>, ConfigError>
    decreases entries.len(),
{
    if entries.len() == 0 {
        Ok(Seq::empty())
    } else {
        match spec_get_presets(entries.drop_last(), config) {
            Err(e) => Err(e),
            Ok(rest) => match spec_get_preset_stops(entries.last().1.stops@, config) {
                Err(e) => Err(e),
                Ok(stops) => Ok(rest.push((entries.last().1.midi_identifier, stops))),
            },
        }
    }
}

/// Build the preset table.
pub fn get_presets(config: &SynthConfig) -> (r: Result<Vec<(u8, Vec<Stop>)>, ConfigError>)
    ensures
        ({
            match spec_get_presets(config.presets@, *config) {
                Ok(s) => r matches Ok(v) && v@.len() == s.len() && (forall|i: int|
                    0 <= i < s.len() ==> (#[trigger] v@[i]).0 == s[i].0 && v@[i].1@ == s[i].1),
                Err(e) => r == Err::<Vec<(u8, Vec<Stop>)>, ConfigError>(e),
            }
        }),
        r matches Ok(v) ==> forall|i: int|
            0 <= i < v@.len() ==> crate::stop::spec_stops_valid((#[trigger] v@[i]).1@),
{
    let mut table: Vec<(u8, Vec<Stop>)> = Vec::new();
    let mut i: usize = 0;
    while i < config.presets.len()
        invariant
            i <= config.presets@.len(),
            ({
                match spec_get_presets(config.presets@.subrange(0, i as int), *config) {
                    Ok(s) => table@.len() == s.len() && (forall|j: int|
                        0 <= j < s.len() ==> (#[trigger] table@[j]).0 == s[j].0 && table@[j].1@
                            == s[j].1),
                    Err(_) => false,
                }
            }),
            forall|j: int|
                0 <= j < table@.len() ==> crate::stop::spec_stops_valid(
                    (#[trigger] table@[j]).1@,
                ),
        decreases config.presets@.len() - i,
    {
        let ghost prefix = config.presets@.subrange(0, i as int);
        proof {
            assert(config.presets@.subrange(0, i + 1).drop_last() =~= prefix);
            assert(config.presets@.subrange(0, i + 1).last() == config.presets@[i as int]);
        }
        match get_preset(&config.presets[i].1, config) {
            Ok(stops) => {
                table.push((config.presets[i].1.midi_identifier, stops));
            },
            Err(e) => {
                proof {
                    lemma_presets_prefix_error(config.presets@, *config, i as int, e);
                }
                return Err(e);
            },
        }
        i = i + 1;
    }
    proof {
        assert(config.presets@.subrange(0, config.presets@.len() as int) =~= config.presets@);
    }
    Ok(table)
}

proof fn lemma_presets_prefix_error(
    entries: Seq<(String, PresetConfig)>,
    config: SynthConfig,
    i: int,
    e: ConfigError,
)
    requires
        0 <= i < entries.len(),
        spec_get_presets(entries.subrange(0, i), config) is Ok,
        spec_get_preset_stops(entries[i].1.stops@, config) == Err::<Seq<Stop>, ConfigError>(e),
    ensures
        spec_get_presets(entries, config) == Err::<Seq<(u8, Seq<Stop>)>, ConfigError>(e),
    decreases entries.len(),
{
    if entries.len() - 1 == i {
        assert(entries.subrange(0, i) =~= entries.drop_last());
    } else {
        assert(entries.drop_last().subrange(0, i) =~= entries.subrange(0, i));
        assert(entries.drop_last()[i] == entries[i]);
        lemma_presets_prefix_error(entries.drop_last(), config, i, e);
    }
}

/// What one preset-default entry contributes: its channel and the stop
/// list of the preset it names.
pub open spec fn spec_default_entry(
    preset_default: PresetDefaultConfig,
    config: SynthConfig,
) -> Result<(u8, Seq<Stop>), ConfigError> {
    let i = spec_named_index(config.presets@, preset_default.preset_name@);
    if i == -1 {
        Err(ConfigError::UnknownPresetName)
    } else {
        match spec_get_preset_stops(config.presets@[i].1.stops@, config) {
            Err(e) => Err(e),
            Ok(stops) => Ok((preset_default.midi_channel, stops)),
        }
    }
}

/// The per-channel default preset table, in configuration order.
pub open spec fn spec_get_preset_defaults(
    defaults: Seq<PresetDefaultConfig>,
    config: SynthConfig,
) -> Result<Seq<(u8, Seq<Stop>)>, ConfigError>
    decreases defaults.len(),
{
    if defaults.len() == 0 {
        Ok(Seq::empty())
    } else {
        match spec_get_preset_defaults(defaults.drop_last(), config) {
            Err(e) => Err(e),
            Ok(rest) => match spec_default_entry(defaults.last(), config) {
                Err(e) => Err(e),
                Ok(pair) => Ok(rest.push(pair)),
            },
        }
    }
}

/// Build the per-channel default preset table.
pub fn get_preset_defaults(config: &SynthConfig) -> (r: Result<
    Vec<(u8, Vec<Stop>)>,
    ConfigError,
>)
    ensures
        ({
            match spec_get_preset_defaults(config.preset_defaults@, *config) {
                Ok(s) => r matches Ok(v) && v@.len() == s.len() && (forall|i: int|
                    0 <= i < s.len() ==> (#[trigger] v@[i]).0 == s[i].0 && v@[i].1@ == s[i].1),
                Err(e) => r == Err::<Vec<(u8, Vec<Stop>)>, ConfigError>(e),
            }
        }),
        r matches Ok(v) ==> forall|i: int|
            0 <= i < v@.len() ==> crate::stop::spec_stops_valid(
                (#[trigger] v@[i]).1@,
            ),
{
    let mut table: Vec<(u8, Vec<Stop>)> = Vec::new();
    let mut i: usize = 0;
    while i < config.preset_defaults.len()
        invariant
            i <= config.preset_defaults@.len(),
            ({
                match spec_get_preset_defaults(
                    config.preset_defaults@.subrange(0, i as int),
                    *config,
                ) {
                    Ok(s) => table@.len() == s.len() && (forall|j: int|
                        0 <= j < s.len() ==> (#[trigger] table@[j]).0 == s[j].0 && table@[j].1@
                            == s[j].1),
                    Err(_) => false,
                }
            }),
            forall|j: int|
                0 <= j < table@.len() ==> crate::stop::spec_stops_valid(
                    (#[trigger] table@[j]).1@,
                ),
        decreases config.preset_defaults@.len() - i,
    {
        let ghost prefix = config.preset_defaults@.subrange(0, i as int);
        proof {
            assert(config.preset_defaults@.subrange(0, i + 1).drop_last() =~= prefix);
            assert(config.preset_defaults@.subrange(0, i + 1).last()
                == config.preset_defaults@[i as int]);
        }
        let position = match find_named(&config.presets, &config.preset_defaults[i].preset_name) {
            Some(position) => position,
            None => {
                proof {
                    lemma_defaults_prefix_error(
                        config.preset_defaults@,
                        *config,
                        i as int,
                        ConfigError::UnknownPresetName,
                    );
                }
                return Err(ConfigError::UnknownPresetName);
            },
        };
        match get_preset(&config.presets[position].1, config) {
            Ok(stops) => {
                table.push((config.preset_defaults[i].midi_channel, stops));
            },
            Err(e) => {
                proof {
                    lemma_defaults_prefix_error(config.preset_defaults@, *config, i as int, e);
                }
                return Err(e);
            },
        }
        i = i + 1;
    }
    proof {
        assert(config.preset_defaults@.subrange(0, config.preset_defaults@.len() as int)
            =~= config.preset_defaults@);
    }
    Ok(table)
}

proof fn lemma_defaults_prefix_error(
    defaults: Seq<PresetDefaultConfig>,
    config: SynthConfig,
    i: int,
    e: ConfigError,
)
    requires
        0 <= i < defaults.len(),
        spec_get_preset_defaults(defaults.subrange(0, i), config) is Ok,
        spec_default_entry(defaults[i], config) == Err::<(u8, Seq<Stop>), ConfigError>(e),
    ensures
        spec_get_preset_defaults(defaults, config) == Err::<Seq<(u8, Seq<Stop>)>, ConfigError>(e),
    decreases defaults.len(),
{
    if defaults.len() - 1 == i {
        assert(defaults.subrange(0, i) =~= defaults.drop_last());
    } else {
        assert(defaults.drop_last().subrange(0, i) =~= defaults.subrange(0, i));
        assert(defaults.drop_last()[i] == defaults[i]);
        lemma_defaults_prefix_error(defaults.drop_last(), config, i, e);
    }
}

/// If a prefix resolves but its next entry fails, the whole list fails
/// with that entry's error.
proof fn lemma_preset_prefix_error(
    entries: Seq<PresetStopConfig>,
    config: SynthConfig,
    i: int,
    e: ConfigError,
)
    requires
        0 <= i < entries.len(),
        spec_get_preset_stops(entries.subrange(0, i), config) is Ok,
        spec_get_stop(entries[i], config) == Err::<Stop, ConfigError>(e),
    ensures
        spec_get_preset_stops(entries, config) == Err::<Seq<Stop>, ConfigError>(e),
    decreases entries.len(),
{
    if entries.len() - 1 == i {
        assert(entries.subrange(0, i) =~= entries.drop_last());
    } else {
        assert(entries.drop_last().subrange(0, i) =~= entries.subrange(0, i));
        assert(entries.drop_last()[i] == entries[i]);
        lemma_preset_prefix_error(entries.drop_last(), config, i, e);
    }
}

} // verus!
