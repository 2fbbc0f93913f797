//! A stop: one harmonic partial of a timbre, in pipe-organ terminology.
//!
//! A stop names a waveform, a frequency ratio relative to the fundamental
//! (permille) and an amplitude ratio (nano-units). Stops are immutable and
//! compared structurally, which is exact here because every field is an
//! integer or an enum.

use vstd::prelude::*;
use crate::config::StopConfig;
use crate::units::{MAX_AMPLITUDE_RATIO, MAX_FREQUENCY_RATIO};
use crate::waveform::Waveform;

verus! {

/// Why a configuration failed to resolve; fatal at startup only.
#[derive(Debug, Copy, Clone, PartialEq, Eq, Structural)]
pub enum ConfigError {
    /// A stop names a waveform this synthesizer does not generate.
    UnknownWaveform,
    /// A ratio lies outside the engine's supported headroom.
    RatioOutOfRange,
    /// A preset refers to a stop name that is not defined.
    UnknownStopName,
    /// A preset default refers to a preset name that is not defined.
    UnknownPresetName,
}

/// The stop a configuration entry defines, or why it is rejected: an
/// unknown waveform name first, then a ratio outside the headroom.
pub open spec fn spec_stop_of(config: StopConfig) -> Result<Stop, ConfigError> {
    match Waveform::spec_parse(config.waveform@) {
        None => Err(ConfigError::UnknownWaveform),
        Some(waveform) => {
            if config.frequency_ratio > MAX_FREQUENCY_RATIO || config.amplitude_ratio < 0
                || config.amplitude_ratio > MAX_AMPLITUDE_RATIO {
                Err(ConfigError::RatioOutOfRange)
            } else {
                Ok(
                    Stop {
                        waveform,
                        frequency_ratio: config.frequency_ratio,
                        amplitude_ratio: config.amplitude_ratio,
                    },
                )
            }
        },
    }
}

#[derive(Debug, Copy, Clone, PartialEq, Eq, Structural)]
pub struct Stop {
    pub waveform: Waveform,
    /// Frequency relative to the note's fundamental, in permille.
    pub frequency_ratio: u64,
    /// Amplitude relative to the voice's full level, in nano-units.
    pub amplitude_ratio: i64,
}

impl Stop {
    /// A stop the engine accepts: ratios within the supported headroom.
    pub open spec fn valid(self) -> bool {
        &&& self.frequency_ratio <= MAX_FREQUENCY_RATIO
        &&& 0 <= self.amplitude_ratio <= MAX_AMPLITUDE_RATIO
    }

    /// Resolve one configuration entry into a stop, rejecting unknown
    /// waveform names and ratios outside the headroom.
    pub fn new(config: &StopConfig) -> (r: Result<Stop, ConfigError>)
        ensures
            r == spec_stop_of(*config),
            r matches Ok(s) ==> s.valid(),
    {
        let waveform = match Waveform::parse(&config.waveform) {
            Some(waveform) => waveform,
            None => {
                return Err(ConfigError::UnknownWaveform);
            },
        };
        if config.frequency_ratio > MAX_FREQUENCY_RATIO || config.amplitude_ratio < 0
            || config.amplitude_ratio > MAX_AMPLITUDE_RATIO {
            return Err(ConfigError::RatioOutOfRange);
        }
        Ok(
            Stop {
                waveform,
                frequency_ratio: config.frequency_ratio,
                amplitude_ratio: config.amplitude_ratio,
            },
        )
    }
}

/// All stops of a timbre are acceptable.
pub open spec fn spec_stops_valid(stops: Seq<Stop>) -> bool {
    forall|i: int| 0 <= i < stops.len() ==> (#[trigger] stops[i]).valid()
}

/// The built-in default timbre: three blended-voice stops an octave apart
/// (a subbass, a principal and an octave rank).
pub open spec fn spec_default_stops() -> Seq<Stop> {
    seq![
        Stop { waveform: Waveform::Triangle, frequency_ratio: 500, amplitude_ratio: 600_000_000 },
        Stop { waveform: Waveform::Triangle, frequency_ratio: 1000, amplitude_ratio: 1_000_000_000 },
        Stop { waveform: Waveform::Triangle, frequency_ratio: 2000, amplitude_ratio: 800_000_000 },
    ]
}

/// The built-in default timbre, executable.
pub fn default_stops() -> (r: Vec<Stop>)
    ensures
        r@ == spec_default_stops(),
        spec_stops_valid(r@),
{
    let mut v: Vec<Stop> = Vec::new();
    v.push(Stop { waveform: Waveform::Triangle, frequency_ratio: 500, amplitude_ratio: 600_000_000 });
    v.push(Stop { waveform: Waveform::Triangle, frequency_ratio: 1000, amplitude_ratio: 1_000_000_000 });
    v.push(Stop { waveform: Waveform::Triangle, frequency_ratio: 2000, amplitude_ratio: 800_000_000 });
    proof {
        assert(v@ =~= spec_default_stops());
    }
    v
}

} // verus!
