//! One oscillator: a phase accumulator, a waveform, a gain and an envelope.
//!
//! The gain combines the owning stop's amplitude ratio with an
//! equal-loudness compensation derived from the oscillator's frequency, so
//! partials at the extremes of the audible range are not over-weighted.

use vstd::prelude::*;
use vstd::arithmetic::div_mod::{
    lemma_div_is_ordered, lemma_div_is_ordered_by_denominator, lemma_div_multiples_vanish,
    lemma_div_pos_is_pos,
};
use crate::envelope::{Envelope, EnvelopeState};
use crate::stop::Stop;
use crate::units::{
    log2_milli, mul_down, pow2, pow2_u64, spec_log2_milli, spec_scale_down,
    lemma_log2_floor_unique, lemma_log2_milli_bounds, lemma_log2_milli_ordered, lemma_pow2_21,
    lemma_pow2_increases, lemma_scale_down_bounded,
    MAX_AMPLITUDE_RATIO, MAX_FREQUENCY, MAX_OSC_FREQUENCY, MAX_SAMPLE_RATE, OSC_LIMIT, SCALE,
};
use crate::waveform::Waveform;

verus! {

/// Lowest audible frequency for loudness compensation, in millihertz.
pub const ISO_MIN_FREQUENCY: u64 = 20_000;

/// Highest audible frequency for loudness compensation, in millihertz.
pub const ISO_MAX_FREQUENCY: u64 = 12_500_000;

/// Exponent span of the loudness taper, in 1024ths of a doubling of the
/// gain's reciprocal: the gain falls from 1.0 at the bottom of the range
/// to 0.01 at the top, and the span is calibrated so the top lands on a
/// hundredth exactly (`1024 * 6 + 576`, since `64 * 1600 = 102_400`).
pub const GAIN_CURVE_SPAN: u64 = 6_720;

/// Would-be random detuning of a voice; currently the identity.
fn detune(frequency: u64) -> (r: u64)
    ensures
        r == frequency,
{
    frequency
}

/// The clamped frequency the loudness curve evaluates, in millihertz.
pub open spec fn spec_iso_clamped(frequency: int) -> int {
    if frequency < ISO_MIN_FREQUENCY {
        ISO_MIN_FREQUENCY as int
    } else if frequency > ISO_MAX_FREQUENCY {
        ISO_MAX_FREQUENCY as int
    } else {
        frequency
    }
}

/// Logarithmic position of the clamped frequency inside the audible range,
/// in nano-units.
pub open spec fn spec_iso_position(frequency: int) -> int {
    (spec_log2_milli(spec_iso_clamped(frequency) as nat) - spec_log2_milli(
        ISO_MIN_FREQUENCY as nat,
    )) * SCALE / (spec_log2_milli(ISO_MAX_FREQUENCY as nat) - spec_log2_milli(
        ISO_MIN_FREQUENCY as nat,
    ))
}

/// The equal-loudness gain in nano-units: `0.01` to the power of the
/// logarithmic position, evaluated as `2^(-e)` with the exponent's
/// fraction interpolated linearly between doublings of the reciprocal.
pub open spec fn spec_iso_gain(frequency: int) -> int {
    let e = spec_iso_position(frequency) * GAIN_CURVE_SPAN / (SCALE as int);
    (SCALE * 1024) / (pow2((e / 1024) as nat) * (1024 + e % 1024))
}

/// The two loudness references in milli-log2 units: 20 Hz lies in the
/// fifteenth octave, 12.5 kHz in the twenty-fourth.
pub proof fn lemma_iso_references()
    ensures
        14_000 <= spec_log2_milli(ISO_MIN_FREQUENCY as nat) < 15_000,
        23_000 <= spec_log2_milli(ISO_MAX_FREQUENCY as nat) < 24_000,
{
    lemma_pow2_21();
    lemma_pow2_increases(14, 21);
    lemma_pow2_increases(15, 21);
    reveal_with_fuel(pow2, 25);
    assert(pow2(14) == 16_384);
    assert(pow2(15) == 32_768);
    assert(pow2(23) == 8_388_608);
    assert(pow2(24) == 16_777_216);
    lemma_log2_floor_unique(ISO_MIN_FREQUENCY as nat, 14);
    lemma_log2_floor_unique(ISO_MAX_FREQUENCY as nat, 23);
    lemma_log2_milli_bounds(ISO_MIN_FREQUENCY as nat);
    lemma_log2_milli_bounds(ISO_MAX_FREQUENCY as nat);
}

/// Equal-loudness compensation: a gain between a hundredth of full scale
/// and full scale, equal to full scale at and below the lowest audible
/// frequency, falling as the frequency rises, and exactly a hundredth at
/// and above the highest one.
fn iso_equal_loudness(frequency: u64) -> (gain: i64)
    ensures
        gain == spec_iso_gain(frequency as int),
        10_000_000 <= gain <= SCALE,
        frequency <= ISO_MIN_FREQUENCY ==> gain == SCALE,
        frequency >= ISO_MAX_FREQUENCY ==> gain == 10_000_000,
{
    let clamped = if frequency < ISO_MIN_FREQUENCY {
        ISO_MIN_FREQUENCY
    } else if frequency > ISO_MAX_FREQUENCY {
        ISO_MAX_FREQUENCY
    } else {
        frequency
    };
    let lf = log2_milli(clamped);
    let llo = log2_milli(ISO_MIN_FREQUENCY);
    let lhi = log2_milli(ISO_MAX_FREQUENCY);
    proof {
        lemma_iso_references();
        lemma_log2_milli_ordered(ISO_MIN_FREQUENCY as nat, clamped as nat);
        lemma_log2_milli_ordered(clamped as nat, ISO_MAX_FREQUENCY as nat);
        assert((lf - llo) * (SCALE as u64) <= 50_000_000_000_000) by (nonlinear_arith)
            requires
                0 <= lf - llo <= 50_000,
                (SCALE as u64) == 1_000_000_000,
        ;
    }
    let den = lhi - llo;
    let num = (lf - llo) * (SCALE as u64);
    let w = num / den;
    proof {
        lemma_div_pos_is_pos(num as int, den as int);
        assert((lf - llo) * (SCALE as u64) <= den * (SCALE as u64)) by (nonlinear_arith)
            requires
                lf - llo <= den,
                SCALE as u64 > 0,
        ;
        lemma_div_is_ordered(num as int, den * SCALE, den as int);
        lemma_div_multiples_vanish(SCALE as int, den as int);
    }
    let e = w * GAIN_CURVE_SPAN / (SCALE as u64);
    proof {
        assert(w * GAIN_CURVE_SPAN <= (SCALE as u64) * GAIN_CURVE_SPAN) by (nonlinear_arith)
            requires
                0 <= w <= SCALE as u64,
        ;
        lemma_div_is_ordered((w * GAIN_CURVE_SPAN) as int, SCALE * GAIN_CURVE_SPAN, SCALE as int);
        lemma_div_multiples_vanish(GAIN_CURVE_SPAN as int, SCALE as int);
        lemma_div_pos_is_pos((w * GAIN_CURVE_SPAN) as int, SCALE as int);
    }
    let k = e / 1024;
    proof {
        lemma_div_is_ordered(e as int, 6_720, 1024);
        vstd::arithmetic::div_mod::lemma_fundamental_div_mod(e as int, 1024);
    }
    let frac = e % 1024;
    let p = pow2_u64(k);
    proof {
        lemma_pow2_increases(k as nat, 6);
        reveal_with_fuel(pow2, 7);
        assert(pow2(6) == 64);
        if k <= 5 {
            lemma_pow2_increases(k as nat, 5);
            assert(pow2(5) == 32);
            assert(1024 <= p * (1024 + frac) <= 65_504) by (nonlinear_arith)
                requires
                    1 <= p <= 32,
                    1024 <= 1024 + frac <= 2047,
            ;
        } else {
            assert(frac <= 576);
            assert(1024 <= p * (1024 + frac) <= 102_400) by (nonlinear_arith)
                requires
                    1 <= p <= 64,
                    1024 <= 1024 + frac <= 1600,
            ;
        }
    }
    let denom = p * (1024 + frac);
    let gain = ((SCALE as u64) * 1024) / denom;
    proof {
        lemma_div_pos_is_pos((SCALE * 1024) as int, denom as int);
        lemma_div_is_ordered_by_denominator(SCALE * 1024, 1024, denom as int);
        lemma_div_is_ordered_by_denominator(SCALE * 1024, denom as int, 102_400);
        lemma_div_multiples_vanish(SCALE as int, 1024);
    }
    gain as i64
}

#[derive(Debug, Copy, Clone)]
pub struct Oscillator {
    /// Position inside the current cycle, in nano-cycles.
    pub phase: u64,
    /// This oscillator's own frequency (fundamental times ratio), millihertz.
    pub frequency: u64,
    pub sample_rate: u32,
    pub envelope: Envelope,
    pub waveform: Waveform,
    /// Gain in nano-units: amplitude ratio times equal-loudness gain.
    pub amp: i64,
    pub is_released: bool,
}

impl Oscillator {
    pub open spec fn wf(self) -> bool {
        &&& 0 <= self.phase < SCALE
        &&& self.frequency <= MAX_OSC_FREQUENCY
        &&& 1 <= self.sample_rate <= MAX_SAMPLE_RATE
        &&& self.envelope.wf()
        &&& 0 <= self.amp <= MAX_AMPLITUDE_RATIO
    }

    /// A fresh oscillator at the given frequency, waveform and amplitude
    /// ratio: phase zero, gain weighted by equal loudness, envelope in
    /// Attack.
    pub open spec fn spec_new(frequency: int, sample_rate: u32, waveform: Waveform, amp: int) -> Oscillator {
        Oscillator {
            phase: 0,
            frequency: frequency as u64,
            sample_rate,
            envelope: Envelope::spec_new(sample_rate),
            waveform,
            amp: spec_scale_down(amp * spec_iso_gain(frequency), SCALE as int) as i64,
            is_released: false,
        }
    }

    /// The oscillator a stop produces at a note fundamental: the stop's
    /// ratio scales the frequency, its amplitude ratio scales the gain.
    pub open spec fn spec_from_stop(stop: Stop, frequency: int, sample_rate: u32) -> Oscillator {
        Oscillator::spec_new(
            frequency * stop.frequency_ratio / 1000,
            sample_rate,
            stop.waveform,
            stop.amplitude_ratio as int,
        )
    }

    pub fn from_stop(stop: &Stop, frequency: u64, sample_rate: u32) -> (r: Oscillator)
        requires
            stop.valid(),
            frequency <= MAX_FREQUENCY,
            1 <= sample_rate <= MAX_SAMPLE_RATE,
        ensures
            r == Oscillator::spec_from_stop(*stop, frequency as int, sample_rate),
            r.wf(),
            !r.is_released,
    {
        proof {
            assert(frequency * stop.frequency_ratio <= 20_000_000_000_000) by (nonlinear_arith)
                requires
                    frequency <= MAX_FREQUENCY,
                    stop.frequency_ratio <= crate::units::MAX_FREQUENCY_RATIO,
            ;
            lemma_div_is_ordered(
                (frequency * stop.frequency_ratio) as int,
                20_000_000_000_000,
                1000,
            );
            lemma_div_pos_is_pos((frequency * stop.frequency_ratio) as int, 1000);
        }
        let f = frequency * stop.frequency_ratio / 1000;
        Self::new(f, sample_rate, stop.waveform, stop.amplitude_ratio)
    }

    pub fn new(frequency: u64, sample_rate: u32, waveform: Waveform, amp: i64) -> (r: Oscillator)
        requires
            frequency <= MAX_OSC_FREQUENCY,
            1 <= sample_rate <= MAX_SAMPLE_RATE,
            0 <= amp <= MAX_AMPLITUDE_RATIO,
        ensures
            r == Oscillator::spec_new(frequency as int, sample_rate, waveform, amp as int),
            r.wf(),
            !r.is_released,
    {
        let gain = iso_equal_loudness(frequency);
        proof {
            assert(amp * gain <= MAX_AMPLITUDE_RATIO * SCALE && amp * gain >= 0)
                by (nonlinear_arith)
                requires
                    0 <= amp <= MAX_AMPLITUDE_RATIO,
                    0 <= gain <= SCALE,
            ;
        }
        let weighted = mul_down(amp, gain, SCALE);
        proof {
            lemma_scale_down_bounded(amp * gain, SCALE as int, MAX_AMPLITUDE_RATIO as int);
        }
        Oscillator {
            phase: 0,
            frequency: detune(frequency),
            sample_rate,
            envelope: Envelope::new(sample_rate, frequency),
            waveform,
            amp: weighted,
            is_released: false,
        }
    }

    /// Phase increment per sample, in nano-cycles:
    /// `frequency * SCALE / (1000 * sample_rate)`.
    pub open spec fn spec_phase_delta(self) -> int {
        self.frequency * 1_000_000 / (self.sample_rate as int)
    }

    /// The oscillator one sample later: phase advanced and wrapped,
    /// envelope stepped.
    pub open spec fn spec_advanced(self) -> Oscillator {
        Oscillator {
            phase: ((self.phase + self.spec_phase_delta()) % (SCALE as int)) as u64,
            envelope: self.envelope.spec_next(),
            ..self
        }
    }

    /// The sample this step produces: the waveform at the advanced phase,
    /// scaled by the gain and by the stepped envelope's level.
    pub open spec fn spec_output(self) -> int {
        let adv = self.spec_advanced();
        spec_scale_down(
            spec_scale_down(
                self.waveform.spec_sample(adv.phase as int, self.frequency as int) * self.amp,
                SCALE as int,
            ) * adv.envelope.value,
            SCALE as int,
        )
    }

    /// Advance the phase and the envelope and produce one sample, always
    /// within `[-OSC_LIMIT, OSC_LIMIT]`.
    pub fn next_sample(&mut self) -> (r: i64)
        requires
            old(self).wf(),
        ensures
            *final(self) == old(self).spec_advanced(),
            final(self).wf(),
            r == old(self).spec_output(),
            -OSC_LIMIT <= r <= OSC_LIMIT,
    {
        let delta = self.frequency * 1_000_000 / (self.sample_rate as u64);
        self.phase = (self.phase + delta) % (SCALE as u64);
        let wave = self.waveform.generate_sample(self.phase, self.frequency);
        let level = self.envelope.next();
        proof {
            assert(wave * self.amp <= SCALE * MAX_AMPLITUDE_RATIO && wave * self.amp >= -(SCALE
                * MAX_AMPLITUDE_RATIO)) by (nonlinear_arith)
                requires
                    -SCALE <= wave <= SCALE,
                    0 <= self.amp <= MAX_AMPLITUDE_RATIO,
            ;
        }
        let scaled = mul_down(wave, self.amp, SCALE);
        proof {
            lemma_scale_down_bounded(
                wave * self.amp,
                SCALE as int,
                MAX_AMPLITUDE_RATIO as int,
            );
            assert(scaled * level <= MAX_AMPLITUDE_RATIO * SCALE && scaled * level >= -(
            MAX_AMPLITUDE_RATIO * SCALE)) by (nonlinear_arith)
                requires
                    -MAX_AMPLITUDE_RATIO <= scaled <= MAX_AMPLITUDE_RATIO,
                    0 <= level <= SCALE,
            ;
        }
        let r = mul_down(scaled, level, SCALE);
        proof {
            lemma_scale_down_bounded(scaled * level, SCALE as int, OSC_LIMIT as int);
        }
        r
    }

    /// The oscillator with its envelope released and itself marked so.
    pub open spec fn spec_released(self) -> Oscillator {
        Oscillator {
            envelope: Envelope { state: EnvelopeState::Release, ..self.envelope },
            is_released: true,
            ..self
        }
    }

    /// Release this oscillator's envelope; releasing twice is the same as
    /// releasing once.
    pub fn release(&mut self)
        ensures
            *final(self) == old(self).spec_released(),
    {
        self.envelope.trigger_release();
        self.is_released = true;
    }

    pub open spec fn spec_is_finished(self) -> bool {
        self.envelope.spec_is_finished()
    }

    /// Whether the envelope has released and decayed to silence.
    pub fn is_finished(&self) -> (r: bool)
        ensures
            r == self.spec_is_finished(),
    {
        self.envelope.is_finished()
    }

    /// What `matches_stop` compares against: the frequency and gain the
    /// stop would produce at the given fundamental — except that the gain
    /// uses the fundamental's own loudness compensation, not the partial
    /// frequency's. For ratios other than one the stored gain was built
    /// from the partial's frequency, so such partials usually fail to
    /// match and removal is a silent no-op — a deliberate choice, kept
    /// until oscillators carry their originating stop's identity instead.
    pub open spec fn spec_matches_stop(self, stop: Stop, frequency: int) -> bool {
        &&& self.frequency == frequency * stop.frequency_ratio / 1000
        &&& self.waveform == stop.waveform
        &&& self.amp == spec_scale_down(
            stop.amplitude_ratio * spec_iso_gain(frequency),
            SCALE as int,
        )
    }

    /// Whether this oscillator is the one the given stop would have
    /// produced at the given fundamental (exact integer comparison).
    pub fn matches_stop(&self, stop: &Stop, frequency: u64) -> (r: bool)
        requires
            stop.valid(),
            frequency <= MAX_FREQUENCY,
        ensures
            r == self.spec_matches_stop(*stop, frequency as int),
    {
        proof {
            assert(frequency * stop.frequency_ratio <= 20_000_000_000_000) by (nonlinear_arith)
                requires
                    frequency <= MAX_FREQUENCY,
                    stop.frequency_ratio <= crate::units::MAX_FREQUENCY_RATIO,
            ;
        }
        let cand_frequency = frequency * stop.frequency_ratio / 1000;
        let gain = iso_equal_loudness(frequency);
        proof {
            assert(stop.amplitude_ratio * gain <= MAX_AMPLITUDE_RATIO * SCALE
                && stop.amplitude_ratio * gain >= 0) by (nonlinear_arith)
                requires
                    0 <= stop.amplitude_ratio <= MAX_AMPLITUDE_RATIO,
                    0 <= gain <= SCALE,
            ;
        }
        let cand_amp = mul_down(stop.amplitude_ratio, gain, SCALE);
        self.frequency == cand_frequency && self.waveform == stop.waveform && self.amp == cand_amp
    }
}

} // verus!
