//! Waveform generators: pure functions of phase (and, for the blended
//! variant, frequency) to a sample in `[-SCALE, SCALE]`.
//!
//! The phase is a position inside one cycle, in nano-cycles (`0 <= phase <
//! SCALE`). The sine is a piecewise-parabolic approximation, the standard
//! fixed-point shape; square, sawtooth and triangle are exact. The
//! `Triangle` variant is the "organ" voice: it cross-fades from sine to a
//! triangle shape as the frequency rises from `LOW_BLEND_FREQUENCY` to
//! `HIGH_BLEND_FREQUENCY`, with the position normalized logarithmically
//! (the base of the logarithm cancels, so the binary one is used).

use vstd::prelude::*;
use vstd::arithmetic::div_mod::{lemma_div_is_ordered, lemma_div_multiples_vanish, lemma_div_pos_is_pos};
use crate::units::{
    log2_milli, mul_down, scale_down, spec_log2_milli, spec_scale_down,
    lemma_log2_milli_ordered, lemma_log2_milli_bounds, lemma_log2_floor_unique, lemma_pow2_21,
    lemma_pow2_increases, pow2,
    MAX_OSC_FREQUENCY, SCALE,
};

verus! {

/// Half a cycle, in nano-cycles.
pub const HALF_CYCLE: i64 = 500_000_000;

/// Below this frequency (millihertz) the blended voice is pure sine.
pub const LOW_BLEND_FREQUENCY: u64 = 20_000;

/// Above this frequency (millihertz) the blended voice is pure triangle.
pub const HIGH_BLEND_FREQUENCY: u64 = 2_000_000;

#[derive(Debug, Copy, Clone, PartialEq, Eq, Structural)]
pub enum Waveform {
    Sine,
    Square,
    Sawtooth,
    Triangle,
}

/// A phase position is valid inside one cycle.
pub open spec fn spec_phase_valid(phase: int) -> bool {
    0 <= phase < SCALE
}

/// Piecewise-parabolic sine: each half cycle is the parabola through its
/// zero crossings peaking at full scale.
pub open spec fn spec_sine(phase: int) -> int {
    if phase < HALF_CYCLE {
        spec_scale_down(16 * phase * (HALF_CYCLE - phase), SCALE as int)
    } else {
        -spec_scale_down(16 * (phase - HALF_CYCLE) * (SCALE - phase), SCALE as int)
    }
}

pub open spec fn spec_square(phase: int) -> int {
    if phase < HALF_CYCLE {
        SCALE as int
    } else {
        -SCALE as int
    }
}

pub open spec fn spec_sawtooth(phase: int) -> int {
    2 * phase - SCALE
}

pub open spec fn spec_triangle(phase: int) -> int {
    if phase < HALF_CYCLE {
        4 * phase - SCALE
    } else {
        3 * SCALE - 4 * phase
    }
}

/// Cross-fade weight of the blended voice: 0 at or below the low reference,
/// full scale at or above the high one, the logarithmic position in between.
pub open spec fn spec_blend(frequency: int) -> int {
    if frequency <= LOW_BLEND_FREQUENCY {
        0
    } else {
        let num = (spec_log2_milli(frequency as nat) - spec_log2_milli(LOW_BLEND_FREQUENCY as nat))
            * SCALE;
        let den = spec_log2_milli(HIGH_BLEND_FREQUENCY as nat) - spec_log2_milli(
            LOW_BLEND_FREQUENCY as nat,
        );
        if num / den > SCALE {
            SCALE as int
        } else {
            num / den
        }
    }
}

/// The blended "organ" sample: sine and triangle mixed by the blend weight.
pub open spec fn spec_organ(phase: int, frequency: int) -> int {
    spec_scale_down(
        (SCALE - spec_blend(frequency)) * spec_sine(phase) + spec_blend(frequency) * spec_triangle(
            phase,
        ),
        SCALE as int,
    )
}

impl Waveform {
    /// What one cycle of this waveform yields at `phase`, for a voice at
    /// `frequency`; only the blended variant reads the frequency.
    pub open spec fn spec_sample(self, phase: int, frequency: int) -> int {
        match self {
            Waveform::Sine => spec_sine(phase),
            Waveform::Square => spec_square(phase),
            Waveform::Sawtooth => spec_sawtooth(phase),
            Waveform::Triangle => spec_organ(phase, frequency),
        }
    }

    /// Evaluate the waveform; the result never leaves `[-SCALE, SCALE]`.
    pub fn generate_sample(&self, phase: u64, frequency: u64) -> (r: i64)
        requires
            spec_phase_valid(phase as int),
            frequency <= MAX_OSC_FREQUENCY,
        ensures
            r == self.spec_sample(phase as int, frequency as int),
            -SCALE <= r <= SCALE,
    {
        match self {
            Waveform::Sine => Self::generate_sine_sample(phase),
            Waveform::Square => Self::generate_square_sample(phase),
            Waveform::Sawtooth => Self::generate_sawtooth_sample(phase),
            Waveform::Triangle => Self::generate_organ_sample(phase, frequency),
        }
    }

    fn generate_sine_sample(phase: u64) -> (r: i64)
        requires
            spec_phase_valid(phase as int),
        ensures
            r == spec_sine(phase as int),
            -SCALE <= r <= SCALE,
    {
        let x = phase as i64;
        if x < HALF_CYCLE {
            proof {
                lemma_parabola_bounds(x as int, HALF_CYCLE - x);
            }
            let r = mul_down(16 * x, HALF_CYCLE - x, SCALE);
            proof {
                lemma_div_is_ordered(16 * x * (HALF_CYCLE - x), SCALE * SCALE, SCALE as int);
                lemma_div_multiples_vanish(SCALE as int, SCALE as int);
            }
            r
        } else {
            proof {
                lemma_parabola_bounds(x - HALF_CYCLE, SCALE - x);
            }
            let r = mul_down(16 * (x - HALF_CYCLE), SCALE - x, SCALE);
            proof {
                lemma_div_is_ordered(
                    16 * (x - HALF_CYCLE) * (SCALE - x),
                    SCALE * SCALE,
                    SCALE as int,
                );
                lemma_div_multiples_vanish(SCALE as int, SCALE as int);
            }
            -r
        }
    }

    fn generate_square_sample(phase: u64) -> (r: i64)
        requires
            spec_phase_valid(phase as int),
        ensures
            r == spec_square(phase as int),
            -SCALE <= r <= SCALE,
    {
        if phase < HALF_CYCLE as u64 {
            SCALE
        } else {
            -SCALE
        }
    }

    fn generate_sawtooth_sample(phase: u64) -> (r: i64)
        requires
            spec_phase_valid(phase as int),
        ensures
            r == spec_sawtooth(phase as int),
            -SCALE <= r <= SCALE,
    {
        2 * (phase as i64) - SCALE
    }

    fn generate_triangle_sample(phase: u64) -> (r: i64)
        requires
            spec_phase_valid(phase as int),
        ensures
            r == spec_triangle(phase as int),
            -SCALE <= r <= SCALE,
    {
        let x = phase as i64;
        if x < HALF_CYCLE {
            4 * x - SCALE
        } else {
            3 * SCALE - 4 * x
        }
    }

    fn generate_organ_sample(phase: u64, frequency: u64) -> (r: i64)
        requires
            spec_phase_valid(phase as int),
            frequency <= MAX_OSC_FREQUENCY,
        ensures
            r == spec_organ(phase as int, frequency as int),
            -SCALE <= r <= SCALE,
    {
        let w = blend_weight(frequency);
        let s = Self::generate_sine_sample(phase);
        let t = Self::generate_triangle_sample(phase);
        proof {
            assert((SCALE - w) * s <= SCALE * SCALE && (SCALE - w) * s >= -(SCALE * SCALE)
                && w * t <= SCALE * SCALE && w * t >= -(SCALE * SCALE) && (SCALE - w) * s + w * t
                <= SCALE * SCALE && (SCALE - w) * s + w * t >= -(SCALE * SCALE))
                by (nonlinear_arith)
                requires
                    0 <= w <= SCALE,
                    -SCALE <= s <= SCALE,
                    -SCALE <= t <= SCALE,
            ;
        }
        let mixed = (SCALE - w) * s + w * t;
        let r = scale_down(mixed, SCALE);
        proof {
            lemma_scale_square_bounded(mixed as int);
        }
        r
    }

    /// The waveform a configuration name denotes, if any.
    pub open spec fn spec_parse(name: Seq<char>) -> Option<Waveform> {
        if name == "sine"@ {
            Some(Waveform::Sine)
        } else if name == "square"@ {
            Some(Waveform::Square)
        } else if name == "sawtooth"@ {
            Some(Waveform::Sawtooth)
        } else if name == "triangle"@ {
            Some(Waveform::Triangle)
        } else {
            None
        }
    }

    /// Parse a waveform name from a configuration file.
    pub fn parse(name: &String) -> (r: Option<Waveform>)
        ensures
            r == Waveform::spec_parse(name@),
    {
        proof {
            reveal_strlit("sine");
            reveal_strlit("square");
            reveal_strlit("sawtooth");
            reveal_strlit("triangle");
            assert("sine"@.len() == 4);
            assert("square"@.len() == 6);
            assert("sawtooth"@.len() == 8);
            assert("triangle"@.len() == 8);
            assert("sawtooth"@[0] == 's');
            assert("triangle"@[0] == 't');
        }
        if *name == "sine".to_owned() {
            Some(Waveform::Sine)
        } else if *name == "square".to_owned() {
            Some(Waveform::Square)
        } else if *name == "sawtooth".to_owned() {
            Some(Waveform::Sawtooth)
        } else if *name == "triangle".to_owned() {
            Some(Waveform::Triangle)
        } else {
            None
        }
    }
}

/// The blend weight of the blended voice, executable.
fn blend_weight(frequency: u64) -> (r: i64)
    requires
        frequency <= MAX_OSC_FREQUENCY,
    ensures
        r == spec_blend(frequency as int),
        0 <= r <= SCALE,
{
    if frequency <= LOW_BLEND_FREQUENCY {
        return 0;
    }
    let lf = log2_milli(frequency);
    let llo = log2_milli(LOW_BLEND_FREQUENCY);
    let lhi = log2_milli(HIGH_BLEND_FREQUENCY);
    proof {
        lemma_blend_references();
        lemma_log2_milli_ordered(LOW_BLEND_FREQUENCY as nat, frequency as nat);
        assert((lf - llo) * (SCALE as u64) <= 50_000_000_000_000) by (nonlinear_arith)
            requires
                0 <= lf - llo <= 50_000,
                (SCALE as u64) == 1_000_000_000,
        ;
    }
    let num = (lf - llo) * (SCALE as u64);
    let den = lhi - llo;
    let q = num / den;
    proof {
        lemma_div_pos_is_pos(num as int, den as int);
    }
    if q > SCALE as u64 {
        SCALE
    } else {
        q as i64
    }
}

/// The two blend references in milli-log2 units: the low one lies in the
/// fifteenth octave, the high one in the twenty-first, so their distance is
/// positive (and below 7000).
pub proof fn lemma_blend_references()
    ensures
        14_000 <= spec_log2_milli(LOW_BLEND_FREQUENCY as nat) < 15_000,
        20_000 <= spec_log2_milli(HIGH_BLEND_FREQUENCY as nat) < 21_000,
{
    lemma_pow2_21();
    lemma_pow2_increases(14, 21);
    lemma_pow2_increases(15, 21);
    lemma_pow2_increases(20, 21);
    reveal_with_fuel(pow2, 22);
    assert(pow2(14) == 16_384);
    assert(pow2(15) == 32_768);
    assert(pow2(20) == 1_048_576);
    lemma_log2_floor_unique(LOW_BLEND_FREQUENCY as nat, 14);
    lemma_log2_floor_unique(HIGH_BLEND_FREQUENCY as nat, 20);
    lemma_log2_milli_bounds(LOW_BLEND_FREQUENCY as nat);
    lemma_log2_milli_bounds(HIGH_BLEND_FREQUENCY as nat);
}

/// Law: at or below the low reference frequency the blended voice is the
/// pure sine.
pub proof fn lemma_organ_pure_sine(phase: int, frequency: int)
    requires
        spec_phase_valid(phase),
        0 <= frequency <= LOW_BLEND_FREQUENCY,
    ensures
        spec_organ(phase, frequency) == spec_sine(phase),
{
    let s = spec_sine(phase);
    lemma_sine_bounded(phase);
    assert((SCALE - spec_blend(frequency)) * s + spec_blend(frequency) * spec_triangle(phase)
        == SCALE * s) by (nonlinear_arith)
        requires
            spec_blend(frequency) == 0,
    ;
    lemma_times_scale_div(s);
}

/// Law: at or above the high reference frequency the blended voice is the
/// pure triangle shape.
pub proof fn lemma_organ_pure_triangle(phase: int, frequency: int)
    requires
        spec_phase_valid(phase),
        HIGH_BLEND_FREQUENCY <= frequency <= MAX_OSC_FREQUENCY,
    ensures
        spec_organ(phase, frequency) == spec_triangle(phase),
{
    lemma_blend_saturates(frequency);
    let t = spec_triangle(phase);
    assert((SCALE - spec_blend(frequency)) * spec_sine(phase) + spec_blend(frequency) * t
        == SCALE * t) by (nonlinear_arith)
        requires
            spec_blend(frequency) == SCALE,
    ;
    lemma_times_scale_div(t);
}

/// At or above the high reference the blend weight saturates at full scale.
pub proof fn lemma_blend_saturates(frequency: int)
    requires
        HIGH_BLEND_FREQUENCY <= frequency <= MAX_OSC_FREQUENCY,
    ensures
        spec_blend(frequency) == SCALE,
{
    lemma_blend_references();
    lemma_log2_milli_ordered(HIGH_BLEND_FREQUENCY as nat, frequency as nat);
    let llo = spec_log2_milli(LOW_BLEND_FREQUENCY as nat);
    let lhi = spec_log2_milli(HIGH_BLEND_FREQUENCY as nat);
    let lf = spec_log2_milli(frequency as nat);
    let den = lhi - llo;
    let num = (lf - llo) * SCALE;
    assert((lf - llo) * SCALE >= den * SCALE) by (nonlinear_arith)
        requires
            lf - llo >= den,
            den > 0,
    ;
    lemma_div_is_ordered(den * SCALE, num, den);
    vstd::arithmetic::div_mod::lemma_div_multiples_vanish(SCALE as int, den);
    assert(num / den >= SCALE);
}

/// `x * SCALE / SCALE == x`, also under truncating division.
proof fn lemma_times_scale_div(x: int)
    ensures
        spec_scale_down(SCALE * x, SCALE as int) == x,
{
    if SCALE * x >= 0 {
        lemma_div_multiples_vanish(x, SCALE as int);
    } else {
        assert(-(SCALE * x) == SCALE * (-x)) by (nonlinear_arith);
        lemma_div_multiples_vanish(-x, SCALE as int);
    }
}

/// The parabola `16 * a * b` stays within `SCALE * SCALE` when `a + b` is
/// half a cycle.
proof fn lemma_parabola_bounds(a: int, b: int)
    requires
        0 <= a,
        0 <= b,
        a + b == HALF_CYCLE,
    ensures
        0 <= 16 * a * b <= SCALE * SCALE,
{
    assert(0 <= 16 * a * b <= SCALE * SCALE) by (nonlinear_arith)
        requires
            0 <= a,
            0 <= b,
            a + b == HALF_CYCLE,
    ;
}

/// A value bounded by `SCALE * SCALE` scales down to a valid sample.
proof fn lemma_scale_square_bounded(x: int)
    requires
        -(SCALE * SCALE) <= x <= SCALE * SCALE,
    ensures
        -SCALE <= spec_scale_down(x, SCALE as int) <= SCALE,
{
    lemma_div_multiples_vanish(SCALE as int, SCALE as int);
    if x >= 0 {
        lemma_div_is_ordered(x, SCALE * SCALE, SCALE as int);
        lemma_div_pos_is_pos(x, SCALE as int);
    } else {
        lemma_div_is_ordered(-x, SCALE * SCALE, SCALE as int);
        lemma_div_pos_is_pos(-x, SCALE as int);
    }
}

/// The sine approximation never leaves `[-SCALE, SCALE]`.
pub proof fn lemma_sine_bounded(phase: int)
    requires
        spec_phase_valid(phase),
    ensures
        -SCALE <= spec_sine(phase) <= SCALE,
{
    if phase < HALF_CYCLE {
        lemma_parabola_bounds(phase, HALF_CYCLE - phase);
        lemma_scale_square_bounded(16 * phase * (HALF_CYCLE - phase));
    } else {
        lemma_parabola_bounds(phase - HALF_CYCLE, SCALE - phase);
        lemma_scale_square_bounded(16 * (phase - HALF_CYCLE) * (SCALE - phase));
    }
}

} // verus!
