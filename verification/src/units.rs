//! Fixed-point units and numeric helpers shared by the synthesis core.
//!
//! - `SCALE` is 1.0 for signal values, gains, envelope levels and phase
//!   positions (nano-units).
//! - `PERMILLE` is 1.0 for filter coefficients and frequency ratios.
//! - Frequencies are u64 millihertz.
//!
//! Signed scaling always rounds toward zero (`spec_scale_down`), and mixing
//! saturates at `MIX_LIMIT` instead of wrapping.

use vstd::prelude::*;
use vstd::arithmetic::div_mod::{lemma_div_is_ordered, lemma_multiply_divide_lt, lemma_div_pos_is_pos};

verus! {

/// 1.0 in nano-units: waveform samples, gains and envelope levels.
pub const SCALE: i64 = 1_000_000_000;

/// The envelope's silence threshold and starting level: 1e-6 of full scale.
pub const EPSILON: i64 = 1_000;

/// 1.0 for filter coefficients and frequency ratios.
pub const PERMILLE: i64 = 1_000;

/// Saturation bound of the mixing bus: 4000 full-scale voices of headroom.
pub const MIX_LIMIT: i64 = 4_000_000_000_000;

/// Bound on every cell of the echo delay line: `MIX_LIMIT / (1 - 0.99)`,
/// the worst-case steady state under the maximal feedback coefficient.
pub const ECHO_LIMIT: i64 = 400_000_000_000_000;

/// Bound on a channel engine's output sample:
/// `MIX_LIMIT + ECHO_LIMIT`, the echo's mixed output bound.
pub const ENGINE_LIMIT: i64 = 404_000_000_000_000;

/// Largest accepted sample rate, in hertz.
pub const MAX_SAMPLE_RATE: u32 = 1_000_000;

/// Largest accepted note fundamental, in millihertz (20 kHz).
pub const MAX_FREQUENCY: u64 = 20_000_000;

/// Largest accepted frequency ratio of a stop, in permille (factor 1000).
pub const MAX_FREQUENCY_RATIO: u64 = 1_000_000;

/// Largest oscillator frequency: `MAX_FREQUENCY` times the largest ratio.
pub const MAX_OSC_FREQUENCY: u64 = 20_000_000_000;

/// Largest accepted amplitude ratio of a stop: a gain of 8.0.
pub const MAX_AMPLITUDE_RATIO: i64 = 8_000_000_000;

/// Bound on one oscillator's output sample: amplitude bound times full scale.
pub const OSC_LIMIT: i64 = 8_000_000_000;

/// Truncating (toward zero) signed division, the rounding used throughout
/// the signal path.
pub open spec fn spec_scale_down(x: int, d: int) -> int
    recommends
        d > 0,
{
    if x >= 0 {
        x / d
    } else {
        -((-x) / d)
    }
}

/// Saturation of a mixed sample at the bus headroom.
pub open spec fn spec_clamp_signal(x: int) -> int {
    if x > MIX_LIMIT {
        MIX_LIMIT as int
    } else if x < -MIX_LIMIT {
        -MIX_LIMIT as int
    } else {
        x
    }
}

/// Saturating left fold of a sequence of samples onto the mixing bus.
pub open spec fn spec_mix(s: Seq<int>) -> int
    decreases s.len(),
{
    if s.len() == 0 {
        0
    } else {
        spec_clamp_signal(spec_mix(s.drop_last()) + s.last())
    }
}

pub proof fn lemma_mix_bounded(s: Seq<int>)
    ensures
        -MIX_LIMIT <= spec_mix(s) <= MIX_LIMIT,
    decreases s.len(),
{
    if s.len() > 0 {
        lemma_mix_bounded(s.drop_last());
    }
}

/// Clamp a mixed sample to the bus headroom.
pub fn clamp_signal(x: i64) -> (r: i64)
    ensures
        r == spec_clamp_signal(x as int),
{
    if x > MIX_LIMIT {
        MIX_LIMIT
    } else if x < -MIX_LIMIT {
        -MIX_LIMIT
    } else {
        x
    }
}

/// Truncating signed division by a positive divisor.
pub fn scale_down(x: i64, d: i64) -> (r: i64)
    requires
        d > 0,
        x > i64::MIN,
    ensures
        r == spec_scale_down(x as int, d as int),
        x >= 0 ==> 0 <= r <= x,
        x < 0 ==> x <= r <= 0,
{
    if x >= 0 {
        proof {
            lemma_div_is_ordered(0, x as int, d as int);
            lemma_div_is_ordered(x as int, x as int, d as int);
            vstd::arithmetic::div_mod::lemma_div_nonincreasing(x as int, d as int);
        }
        ((x as u64) / (d as u64)) as i64
    } else {
        let m = ((-x) as u64) / (d as u64);
        proof {
            lemma_div_is_ordered(0, (-x) as int, d as int);
            vstd::arithmetic::div_mod::lemma_div_nonincreasing((-x) as int, d as int);
        }
        -(m as i64)
    }
}

/// `a * b / d`, rounded toward zero; the product is required to fit.
pub fn mul_down(a: i64, b: i64, d: i64) -> (r: i64)
    requires
        d > 0,
        -0x7fff_ffff_ffff_ffff <= (a as int) * (b as int) <= 0x7fff_ffff_ffff_ffff,
    ensures
        r == spec_scale_down((a as int) * (b as int), d as int),
        (a as int) * (b as int) >= 0 ==> 0 <= r <= (a as int) * (b as int),
        (a as int) * (b as int) < 0 ==> (a as int) * (b as int) <= r <= 0,
{
    let p = a * b;
    scale_down(p, d)
}

/// A product bounded by `d * b` scales down (by `d`) to a value bounded
/// by `b`.
pub proof fn lemma_scale_down_bounded(x: int, d: int, b: int)
    requires
        d > 0,
        b >= 0,
        -(d * b) <= x <= d * b,
    ensures
        -b <= spec_scale_down(x, d) <= b,
{
    vstd::arithmetic::div_mod::lemma_div_multiples_vanish(b, d);
    if x >= 0 {
        lemma_div_is_ordered(x, d * b, d);
        lemma_div_pos_is_pos(x, d);
    } else {
        lemma_div_is_ordered(-x, d * b, d);
        lemma_div_pos_is_pos(-x, d);
    }
}

/// 2 to the `k`, as a specification value.
pub open spec fn pow2(k: nat) -> nat
    decreases k,
{
    if k == 0 {
        1nat
    } else {
        2 * pow2((k - 1) as nat)
    }
}

pub proof fn lemma_pow2_pos(k: nat)
    ensures
        pow2(k) >= 1,
    decreases k,
{
    if k > 0 {
        lemma_pow2_pos((k - 1) as nat);
    }
}

/// Floor of the binary logarithm.
pub open spec fn spec_log2_floor(x: nat) -> nat
    recommends
        x >= 1,
    decreases x,
{
    if x < 2 {
        0nat
    } else {
        1 + spec_log2_floor(x / 2)
    }
}

pub proof fn lemma_log2_floor_bounds(x: nat)
    requires
        x >= 1,
    ensures
        pow2(spec_log2_floor(x)) <= x < 2 * pow2(spec_log2_floor(x)),
    decreases x,
{
    if x >= 2 {
        lemma_log2_floor_bounds(x / 2);
    }
}

pub proof fn lemma_log2_floor_unique(x: nat, k: nat)
    requires
        x >= 1,
        pow2(k) <= x < 2 * pow2(k),
    ensures
        spec_log2_floor(x) == k,
    decreases x,
{
    if k == 0 {
        assert(x < 2);
    } else {
        lemma_pow2_pos((k - 1) as nat);
        assert(pow2(k) == 2 * pow2((k - 1) as nat));
        assert(x >= 2);
        lemma_log2_floor_unique(x / 2, (k - 1) as nat);
    }
}

pub proof fn lemma_log2_floor_ordered(x: nat, y: nat)
    requires
        1 <= x <= y,
    ensures
        spec_log2_floor(x) <= spec_log2_floor(y),
    decreases y,
{
    if x >= 2 {
        lemma_log2_floor_ordered(x / 2, y / 2);
    }
}

/// The binary logarithm in thousandths, with the fractional part
/// approximated linearly inside each octave: for `pow2(k) <= x < pow2(k+1)`
/// the value is `1000 * k + 1000 * (x - pow2(k)) / pow2(k)`.
pub open spec fn spec_log2_milli(x: nat) -> int
    recommends
        x >= 1,
{
    spec_log2_floor(x) * 1000 + (x - pow2(spec_log2_floor(x))) * 1000 / (pow2(spec_log2_floor(x)) as int)
}

pub proof fn lemma_log2_milli_bounds(x: nat)
    requires
        x >= 1,
    ensures
        spec_log2_floor(x) * 1000 <= spec_log2_milli(x) < spec_log2_floor(x) * 1000 + 1000,
{
    let k = spec_log2_floor(x);
    let p = pow2(k) as int;
    lemma_log2_floor_bounds(x);
    lemma_pow2_pos(k);
    lemma_div_pos_is_pos((x - p) * 1000, p);
    lemma_multiply_divide_lt((x - p) * 1000, p, 1000);
}

/// `spec_log2_milli` never decreases as its argument grows.
pub proof fn lemma_log2_milli_ordered(x: nat, y: nat)
    requires
        1 <= x <= y,
    ensures
        spec_log2_milli(x) <= spec_log2_milli(y),
{
    let kx = spec_log2_floor(x);
    let ky = spec_log2_floor(y);
    lemma_log2_floor_ordered(x, y);
    lemma_log2_floor_bounds(x);
    lemma_log2_floor_bounds(y);
    lemma_pow2_pos(kx);
    lemma_pow2_pos(ky);
    if kx == ky {
        lemma_div_is_ordered((x - pow2(kx)) * 1000, (y - pow2(ky)) * 1000, pow2(kx) as int);
    } else {
        lemma_log2_milli_bounds(x);
        lemma_log2_milli_bounds(y);
        assert(kx * 1000 + 1000 <= ky * 1000) by (nonlinear_arith)
            requires
                kx + 1 <= ky,
        ;
    }
}

/// `pow2(21)`, the largest power this crate raises two to.
pub proof fn lemma_pow2_21()
    ensures
        pow2(21) == 2_097_152,
{
    reveal_with_fuel(pow2, 22);
}

/// `pow2(50)`, an upper bound used by the logarithm.
pub proof fn lemma_pow2_50()
    ensures
        pow2(50) == 0x4_0000_0000_0000,
{
    reveal_with_fuel(pow2, 51);
}

/// 2 to the `k`, executable.
pub fn pow2_u64(k: u64) -> (r: u64)
    requires
        k <= 21,
    ensures
        r == pow2(k as nat),
        1 <= r <= 2_097_152,
{
    let mut i: u64 = 0;
    let mut p: u64 = 1;
    proof {
        lemma_pow2_21();
        lemma_pow2_increases(0, 21);
    }
    while i < k
        invariant
            i <= k <= 21,
            p == pow2(i as nat),
            1 <= p <= 2_097_152,
        decreases k - i,
    {
        proof {
            lemma_pow2_21();
            lemma_pow2_increases(i as nat + 1, 21);
        }
        p = p * 2;
        i = i + 1;
    }
    p
}

pub proof fn lemma_pow2_increases(a: nat, b: nat)
    requires
        a <= b,
    ensures
        pow2(a) <= pow2(b),
    decreases b,
{
    if a < b {
        lemma_pow2_increases(a, (b - 1) as nat);
        lemma_pow2_pos((b - 1) as nat);
    }
}

/// The binary logarithm in thousandths, executable.
pub fn log2_milli(x: u64) -> (r: u64)
    requires
        1 <= x <= 1_000_000_000_000_000,
    ensures
        r == spec_log2_milli(x as nat),
        r <= 50_000,
{
    let mut k: u64 = 0;
    let mut p: u64 = 1;
    while p <= x / 2
        invariant
            1 <= x <= 1_000_000_000_000_000,
            p == pow2(k as nat),
            1 <= p <= x,
            k <= 50,
        decreases x - p,
    {
        proof {
            if k >= 50 {
                lemma_pow2_increases(50, k as nat);
                lemma_pow2_50();
            }
        }
        p = p * 2;
        k = k + 1;
    }
    assert(x < 2 * p);
    proof {
        lemma_log2_floor_unique(x as nat, k as nat);
        if k >= 50 {
            lemma_pow2_increases(50, k as nat);
            lemma_pow2_50();
        }
    }
    let frac = (x - p) * 1000 / p;
    proof {
        lemma_div_pos_is_pos(((x - p) * 1000) as int, p as int);
        lemma_multiply_divide_lt(((x - p) * 1000) as int, p as int, 1000);
    }
    k * 1000 + frac
}

} // verus!
