//! The per-oscillator amplitude envelope: a linear
//! attack/decay/sustain/release state machine, stepped once per sample.
//!
//! Levels are in nano-units (`SCALE` is full level). The envelope starts at
//! `EPSILON` (1e-6) rather than zero to avoid a click, ramps linearly to full
//! level, holds it, and after an explicit release trigger ramps linearly back
//! to zero. The decay stage exists for completeness but is configured to a
//! zero decay time, so it would fall to the sustain level in a single sample;
//! no current preset enters it.

use vstd::prelude::*;
use vstd::arithmetic::div_mod::{lemma_div_pos_is_pos, lemma_fundamental_div_mod, lemma_multiply_divide_lt};
use crate::units::{EPSILON, MAX_SAMPLE_RATE, SCALE};

verus! {

/// Attack time in milliseconds.
pub const ATTACK_MILLIS: u64 = 50;

/// Release time in milliseconds.
pub const RELEASE_MILLIS: u64 = 100;

#[derive(Debug, Copy, Clone, PartialEq, Eq, Structural)]
pub enum EnvelopeState {
    Attack,
    Decay,
    Sustain,
    Release,
    Idle,
}

#[derive(Debug, Copy, Clone)]
pub struct Envelope {
    /// Current level in nano-units, between 0 and `SCALE`.
    pub value: i64,
    /// Per-sample increment while attacking.
    pub attack_step: i64,
    /// Per-sample decrement while decaying.
    pub decay_step: i64,
    /// Per-sample decrement while releasing.
    pub release_step: i64,
    pub state: EnvelopeState,
    pub sample_rate: u32,
}

/// Number of samples a stage of `millis` milliseconds spans at `rate`
/// (rounded up, at least one).
pub open spec fn spec_stage_samples(rate: u32, millis: u64) -> int {
    if (rate * millis + 999) / 1000 >= 1 {
        (rate * millis + 999) / 1000
    } else {
        1
    }
}

/// Per-sample level step that crosses full scale in `samples` steps
/// (the ceiling of `SCALE / samples`).
pub open spec fn spec_stage_step(samples: int) -> int
    recommends
        samples >= 1,
{
    (SCALE + samples - 1) / samples
}

impl Envelope {
    /// Well-formedness: the level is a valid gain and the steps are positive
    /// and no larger than full scale.
    pub open spec fn wf(self) -> bool {
        &&& 0 <= self.value <= SCALE
        &&& 1 <= self.attack_step <= SCALE
        &&& 1 <= self.decay_step <= SCALE
        &&& 1 <= self.release_step <= SCALE
        &&& 1 <= self.sample_rate <= MAX_SAMPLE_RATE
    }

    /// The successor state of one envelope step.
    pub open spec fn spec_next(self) -> Envelope {
        match self.state {
            EnvelopeState::Attack => {
                if self.value + self.attack_step >= SCALE {
                    Envelope { value: SCALE, state: EnvelopeState::Sustain, ..self }
                } else {
                    Envelope { value: (self.value + self.attack_step) as i64, ..self }
                }
            },
            EnvelopeState::Release => {
                if self.value - self.release_step <= 0 {
                    Envelope { value: 0, ..self }
                } else {
                    Envelope { value: (self.value - self.release_step) as i64, ..self }
                }
            },
            EnvelopeState::Decay => {
                if self.value - self.decay_step <= 0 {
                    Envelope { value: 0, state: EnvelopeState::Sustain, ..self }
                } else {
                    Envelope { value: (self.value - self.decay_step) as i64, ..self }
                }
            },
            _ => self,
        }
    }

    /// The envelope after `n` steps.
    pub open spec fn spec_iterate(self, n: nat) -> Envelope
        decreases n,
    {
        if n == 0 {
            self
        } else {
            self.spec_next().spec_iterate((n - 1) as nat)
        }
    }

    /// Finished means: released, and decayed below the silence threshold.
    pub open spec fn spec_is_finished(self) -> bool {
        self.state == EnvelopeState::Release && self.value <= EPSILON
    }

    /// A fresh envelope: in Attack at the near-silent starting level, with
    /// stage steps derived from the sample rate.
    pub open spec fn spec_new(sample_rate: u32) -> Envelope {
        Envelope {
            value: EPSILON,
            attack_step: spec_stage_step(spec_stage_samples(sample_rate, ATTACK_MILLIS)) as i64,
            decay_step: SCALE,
            release_step: spec_stage_step(spec_stage_samples(sample_rate, RELEASE_MILLIS)) as i64,
            state: EnvelopeState::Attack,
            sample_rate,
        }
    }

    /// Build an envelope for one oscillator. The `_frequency` argument is
    /// kept for a future frequency-dependent release time; the current
    /// stage times are fixed.
    pub fn new(sample_rate: u32, _frequency: u64) -> (r: Envelope)
        requires
            1 <= sample_rate <= MAX_SAMPLE_RATE,
        ensures
            r == Envelope::spec_new(sample_rate),
            r.wf(),
    {
        let attack_step = stage_step(sample_rate, ATTACK_MILLIS);
        let release_step = stage_step(sample_rate, RELEASE_MILLIS);
        Envelope {
            value: EPSILON,
            attack_step,
            // A zero decay time: the level would fall to zero in one sample.
            decay_step: SCALE,
            release_step,
            state: EnvelopeState::Attack,
            sample_rate,
        }
    }

    /// Advance the envelope by one sample and return the new level.
    ///
    /// In Attack the level never decreases; in Release it never increases
    /// and never drops below zero.
    pub fn next(&mut self) -> (r: i64)
        requires
            old(self).wf(),
        ensures
            *final(self) == old(self).spec_next(),
            final(self).wf(),
            r == final(self).value,
    {
        match self.state {
            EnvelopeState::Attack => {
                let v = self.value + self.attack_step;
                if v >= SCALE {
                    self.value = SCALE;
                    self.state = EnvelopeState::Sustain;
                } else {
                    self.value = v;
                }
            },
            EnvelopeState::Release => {
                let v = self.value - self.release_step;
                if v <= 0 {
                    self.value = 0;
                } else {
                    self.value = v;
                }
            },
            EnvelopeState::Decay => {
                let v = self.value - self.decay_step;
                if v <= 0 {
                    self.value = 0;
                    self.state = EnvelopeState::Sustain;
                } else {
                    self.value = v;
                }
            },
            _ => {},
        }
        self.value
    }

    /// Whether the envelope has released and decayed to silence.
    pub fn is_finished(&self) -> (r: bool)
        ensures
            r == self.spec_is_finished(),
    {
        match self.state {
            EnvelopeState::Release => self.value <= EPSILON,
            _ => false,
        }
    }

    /// Enter the release stage; the level then ramps down from wherever
    /// it stands. Triggering again changes nothing.
    pub fn trigger_release(&mut self)
        ensures
            *final(self) == (Envelope { state: EnvelopeState::Release, ..*old(self) }),
    {
        self.state = EnvelopeState::Release;
    }
}

/// Executable counterpart of `spec_stage_samples` composed with
/// `spec_stage_step`.
fn stage_step(rate: u32, millis: u64) -> (r: i64)
    requires
        1 <= rate <= MAX_SAMPLE_RATE,
        millis <= 1000,
    ensures
        r == spec_stage_step(spec_stage_samples(rate, millis)),
        1 <= r <= SCALE,
{
    proof {
        assert((rate as int) * (millis as int) <= 1_000_000_000) by (nonlinear_arith)
            requires
                0 <= rate <= 1_000_000,
                0 <= millis <= 1000,
        ;
    }
    let prod = (rate as u64) * millis;
    let mut samples = (prod + 999) / 1000;
    proof {
        vstd::arithmetic::div_mod::lemma_div_nonincreasing(prod + 999, 1000);
    }
    if samples < 1 {
        samples = 1;
    }
    assert(samples <= 1_000_001_000);
    let step = ((SCALE as u64) + samples - 1) / samples;
    proof {
        lemma_div_pos_is_pos(SCALE + samples - 1, samples as int);
        lemma_multiply_divide_lt(SCALE + samples - 1, samples as int, SCALE + 1);
        assert((samples as int) * (SCALE + 1) > SCALE + samples - 1) by (nonlinear_arith)
            requires
                samples >= 1,
        ;
        lemma_div_pos_is_pos(SCALE as int, samples as int);
        vstd::arithmetic::div_mod::lemma_div_non_zero(SCALE + samples - 1, samples as int);
    }
    step as i64
}

/// Law: an envelope in Attack reaches full level and the Sustain state
/// after `n` steps, once `n` steps of attack increment cover the distance
/// to full scale; it then stays there.
pub proof fn lemma_attack_reaches_sustain(e: Envelope, n: nat)
    requires
        e.wf(),
        e.state == EnvelopeState::Attack,
        n >= 1,
        e.value + n * e.attack_step >= SCALE,
    ensures
        e.spec_iterate(n).state == EnvelopeState::Sustain,
        e.spec_iterate(n).value == SCALE,
    decreases n,
{
    let e1 = e.spec_next();
    if e.value + e.attack_step >= SCALE {
        lemma_sustain_stays(e1, (n - 1) as nat);
    } else {
        assert(n > 1) by (nonlinear_arith)
            requires
                n * e.attack_step >= SCALE - e.value,
                e.attack_step < SCALE - e.value,
                n >= 1,
        ;
        assert(e1.value + (n - 1) * e.attack_step >= SCALE) by (nonlinear_arith)
            requires
                e1.value == e.value + e.attack_step,
                e.value + n * e.attack_step >= SCALE,
                n >= 1,
        ;
        lemma_attack_reaches_sustain(e1, (n - 1) as nat);
    }
}

/// Law: the Sustain state holds its level forever (no decay stage runs).
pub proof fn lemma_sustain_stays(e: Envelope, n: nat)
    requires
        e.state == EnvelopeState::Sustain,
    ensures
        e.spec_iterate(n) == e,
    decreases n,
{
    if n > 0 {
        lemma_sustain_stays(e, (n - 1) as nat);
    }
}

/// Law: one Attack step never lowers the level, and one Release step never
/// raises it nor takes it below zero.
pub proof fn lemma_step_monotone(e: Envelope)
    requires
        e.wf(),
    ensures
        e.state == EnvelopeState::Attack ==> e.spec_next().value >= e.value,
        e.state == EnvelopeState::Release ==> 0 <= e.spec_next().value <= e.value,
{
}

/// Law: a released envelope reaches level zero after `n` steps, once `n`
/// steps of release decrement cover its level; release never ends on its
/// own, so it stays at zero.
pub proof fn lemma_release_reaches_zero(e: Envelope, n: nat)
    requires
        e.wf(),
        e.state == EnvelopeState::Release,
        n >= 1,
        n * e.release_step >= e.value,
    ensures
        e.spec_iterate(n).state == EnvelopeState::Release,
        e.spec_iterate(n).value == 0,
    decreases n,
{
    let e1 = e.spec_next();
    if e.value - e.release_step <= 0 {
        lemma_release_zero_stays(e1, (n - 1) as nat);
    } else {
        assert(n > 1) by (nonlinear_arith)
            requires
                n * e.release_step >= e.value,
                e.release_step < e.value,
                n >= 1,
        ;
        assert((n - 1) * e.release_step >= e1.value) by (nonlinear_arith)
            requires
                e1.value == e.value - e.release_step,
                n * e.release_step >= e.value,
                n >= 1,
        ;
        lemma_release_reaches_zero(e1, (n - 1) as nat);
    }
}

proof fn lemma_release_zero_stays(e: Envelope, n: nat)
    requires
        e.wf(),
        e.state == EnvelopeState::Release,
        e.value == 0,
    ensures
        e.spec_iterate(n) == e,
    decreases n,
{
    if n > 0 {
        lemma_release_zero_stays(e, (n - 1) as nat);
    }
}

/// Law: a fresh envelope reaches full level and Sustain within the attack
/// stage's sample count (`ceil(attack_seconds * sample_rate)` samples).
pub proof fn lemma_new_envelope_completes_attack(rate: u32, n: nat)
    requires
        1 <= rate <= MAX_SAMPLE_RATE,
        n >= spec_stage_samples(rate, ATTACK_MILLIS),
    ensures
        Envelope::spec_new(rate).spec_iterate(n).state == EnvelopeState::Sustain,
        Envelope::spec_new(rate).spec_iterate(n).value == SCALE,
{
    let e = Envelope::spec_new(rate);
    let samples = spec_stage_samples(rate, ATTACK_MILLIS);
    lemma_stage_step_covers(samples);
    lemma_stage_step_wf(rate, ATTACK_MILLIS);
    lemma_stage_step_wf(rate, RELEASE_MILLIS);
    assert(n * e.attack_step >= samples * e.attack_step) by (nonlinear_arith)
        requires
            n >= samples,
            samples >= 1,
            e.attack_step >= 1,
    ;
    lemma_attack_reaches_sustain(e, n);
}

/// Law: an envelope released at any level reaches zero within the release
/// stage's sample count (`ceil(release_seconds * sample_rate)` samples).
pub proof fn lemma_released_envelope_decays(e: Envelope, rate: u32, n: nat)
    requires
        e.wf(),
        e.state == EnvelopeState::Release,
        e.release_step == spec_stage_step(spec_stage_samples(rate, RELEASE_MILLIS)),
        1 <= rate <= MAX_SAMPLE_RATE,
        n >= spec_stage_samples(rate, RELEASE_MILLIS),
    ensures
        e.spec_iterate(n).value == 0,
        e.spec_iterate(n).spec_is_finished(),
{
    let samples = spec_stage_samples(rate, RELEASE_MILLIS);
    lemma_stage_step_covers(samples);
    assert(n * e.release_step >= samples * e.release_step) by (nonlinear_arith)
        requires
            n >= samples,
            samples >= 1,
            e.release_step >= 1,
    ;
    lemma_release_reaches_zero(e, n);
}

/// `samples` steps of the stage's step cover full scale.
proof fn lemma_stage_step_covers(samples: int)
    requires
        samples >= 1,
    ensures
        samples * spec_stage_step(samples) >= SCALE,
{
    let step = spec_stage_step(samples);
    lemma_fundamental_div_mod(SCALE + samples - 1, samples);
    assert(samples * step == SCALE + samples - 1 - (SCALE + samples - 1) % samples);
    vstd::arithmetic::div_mod::lemma_mod_bound(SCALE + samples - 1, samples);
}

/// The stage step of any accepted rate is a positive level step.
proof fn lemma_stage_step_wf(rate: u32, millis: u64)
    requires
        1 <= rate <= MAX_SAMPLE_RATE,
        millis <= 1000,
    ensures
        1 <= spec_stage_step(spec_stage_samples(rate, millis)) <= SCALE,
{
    let samples = spec_stage_samples(rate, millis);
    lemma_div_pos_is_pos(rate * millis + 999, 1000);
    lemma_div_pos_is_pos(SCALE + samples - 1, samples);
    vstd::arithmetic::div_mod::lemma_div_non_zero(SCALE + samples - 1, samples);
    lemma_multiply_divide_lt(SCALE + samples - 1, samples, SCALE + 1);
    assert(samples * (SCALE + 1) > SCALE + samples - 1) by (nonlinear_arith)
        requires
            samples >= 1,
    ;
}

} // verus!
