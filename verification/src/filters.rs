//! The signal-chain filters: a one-pole low-pass and a single-tap feedback
//! delay ("echo"). The chain is a closed set of two kinds, dispatched on a
//! tag — the filter set is fixed, so no indirect calls sit on the hot path.
//!
//! Coefficients are in permille; the echo's feedback is clamped to 0.99 at
//! construction, which keeps every delay-line cell within `ECHO_LIMIT`.

use vstd::prelude::*;
use crate::units::{
    mul_down, spec_scale_down, lemma_scale_down_bounded, ECHO_LIMIT, MAX_SAMPLE_RATE, MIX_LIMIT,
    PERMILLE,
};

verus! {

/// One-pole low-pass: `y += cutoff * (x - y)`, exponential smoothing.
#[derive(Debug, Copy, Clone)]
pub struct LowPass {
    /// Smoothing coefficient in permille, in `(0, 1000]`.
    pub cutoff: i64,
    pub last_output: i64,
}

impl LowPass {
    pub open spec fn wf(self) -> bool {
        &&& 1 <= self.cutoff <= PERMILLE
        &&& -MIX_LIMIT <= self.last_output <= MIX_LIMIT
    }

    pub fn new(cutoff: i64) -> (r: LowPass)
        requires
            1 <= cutoff <= PERMILLE,
        ensures
            r == (LowPass { cutoff, last_output: 0 }),
            r.wf(),
    {
        LowPass { cutoff, last_output: 0 }
    }

    /// The filter state after absorbing one input sample.
    pub open spec fn spec_process(self, input: int) -> LowPass {
        LowPass {
            last_output: (self.last_output + spec_scale_down(
                self.cutoff * (input - self.last_output),
                PERMILLE as int,
            )) as i64,
            ..self
        }
    }

    /// Smooth one sample; the output is the new internal state and always
    /// lies between the old state and the input.
    pub fn process(&mut self, input: i64) -> (r: i64)
        requires
            old(self).wf(),
            -MIX_LIMIT <= input <= MIX_LIMIT,
        ensures
            *final(self) == old(self).spec_process(input as int),
            final(self).wf(),
            r == final(self).last_output,
            -MIX_LIMIT <= r <= MIX_LIMIT,
    {
        let y = self.last_output;
        proof {
            assert(-8_000_000_000_000_000 <= self.cutoff * (input - y) <= 8_000_000_000_000_000)
                by (nonlinear_arith)
                requires
                    1 <= self.cutoff <= 1000,
                    -MIX_LIMIT <= input <= MIX_LIMIT,
                    -MIX_LIMIT <= y <= MIX_LIMIT,
                    MIX_LIMIT == 4_000_000_000_000,
            ;
        }
        let d = mul_down(self.cutoff, input - y, PERMILLE);
        proof {
            let diff = input as int - y;
            let mag = if diff >= 0 { diff } else { -diff };
            assert(-(PERMILLE * mag) <= self.cutoff * diff <= PERMILLE * mag)
                by (nonlinear_arith)
                requires
                    1 <= self.cutoff <= PERMILLE,
                    0 <= mag,
                    -mag <= diff <= mag,
            ;
            lemma_scale_down_bounded(self.cutoff * diff, PERMILLE as int, mag);
            if diff >= 0 {
                assert(self.cutoff * diff >= 0) by (nonlinear_arith)
                    requires
                        self.cutoff >= 1,
                        diff >= 0,
                ;
            } else {
                assert(self.cutoff * diff <= 0) by (nonlinear_arith)
                    requires
                        self.cutoff >= 1,
                        diff <= 0,
                ;
            }
        }
        self.last_output = y + d;
        self.last_output
    }
}

/// Single-tap feedback delay: a circular buffer with a wet/dry mix.
#[derive(Debug, Clone)]
pub struct SimpleReverb {
    /// Circular buffer of delayed samples.
    pub delay_line: Vec<i64>,
    /// Current read/write position in the delay line.
    pub delay_index: usize,
    /// Feedback in permille, clamped to `[0, 990]` for stability.
    pub feedback: i64,
    /// Wet/dry mix in permille (0 dry, 1000 wet).
    pub mix: i64,
}

impl SimpleReverb {
    pub open spec fn wf(self) -> bool {
        &&& self.delay_line@.len() >= 1
        &&& self.delay_index < self.delay_line@.len()
        &&& 0 <= self.feedback <= 990
        &&& 0 <= self.mix <= PERMILLE
        &&& forall|i: int|
            0 <= i < self.delay_line@.len() ==> -ECHO_LIMIT <= #[trigger] self.delay_line@[i]
                <= ECHO_LIMIT
    }

    /// Length of the delay line: `delay_ms` milliseconds at the sample
    /// rate, rounded to the nearest sample, and at least one cell.
    pub open spec fn spec_delay_samples(sample_rate: u32, delay_ms: u32) -> int {
        if (sample_rate * delay_ms + 500) / 1000 >= 1 {
            (sample_rate * delay_ms + 500) / 1000
        } else {
            1
        }
    }

    /// Build an echo with the feedback and mix clamped into their stable
    /// ranges and a silent delay line.
    pub fn new(sample_rate: u32, delay_ms: u32, feedback: i64, mix: i64) -> (r: SimpleReverb)
        requires
            1 <= sample_rate <= MAX_SAMPLE_RATE,
            delay_ms <= 1000,
        ensures
            r.delay_line@ == Seq::new(
                Self::spec_delay_samples(sample_rate, delay_ms) as nat,
                |i: int| 0i64,
            ),
            r.delay_index == 0,
            r.feedback == (if feedback < 0 {
                0int
            } else if feedback > 990 {
                990int
            } else {
                feedback as int
            }),
            r.mix == (if mix < 0 {
                0int
            } else if mix > PERMILLE {
                PERMILLE as int
            } else {
                mix as int
            }),
            r.wf(),
    {
        proof {
            assert((sample_rate as int) * (delay_ms as int) <= 1_000_000_000) by (nonlinear_arith)
                requires
                    0 <= sample_rate <= 1_000_000,
                    0 <= delay_ms <= 1000,
            ;
        }
        let prod = (sample_rate as u64) * (delay_ms as u64);
        let mut samples = (prod + 500) / 1000;
        proof {
            vstd::arithmetic::div_mod::lemma_div_nonincreasing(prod + 500, 1000);
        }
        if samples < 1 {
            samples = 1;
        }
        let n = samples as usize;
        let mut delay_line: Vec<i64> = Vec::new();
        let mut i: usize = 0;
        while i < n
            invariant
                i <= n,
                delay_line@.len() == i,
                forall|j: int| 0 <= j < i ==> #[trigger] delay_line@[j] == 0i64,
            decreases n - i,
        {
            delay_line.push(0);
            i = i + 1;
        }
        let fb = if feedback < 0 {
            0
        } else if feedback > 990 {
            990
        } else {
            feedback
        };
        let mx = if mix < 0 {
            0
        } else if mix > PERMILLE {
            PERMILLE
        } else {
            mix
        };
        proof {
            assert(delay_line@ =~= Seq::new(
                Self::spec_delay_samples(sample_rate, delay_ms) as nat,
                |j: int| 0i64,
            ));
        }
        SimpleReverb { delay_line, delay_index: 0, feedback: fb, mix: mx }
    }

    /// The sample this step emits: the dry input and the wet delayed
    /// signal, blended by the mix.
    pub open spec fn spec_output(self, input: int) -> int {
        spec_scale_down(input * (PERMILLE - self.mix), PERMILLE as int) + spec_scale_down(
            self.delay_line@[self.delay_index as int] * self.mix,
            PERMILLE as int,
        )
    }

    /// The value this step writes back into the delay line: the input
    /// plus the delayed signal scaled by the feedback.
    pub open spec fn spec_store(self, input: int) -> int {
        input + spec_scale_down(
            self.delay_line@[self.delay_index as int] * self.feedback,
            PERMILLE as int,
        )
    }

    /// Process one sample: read the delayed cell, emit the mix, write the
    /// fed-back value, advance the cursor circularly.
    pub fn process(&mut self, input: i64) -> (r: i64)
        requires
            old(self).wf(),
            -MIX_LIMIT <= input <= MIX_LIMIT,
        ensures
            final(self).delay_line@ == old(self).delay_line@.update(
                old(self).delay_index as int,
                old(self).spec_store(input as int) as i64,
            ),
            final(self).delay_index == (old(self).delay_index + 1) % (old(self).delay_line@.len() as int),
            final(self).feedback == old(self).feedback,
            final(self).mix == old(self).mix,
            final(self).wf(),
            r == old(self).spec_output(input as int),
            -(MIX_LIMIT + ECHO_LIMIT) <= r <= MIX_LIMIT + ECHO_LIMIT,
    {
        let delayed = self.delay_line[self.delay_index];
        proof {
            assert(delayed * self.mix <= ECHO_LIMIT * PERMILLE && delayed * self.mix >= -(
            ECHO_LIMIT * PERMILLE) && delayed * self.feedback <= ECHO_LIMIT * 990 && delayed
                * self.feedback >= -(ECHO_LIMIT * 990) && input * (PERMILLE - self.mix) <= MIX_LIMIT
                * PERMILLE && input * (PERMILLE - self.mix) >= -(MIX_LIMIT * PERMILLE))
                by (nonlinear_arith)
                requires
                    -ECHO_LIMIT <= delayed <= ECHO_LIMIT,
                    0 <= self.mix <= PERMILLE,
                    0 <= self.feedback <= 990,
                    -MIX_LIMIT <= input <= MIX_LIMIT,
            ;
        }
        let wet = mul_down(delayed, self.mix, PERMILLE);
        let dry = mul_down(input, PERMILLE - self.mix, PERMILLE);
        proof {
            lemma_scale_down_bounded(
                delayed * self.mix,
                PERMILLE as int,
                ECHO_LIMIT as int,
            );
            lemma_scale_down_bounded(
                input * (PERMILLE - self.mix),
                PERMILLE as int,
                MIX_LIMIT as int,
            );
            lemma_scale_down_bounded(
                delayed * self.feedback,
                PERMILLE as int,
                396_000_000_000_000,
            );
        }
        let output = dry + wet;
        let fed = mul_down(delayed, self.feedback, PERMILLE);
        let store = input + fed;
        self.delay_line.set(self.delay_index, store);
        let len = self.delay_line.len();
        assert(self.delay_index < len);
        self.delay_index = (self.delay_index + 1) % len;
        output
    }
}

/// A link of the fixed filter chain.
#[derive(Debug, Clone)]
pub enum Filter {
    LowPass(LowPass),
    Echo(SimpleReverb),
}

impl Filter {
    pub open spec fn wf(self) -> bool {
        match self {
            Filter::LowPass(f) => f.wf(),
            Filter::Echo(f) => f.wf(),
        }
    }

    /// How one processing step relates the old filter, the input, the new
    /// filter and the output.
    pub open spec fn spec_step(pre: Filter, input: int, post: Filter, output: int) -> bool {
        match pre {
            Filter::LowPass(f) => post == Filter::LowPass(f.spec_process(input)) && output
                == f.spec_process(input).last_output,
            Filter::Echo(f) => match post {
                Filter::Echo(g) => {
                    &&& g.delay_line@ == f.delay_line@.update(
                        f.delay_index as int,
                        f.spec_store(input) as i64,
                    )
                    &&& g.delay_index == (f.delay_index + 1) % (f.delay_line@.len() as int)
                    &&& g.feedback == f.feedback
                    &&& g.mix == f.mix
                    &&& output == f.spec_output(input)
                },
                _ => false,
            },
        }
    }

    /// Process one sample through this link.
    pub fn process(&mut self, input: i64) -> (r: i64)
        requires
            old(self).wf(),
            -MIX_LIMIT <= input <= MIX_LIMIT,
        ensures
            Filter::spec_step(*old(self), input as int, *final(self), r as int),
            final(self).wf(),
            -(MIX_LIMIT + ECHO_LIMIT) <= r <= MIX_LIMIT + ECHO_LIMIT,
    {
        match self {
            Filter::LowPass(f) => f.process(input),
            Filter::Echo(f) => f.process(input),
        }
    }

    /// Silent internal state: a fixed point for silent input.
    pub open spec fn quiescent(self) -> bool {
        match self {
            Filter::LowPass(f) => f.last_output == 0,
            Filter::Echo(f) => forall|i: int|
                0 <= i < f.delay_line@.len() ==> #[trigger] f.delay_line@[i] == 0i64,
        }
    }
}

/// Law: zero is a fixed point of both filters — a quiescent filter fed a
/// zero sample stays quiescent and emits zero, so a chain fed silence
/// forever yields silence forever.
pub proof fn lemma_quiescent_step(pre: Filter, post: Filter, output: int)
    requires
        pre.wf(),
        pre.quiescent(),
        Filter::spec_step(pre, 0, post, output),
    ensures
        post.quiescent(),
        output == 0,
{
    match pre {
        Filter::LowPass(f) => {
            assert(f.cutoff * (0 - f.last_output) == 0) by (nonlinear_arith)
                requires
                    f.last_output == 0,
            ;
        },
        Filter::Echo(f) => {
            assert(f.delay_line@[f.delay_index as int] == 0);
            assert(f.delay_line@[f.delay_index as int] * f.mix == 0) by (nonlinear_arith)
                requires
                    f.delay_line@[f.delay_index as int] == 0,
            ;
            assert(f.delay_line@[f.delay_index as int] * f.feedback == 0) by (nonlinear_arith)
                requires
                    f.delay_line@[f.delay_index as int] == 0,
            ;
            assert(0 * (PERMILLE - f.mix) == 0) by (nonlinear_arith);
            match post {
                Filter::Echo(g) => {
                    assert forall|i: int| 0 <= i < g.delay_line@.len() implies #[trigger] g
                        .delay_line@[i] == 0i64 by {
                        assert(g.delay_line@ == f.delay_line@.update(f.delay_index as int, 0i64));
                    }
                },
                _ => {},
            }
        },
    }
}

} // verus!
