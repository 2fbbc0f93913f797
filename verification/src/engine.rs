//! The per-channel polyphonic engine: a pool of sounding notes, the
//! channel's active timbre (its stop list), and an owned filter chain
//! (low-pass, then echo), applied in fixed order once per sample.

use vstd::prelude::*;
use crate::filters::{Filter, LowPass, SimpleReverb};
use crate::note::{
    spec_note_released, spec_note_stepped, spec_note_with_preset, spec_note_with_stop,
    spec_note_without_stop, Note,
};
use crate::stop::{spec_stops_valid, Stop};
use crate::units::{
    clamp_signal, spec_mix, ECHO_LIMIT, ENGINE_LIMIT, MAX_FREQUENCY, MAX_SAMPLE_RATE, MIX_LIMIT,
};

verus! {

/// Cutoff of the engine's low-pass, in permille.
pub const ENGINE_CUTOFF: i64 = 100;

/// Delay of the engine's echo, in milliseconds.
pub const ENGINE_DELAY_MS: u32 = 100;

/// Feedback of the engine's echo, in permille.
pub const ENGINE_FEEDBACK: i64 = 500;

/// Wet/dry mix of the engine's echo, in permille.
pub const ENGINE_MIX: i64 = 500;

pub struct InternalSynth {
    pub sample_rate: u32,
    pub filters: Vec<Filter>,
    pub stops: Vec<Stop>,
    pub notes: Vec<Note>,
}

/// Index of the first un-released note at the given fundamental, or -1.
pub open spec fn spec_voice_index(notes: Seq<Note>, frequency: int) -> int
    decreases notes.len(),
{
    if notes.len() == 0 {
        -1
    } else if notes[0].frequency == frequency && !notes[0].is_released {
        0
    } else {
        let rest = spec_voice_index(notes.subrange(1, notes.len() as int), frequency);
        if rest == -1 {
            -1
        } else {
            rest + 1
        }
    }
}

/// Index of the first stop equal to the given one, or -1.
pub open spec fn spec_stop_index(stops: Seq<Stop>, stop: Stop) -> int
    decreases stops.len(),
{
    if stops.len() == 0 {
        -1
    } else if stops[0] == stop {
        0
    } else {
        let rest = spec_stop_index(stops.subrange(1, stops.len() as int), stop);
        if rest == -1 {
            -1
        } else {
            rest + 1
        }
    }
}

/// At most one un-released note per fundamental frequency.
pub open spec fn spec_distinct_voices(notes: Seq<Note>) -> bool {
    forall|i: int, j: int|
        0 <= i < j < notes.len() && !(#[trigger] notes[i]).is_released && !(
        #[trigger] notes[j]).is_released ==> notes[i].frequency != notes[j].frequency
}

/// The notes that survive pruning: those not yet finished.
pub open spec fn spec_live_notes(notes: Seq<Note>) -> Seq<Note> {
    notes.filter(|n: Note| !n.spec_is_finished())
}

/// The per-note samples of one step, in order.
pub open spec fn spec_note_outputs(notes: Seq<Note>) -> Seq<int> {
    notes.map_values(|n: Note| spec_mix(n.spec_step_outputs()))
}

impl InternalSynth {
    pub open spec fn wf(self) -> bool {
        &&& 1 <= self.sample_rate <= MAX_SAMPLE_RATE
        &&& self.filters@.len() == 2
        &&& self.filters@[0] is LowPass
        &&& self.filters@[1] is Echo
        &&& self.filters@[0].wf()
        &&& self.filters@[1].wf()
        &&& spec_stops_valid(self.stops@)
        &&& forall|i: int| 0 <= i < self.notes@.len() ==> (#[trigger] self.notes@[i]).wf()
        &&& spec_distinct_voices(self.notes@)
    }

    /// A fresh engine for one channel: no notes, the given timbre, and a
    /// quiescent low-pass/echo chain.
    pub fn new(sample_rate: u32, stops: Vec<Stop>) -> (r: InternalSynth)
        requires
            1 <= sample_rate <= MAX_SAMPLE_RATE,
            spec_stops_valid(stops@),
        ensures
            r.sample_rate == sample_rate,
            r.stops@ == stops@,
            r.notes@.len() == 0,
            r.filters@.len() == 2,
            r.filters@[0] == Filter::LowPass(
                LowPass { cutoff: ENGINE_CUTOFF, last_output: 0 },
            ),
            (r.filters@[1] matches Filter::Echo(e) && e.delay_line@ == Seq::new(
                SimpleReverb::spec_delay_samples(sample_rate, ENGINE_DELAY_MS) as nat,
                |i: int| 0i64,
            ) && e.delay_index == 0 && e.feedback == ENGINE_FEEDBACK && e.mix == ENGINE_MIX),
            r.filters@[0].quiescent(),
            r.filters@[1].quiescent(),
            r.wf(),
    {
        let mut filters: Vec<Filter> = Vec::new();
        filters.push(Filter::LowPass(LowPass::new(ENGINE_CUTOFF)));
        filters.push(
            Filter::Echo(
                SimpleReverb::new(sample_rate, ENGINE_DELAY_MS, ENGINE_FEEDBACK, ENGINE_MIX),
            ),
        );
        InternalSynth { sample_rate, filters, stops, notes: Vec::new() }
    }

    /// Strike a voice at the given fundamental, built from the current
    /// timbre. A fundamental that already sounds un-released is struck
    /// only once: the second attempt is ignored, which keeps at most one
    /// un-released note per frequency.
    pub fn add_voice(&mut self, frequency: u64)
        requires
            old(self).wf(),
            frequency <= MAX_FREQUENCY,
        ensures
            spec_added_voice(*old(self), *final(self), frequency as int),
            final(self).wf(),
    {
        let ghost orig = self.notes@;
        let mut i: usize = 0;
        while i < self.notes.len()
            invariant
                *self == *old(self),
                orig == self.notes@,
                old(self).wf(),
                i <= orig.len(),
                forall|j: int|
                    0 <= j < i ==> !((#[trigger] orig[j]).frequency == frequency
                        && !orig[j].is_released),
            decreases orig.len() - i,
        {
            if self.notes[i].frequency == frequency && !self.notes[i].is_released {
                proof {
                    lemma_voice_index_found(orig, frequency as int, i as int);
                }
                return ;
            }
            i = i + 1;
        }
        proof {
            lemma_voice_index_missing(orig, frequency as int);
        }
        let note = Note::new(frequency, self.sample_rate, self.stops.as_slice());
        self.notes.push(note);
    }

    /// Release the first un-released note at the given fundamental; a
    /// duplicate note-off finds nothing and is a safe no-op.
    pub fn remove_voice(&mut self, frequency: u64)
        requires
            old(self).wf(),
        ensures
            spec_removed_voice(*old(self), *final(self), frequency as int),
            spec_voice_index(final(self).notes@, frequency as int) == -1,
            final(self).wf(),
    {
        let ghost orig = self.notes@;
        let mut i: usize = 0;
        while i < self.notes.len()
            invariant
                *self == *old(self),
                orig == self.notes@,
                old(self).wf(),
                i <= orig.len(),
                forall|j: int|
                    0 <= j < i ==> !((#[trigger] orig[j]).frequency == frequency
                        && !orig[j].is_released),
            decreases orig.len() - i,
        {
            if self.notes[i].frequency == frequency && !self.notes[i].is_released {
                proof {
                    lemma_voice_index_found(orig, frequency as int, i as int);
                }
                let note = vstd::std_specs::vec::vec_index_mut(&mut self.notes, i);
                note.release();
                proof {
                    lemma_voice_index_missing_after_release(
                        orig,
                        self.notes@,
                        frequency as int,
                        i as int,
                    );
                }
                return ;
            }
            i = i + 1;
        }
        proof {
            lemma_voice_index_missing(orig, frequency as int);
        }
    }

    /// Switch the channel's timbre wholesale and rebuild every live note
    /// from it, mid-sound.
    pub fn use_preset(&mut self, stops: Vec<Stop>)
        requires
            old(self).wf(),
            spec_stops_valid(stops@),
        ensures
            spec_used_preset(*old(self), *final(self), stops@),
            final(self).wf(),
    {
        self.stops = stops;
        let ghost orig = self.notes@;
        let mut i: usize = 0;
        while i < self.notes.len()
            invariant
                old(self).wf(),
                self.stops@ == stops@,
                spec_stops_valid(self.stops@),
                i <= orig.len(),
                self.notes@.len() == orig.len(),
                self.sample_rate == old(self).sample_rate,
                self.filters@ == old(self).filters@,
                1 <= self.sample_rate <= MAX_SAMPLE_RATE,
                forall|j: int| i <= j < orig.len() ==> self.notes@[j] == (#[trigger] orig[j]),
                forall|j: int|
                    0 <= j < i ==> spec_note_with_preset(
                        #[trigger] orig[j],
                        self.notes@[j],
                        self.stops@,
                    ),
                forall|j: int| 0 <= j < i ==> (#[trigger] self.notes@[j]).wf(),
                forall|j: int| 0 <= j < orig.len() ==> (#[trigger] orig[j]).wf(),
            decreases orig.len() - i,
        {
            proof {
                assert(self.notes@[i as int] == orig[i as int]);
            }
            let note = vstd::std_specs::vec::vec_index_mut(&mut self.notes, i);
            note.use_preset(self.stops.as_slice());
            i = i + 1;
        }
        proof {
            lemma_distinct_voices_preserved(orig, self.notes@);
        }
    }

    /// Add one stop to the timbre and to every live note.
    pub fn add_stop(&mut self, stop: Stop)
        requires
            old(self).wf(),
            stop.valid(),
        ensures
            spec_added_stop(*old(self), *final(self), stop),
            final(self).wf(),
    {
        self.stops.push(stop);
        let ghost orig = self.notes@;
        let mut i: usize = 0;
        while i < self.notes.len()
            invariant
                old(self).wf(),
                stop.valid(),
                i <= orig.len(),
                self.notes@.len() == orig.len(),
                self.sample_rate == old(self).sample_rate,
                self.filters@ == old(self).filters@,
                self.stops@ == old(self).stops@.push(stop),
                forall|j: int| i <= j < orig.len() ==> self.notes@[j] == (#[trigger] orig[j]),
                forall|j: int|
                    0 <= j < i ==> spec_note_with_stop(
                        #[trigger] orig[j],
                        self.notes@[j],
                        stop,
                    ),
                forall|j: int| 0 <= j < i ==> (#[trigger] self.notes@[j]).wf(),
                forall|j: int| 0 <= j < orig.len() ==> (#[trigger] orig[j]).wf(),
            decreases orig.len() - i,
        {
            proof {
                assert(self.notes@[i as int] == orig[i as int]);
            }
            let note = vstd::std_specs::vec::vec_index_mut(&mut self.notes, i);
            note.add_stop(&stop);
            i = i + 1;
        }
        proof {
            lemma_distinct_voices_preserved(orig, self.notes@);
        }
    }

    /// Remove the first equal stop from the timbre, and release the
    /// matching oscillator of every live note.
    pub fn remove_stop(&mut self, stop: Stop)
        requires
            old(self).wf(),
            stop.valid(),
        ensures
            spec_removed_stop(*old(self), *final(self), stop),
            final(self).wf(),
    {
        let ghost origstops = self.stops@;
        let n = self.stops.len();
        let mut position: usize = 0;
        let mut found = false;
        while position < n && !found
            invariant
                *self == *old(self),
                old(self).wf(),
                origstops == self.stops@,
                n == origstops.len(),
                position <= n,
                found ==> position < n && origstops[position as int] == stop,
                forall|j: int| 0 <= j < position ==> (#[trigger] origstops[j]) != stop,
            decreases n - position + (if found { 0int } else { 1int }),
        {
            if self.stops[position] == stop {
                found = true;
            } else {
                position = position + 1;
            }
        }
        if found {
            proof {
                lemma_stop_index_found(origstops, stop, position as int);
            }
            self.stops.remove(position);
            proof {
                assert forall|j: int| 0 <= j < self.stops@.len() implies (
                #[trigger] self.stops@[j]).valid() by {
                    if j < position {
                        assert(self.stops@[j] == origstops[j]);
                    } else {
                        assert(self.stops@[j] == origstops[j + 1]);
                    }
                }
            }
        } else {
            proof {
                lemma_stop_index_missing(origstops, stop);
            }
        }
        let ghost orig = self.notes@;
        let mut i: usize = 0;
        while i < self.notes.len()
            invariant
                old(self).wf(),
                stop.valid(),
                i <= orig.len(),
                orig == old(self).notes@,
                self.notes@.len() == orig.len(),
                self.sample_rate == old(self).sample_rate,
                self.filters@ == old(self).filters@,
                spec_stops_valid(self.stops@),
                forall|j: int| i <= j < orig.len() ==> self.notes@[j] == (#[trigger] orig[j]),
                forall|j: int|
                    0 <= j < i ==> spec_note_without_stop(
                        #[trigger] orig[j],
                        self.notes@[j],
                        stop,
                    ),
                forall|j: int| 0 <= j < i ==> (#[trigger] self.notes@[j]).wf(),
                forall|j: int| 0 <= j < orig.len() ==> (#[trigger] orig[j]).wf(),
                ({
                    let idx = spec_stop_index(old(self).stops@, stop);
                    if idx == -1 {
                        self.stops@ == old(self).stops@
                    } else {
                        self.stops@ == old(self).stops@.remove(idx)
                    }
                }),
            decreases orig.len() - i,
        {
            proof {
                assert(self.notes@[i as int] == orig[i as int]);
            }
            let note = vstd::std_specs::vec::vec_index_mut(&mut self.notes, i);
            note.remove_stop(&stop);
            i = i + 1;
        }
        proof {
            lemma_distinct_voices_without_stop(orig, self.notes@, stop);
        }
    }
}


/// How `add_voice` relates an engine to its successor.
pub open spec fn spec_added_voice(pre: InternalSynth, post: InternalSynth, frequency: int) -> bool {
    if spec_voice_index(pre.notes@, frequency) != -1 {
        post == pre
    } else {
        &&& post.notes@.len() == pre.notes@.len() + 1
        &&& forall|j: int| 0 <= j < pre.notes@.len() ==> post.notes@[j] == #[trigger] pre.notes@[j]
        &&& post.notes@.last().frequency == frequency
        &&& post.notes@.last().sample_rate == pre.sample_rate
        &&& !post.notes@.last().is_released
        &&& post.notes@.last().oscillators@ == crate::note::spec_oscillators_for(
            pre.stops@,
            frequency,
            pre.sample_rate,
        )
        &&& post.stops@ == pre.stops@
        &&& post.filters@ == pre.filters@
        &&& post.sample_rate == pre.sample_rate
    }
}

/// How `remove_voice` relates an engine to its successor.
pub open spec fn spec_removed_voice(pre: InternalSynth, post: InternalSynth, frequency: int) -> bool {
    ({
        let idx = spec_voice_index(pre.notes@, frequency);
        if idx == -1 {
            post == pre
        } else {
            &&& post.notes@.len() == pre.notes@.len()
            &&& forall|j: int|
                0 <= j < pre.notes@.len() && j != idx ==> post.notes@[j] == #[trigger] pre.notes@[j]
            &&& spec_note_released(pre.notes@[idx], post.notes@[idx])
            &&& post.stops@ == pre.stops@
            &&& post.filters@ == pre.filters@
            &&& post.sample_rate == pre.sample_rate
        }
    })
}

/// How `use_preset` relates an engine to its successor.
pub open spec fn spec_used_preset(pre: InternalSynth, post: InternalSynth, stops: Seq<Stop>) -> bool {
    &&& post.stops@ == stops
    &&& post.notes@.len() == pre.notes@.len()
    &&& forall|j: int|
        0 <= j < pre.notes@.len() ==> spec_note_with_preset(
            #[trigger] pre.notes@[j],
            post.notes@[j],
            stops,
        )
    &&& post.filters@ == pre.filters@
    &&& post.sample_rate == pre.sample_rate
}

/// How `add_stop` relates an engine to its successor.
pub open spec fn spec_added_stop(pre: InternalSynth, post: InternalSynth, stop: Stop) -> bool {
    &&& post.stops@ == pre.stops@.push(stop)
    &&& post.notes@.len() == pre.notes@.len()
    &&& forall|j: int|
        0 <= j < pre.notes@.len() ==> spec_note_with_stop(
            #[trigger] pre.notes@[j],
            post.notes@[j],
            stop,
        )
    &&& post.filters@ == pre.filters@
    &&& post.sample_rate == pre.sample_rate
}

/// How `remove_stop` relates an engine to its successor.
pub open spec fn spec_removed_stop(pre: InternalSynth, post: InternalSynth, stop: Stop) -> bool {
    &&& ({
        let idx = spec_stop_index(pre.stops@, stop);
        if idx == -1 {
            post.stops@ == pre.stops@
        } else {
            post.stops@ == pre.stops@.remove(idx)
        }
    })
    &&& post.notes@.len() == pre.notes@.len()
    &&& forall|j: int|
        0 <= j < pre.notes@.len() ==> spec_note_without_stop(
            #[trigger] pre.notes@[j],
            post.notes@[j],
            stop,
        )
    &&& post.filters@ == pre.filters@
    &&& post.sample_rate == pre.sample_rate
}

/// How `next_sample` relates an engine to its successor: finished notes
/// pruned, survivors advanced, the filter chain stepped by the mix.
pub open spec fn spec_engine_stepped(pre: InternalSynth, post: InternalSynth) -> bool {
    &&& post.sample_rate == pre.sample_rate
    &&& post.stops@ == pre.stops@
    &&& post.notes@.len() == spec_live_notes(pre.notes@).len()
    &&& forall|j: int|
        0 <= j < post.notes@.len() ==> spec_note_stepped(
            spec_live_notes(pre.notes@)[j],
            #[trigger] post.notes@[j],
        )
    &&& post.filters@.len() == 2
    &&& ({
        let mixed = spec_mix(spec_note_outputs(spec_live_notes(pre.notes@)));
        let lp = pre.filters@[0]->LowPass_0;
        let echo = pre.filters@[1]->Echo_0;
        let y1 = lp.spec_process(mixed).last_output as int;
        &&& post.filters@[0] == Filter::LowPass(lp.spec_process(mixed))
        &&& Filter::spec_step(pre.filters@[1], y1, post.filters@[1], echo.spec_output(y1))
    })
}

/// The sample one engine step emits, as a function of the prior state:
/// the filter chain's output, returned as-is.
pub open spec fn spec_engine_output(pre: InternalSynth) -> int {
    let mixed = spec_mix(spec_note_outputs(spec_live_notes(pre.notes@)));
    let lp = pre.filters@[0]->LowPass_0;
    let echo = pre.filters@[1]->Echo_0;
    let y1 = lp.spec_process(mixed).last_output as int;
    echo.spec_output(y1)
}

impl InternalSynth {
    /// Produce one output sample: prune finished notes, advance and mix
    /// the survivors onto the saturating bus, run the mix through the
    /// filter chain in fixed order, and return the result.
    ///
    /// An engine whose pool is empty (or fully pruned) and whose filters
    /// are quiescent emits exact silence.
    pub fn next_sample(&mut self) -> (r: i64)
        requires
            old(self).wf(),
        ensures
            spec_engine_stepped(*old(self), *final(self)),
            r == spec_engine_output(*old(self)),
            final(self).wf(),
            -ENGINE_LIMIT <= r <= ENGINE_LIMIT,
            (spec_live_notes(old(self).notes@).len() == 0 && old(self).filters@[0].quiescent()
                && old(self).filters@[1].quiescent()) ==> (r == 0
                && final(self).filters@[0].quiescent()
                && final(self).filters@[1].quiescent()),
    {
        let ghost orig = self.notes@;
        let ghost mut k: int = 0;
        let mut i: usize = 0;
        while i < self.notes.len()
            invariant
                old(self).wf(),
                self.sample_rate == old(self).sample_rate,
                self.stops@ == old(self).stops@,
                self.filters@ == old(self).filters@,
                orig == old(self).notes@,
                0 <= k <= orig.len(),
                i == spec_live_notes(orig.subrange(0, k)).len(),
                self.notes@ == spec_live_notes(orig.subrange(0, k)) + orig.subrange(
                    k,
                    orig.len() as int,
                ),
                forall|l: int| 0 <= l < self.notes@.len() ==> (#[trigger] self.notes@[l]).wf(),
                spec_distinct_voices(self.notes@),
            decreases self.notes@.len() - i,
        {
            proof {
                assert(self.notes@[i as int] == orig[k]);
            }
            let finished = self.notes[i].is_finished();
            proof {
                reveal(Seq::filter);
                assert(orig.subrange(0, k + 1).drop_last() =~= orig.subrange(0, k));
                assert(orig.subrange(0, k + 1).last() == orig[k]);
            }
            if finished {
                let ghost before = self.notes@;
                self.notes.remove(i);
                proof {
                    assert(spec_live_notes(orig.subrange(0, k + 1)) =~= spec_live_notes(
                        orig.subrange(0, k),
                    ));
                    assert(self.notes@ =~= spec_live_notes(orig.subrange(0, k + 1))
                        + orig.subrange(k + 1, orig.len() as int));
                    lemma_pool_shrinks(before, self.notes@, i as int);
                    k = k + 1;
                }
            } else {
                proof {
                    assert(spec_live_notes(orig.subrange(0, k + 1)) =~= spec_live_notes(
                        orig.subrange(0, k),
                    ).push(orig[k]));
                    assert(self.notes@ =~= spec_live_notes(orig.subrange(0, k + 1))
                        + orig.subrange(k + 1, orig.len() as int));
                    k = k + 1;
                }
                i = i + 1;
            }
        }
        proof {
            assert(k == orig.len());
            assert(orig.subrange(0, k) =~= orig);
            assert(orig.subrange(k, orig.len() as int) =~= Seq::<Note>::empty());
            assert(self.notes@ =~= spec_live_notes(orig));
        }
        let ghost kept = self.notes@;
        let mut total: i64 = 0;
        let mut j: usize = 0;
        while j < self.notes.len()
            invariant
                old(self).wf(),
                self.sample_rate == old(self).sample_rate,
                self.stops@ == old(self).stops@,
                self.filters@ == old(self).filters@,
                kept == spec_live_notes(old(self).notes@),
                spec_distinct_voices(kept),
                j <= kept.len(),
                self.notes@.len() == kept.len(),
                forall|l: int| j <= l < kept.len() ==> self.notes@[l] == (#[trigger] kept[l]),
                forall|l: int|
                    0 <= l < j ==> spec_note_stepped(#[trigger] kept[l], self.notes@[l]),
                forall|l: int| 0 <= l < kept.len() ==> (#[trigger] kept[l]).wf(),
                forall|l: int| 0 <= l < j ==> (#[trigger] self.notes@[l]).wf(),
                total == spec_mix(spec_note_outputs(kept.subrange(0, j as int))),
                -MIX_LIMIT <= total <= MIX_LIMIT,
            decreases kept.len() - j,
        {
            proof {
                assert(self.notes@[j as int] == kept[j as int]);
                assert(kept[j as int].wf());
            }
            let note = vstd::std_specs::vec::vec_index_mut(&mut self.notes, j);
            let s = note.next_sample();
            total = clamp_signal(total + s);
            proof {
                let outputs = |n: Note| spec_mix(n.spec_step_outputs());
                assert(kept.subrange(0, j + 1).map_values(outputs) =~= kept.subrange(
                    0,
                    j as int,
                ).map_values(outputs).push(spec_mix(kept[j as int].spec_step_outputs())));
                assert(kept.subrange(0, j + 1).map_values(outputs).drop_last() =~= kept.subrange(
                    0,
                    j as int,
                ).map_values(outputs));
            }
            j = j + 1;
        }
        proof {
            assert(kept.subrange(0, kept.len() as int) =~= kept);
        }
        let ghost advanced = self.notes@;
        let mut sample = total;
        let mut fidx: usize = 0;
        while fidx < self.filters.len()
            invariant
                old(self).wf(),
                self.sample_rate == old(self).sample_rate,
                self.stops@ == old(self).stops@,
                self.notes@ == advanced,
                self.filters@.len() == 2,
                fidx <= 2,
                -MIX_LIMIT <= total <= MIX_LIMIT,
                fidx == 0 ==> self.filters@ == old(self).filters@ && sample == total,
                fidx >= 1 ==> self.filters@[0] == Filter::LowPass(
                    old(self).filters@[0]->LowPass_0.spec_process(total as int),
                ) && self.filters@[0].wf(),
                fidx == 1 ==> self.filters@[1] == old(self).filters@[1] && sample as int == old(
                    self,
                ).filters@[0]->LowPass_0.spec_process(total as int).last_output && -MIX_LIMIT
                    <= sample <= MIX_LIMIT,
                fidx == 2 ==> Filter::spec_step(
                    old(self).filters@[1],
                    old(self).filters@[0]->LowPass_0.spec_process(total as int).last_output as int,
                    self.filters@[1],
                    sample as int,
                ) && self.filters@[1].wf() && -(MIX_LIMIT + ECHO_LIMIT) <= sample <= MIX_LIMIT
                    + ECHO_LIMIT,
            decreases 2 - fidx,
        {
            let f = vstd::std_specs::vec::vec_index_mut(&mut self.filters, fidx);
            sample = f.process(sample);
            fidx = fidx + 1;
        }
        let r = sample;
        proof {
            assert forall|l: int| 0 <= l < kept.len() implies advanced[l].frequency == (
            #[trigger] kept[l]).frequency && advanced[l].is_released == kept[l].is_released by {
                assert(spec_note_stepped(kept[l], advanced[l]));
            }
            lemma_distinct_voices_preserved(kept, advanced);
            if spec_live_notes(old(self).notes@).len() == 0 && old(self).filters@[0].quiescent()
                && old(self).filters@[1].quiescent() {
                assert(spec_note_outputs(kept) =~= Seq::<int>::empty());
                assert(total == 0);
                let y1 = old(self).filters@[0]->LowPass_0.spec_process(0).last_output as int;
                assert(Filter::spec_step(
                    old(self).filters@[0],
                    0,
                    self.filters@[0],
                    y1,
                ));
                crate::filters::lemma_quiescent_step(old(self).filters@[0], self.filters@[0], y1);
                crate::filters::lemma_quiescent_step(
                    old(self).filters@[1],
                    self.filters@[1],
                    sample as int,
                );
            }
        }
        r
    }
}

/// Removing one element of a well-formed, voice-distinct pool leaves a
/// well-formed, voice-distinct pool.
proof fn lemma_pool_shrinks(pre: Seq<Note>, post: Seq<Note>, i: int)
    requires
        0 <= i < pre.len(),
        post == pre.remove(i),
        forall|l: int| 0 <= l < pre.len() ==> (#[trigger] pre[l]).wf(),
        spec_distinct_voices(pre),
    ensures
        forall|l: int| 0 <= l < post.len() ==> (#[trigger] post[l]).wf(),
        spec_distinct_voices(post),
{
    assert forall|l: int| 0 <= l < post.len() implies (#[trigger] post[l]).wf() by {
        if l < i {
            assert(post[l] == pre[l]);
        } else {
            assert(post[l] == pre[l + 1]);
        }
    }
    assert forall|a: int, b: int|
        0 <= a < b < post.len() && !(#[trigger] post[a]).is_released && !(
        #[trigger] post[b]).is_released implies post[a].frequency != post[b].frequency by {
        let a0 = if a < i {
            a
        } else {
            a + 1
        };
        let b0 = if b < i {
            b
        } else {
            b + 1
        };
        assert(post[a] == pre[a0]);
        assert(post[b] == pre[b0]);
    }
}

/// Pairwise voice distinctness only reads each note's fundamental and
/// released flag, so any transformation that keeps both preserves it.
proof fn lemma_distinct_voices_preserved(pre: Seq<Note>, post: Seq<Note>)
    requires
        spec_distinct_voices(pre),
        post.len() == pre.len(),
        forall|j: int|
            0 <= j < pre.len() ==> post[j].frequency == (#[trigger] pre[j]).frequency && post[j].is_released
                == pre[j].is_released,
    ensures
        spec_distinct_voices(post),
{
    assert forall|i: int, j: int|
        0 <= i < j < post.len() && !(#[trigger] post[i]).is_released && !(
        #[trigger] post[j]).is_released implies post[i].frequency != post[j].frequency by {
        assert(post[i].frequency == pre[i].frequency && post[i].is_released
            == pre[i].is_released);
        assert(post[j].frequency == pre[j].frequency && post[j].is_released
            == pre[j].is_released);
    }
}

/// Releasing oscillators inside notes (or leaving them alone) never makes
/// a released note un-released, so distinctness survives stop removal.
proof fn lemma_distinct_voices_without_stop(pre: Seq<Note>, post: Seq<Note>, stop: Stop)
    requires
        spec_distinct_voices(pre),
        post.len() == pre.len(),
        forall|j: int|
            0 <= j < pre.len() ==> spec_note_without_stop(#[trigger] pre[j], post[j], stop),
    ensures
        spec_distinct_voices(post),
{
    assert forall|j: int| 0 <= j < pre.len() implies post[j].frequency == (
    #[trigger] pre[j]).frequency && post[j].is_released == pre[j].is_released by {
        assert(spec_note_without_stop(pre[j], post[j], stop));
    }
    lemma_distinct_voices_preserved(pre, post);
}

/// If the first `i` notes are no hit and note `i` is un-released at the
/// frequency, the voice index is `i`.
proof fn lemma_voice_index_found(notes: Seq<Note>, frequency: int, i: int)
    requires
        0 <= i < notes.len(),
        notes[i].frequency == frequency,
        !notes[i].is_released,
        forall|j: int|
            0 <= j < i ==> !((#[trigger] notes[j]).frequency == frequency
                && !notes[j].is_released),
    ensures
        spec_voice_index(notes, frequency) == i,
    decreases notes.len(),
{
    if i > 0 {
        let rest = notes.subrange(1, notes.len() as int);
        assert forall|j: int| 0 <= j < i - 1 implies !((#[trigger] rest[j]).frequency == frequency
            && !rest[j].is_released) by {
            assert(rest[j] == notes[j + 1]);
        }
        assert(rest[i - 1] == notes[i]);
        lemma_voice_index_found(rest, frequency, i - 1);
    }
}

/// If no note is an un-released hit, the voice index is -1.
proof fn lemma_voice_index_missing(notes: Seq<Note>, frequency: int)
    requires
        forall|j: int|
            0 <= j < notes.len() ==> !((#[trigger] notes[j]).frequency == frequency
                && !notes[j].is_released),
    ensures
        spec_voice_index(notes, frequency) == -1,
    decreases notes.len(),
{
    if notes.len() > 0 {
        let rest = notes.subrange(1, notes.len() as int);
        assert forall|j: int| 0 <= j < rest.len() implies !((#[trigger] rest[j]).frequency
            == frequency && !rest[j].is_released) by {
            assert(rest[j] == notes[j + 1]);
        }
        lemma_voice_index_missing(rest, frequency);
    }
}

/// After releasing the hit at `i` in a distinct-voice pool, no un-released
/// note at that frequency remains.
proof fn lemma_voice_index_missing_after_release(
    pre: Seq<Note>,
    post: Seq<Note>,
    frequency: int,
    i: int,
)
    requires
        spec_distinct_voices(pre),
        0 <= i < pre.len(),
        pre[i].frequency == frequency,
        !pre[i].is_released,
        post.len() == pre.len(),
        forall|j: int| 0 <= j < pre.len() && j != i ==> post[j] == #[trigger] pre[j],
        post[i].is_released,
    ensures
        spec_voice_index(post, frequency) == -1,
{
    assert forall|j: int| 0 <= j < post.len() implies !((#[trigger] post[j]).frequency == frequency
        && !post[j].is_released) by {
        if j != i {
            assert(post[j] == pre[j]);
            if j < i {
                assert(spec_distinct_voices(pre));
            }
        }
    }
    lemma_voice_index_missing(post, frequency);
}

/// If the first `i` stops differ and stop `i` is equal, the stop index is
/// `i`.
proof fn lemma_stop_index_found(stops: Seq<Stop>, stop: Stop, i: int)
    requires
        0 <= i < stops.len(),
        stops[i] == stop,
        forall|j: int| 0 <= j < i ==> (#[trigger] stops[j]) != stop,
    ensures
        spec_stop_index(stops, stop) == i,
    decreases stops.len(),
{
    if i > 0 {
        let rest = stops.subrange(1, stops.len() as int);
        assert forall|j: int| 0 <= j < i - 1 implies (#[trigger] rest[j]) != stop by {
            assert(rest[j] == stops[j + 1]);
        }
        assert(rest[i - 1] == stops[i]);
        lemma_stop_index_found(rest, stop, i - 1);
    }
}

/// If no stop is equal, the stop index is -1.
proof fn lemma_stop_index_missing(stops: Seq<Stop>, stop: Stop)
    requires
        forall|j: int| 0 <= j < stops.len() ==> (#[trigger] stops[j]) != stop,
    ensures
        spec_stop_index(stops, stop) == -1,
    decreases stops.len(),
{
    if stops.len() > 0 {
        let rest = stops.subrange(1, stops.len() as int);
        assert forall|j: int| 0 <= j < rest.len() implies (#[trigger] rest[j]) != stop by {
            assert(rest[j] == stops[j + 1]);
        }
        lemma_stop_index_missing(rest, stop);
    }
}

/// Law: removing a voice twice is a no-op the second time — one removal
/// leaves no un-released note at that fundamental, so a second removal
/// relates the pool to itself unchanged.
pub proof fn lemma_remove_voice_idempotent(
    pre: InternalSynth,
    mid: InternalSynth,
    post: InternalSynth,
    frequency: int,
)
    requires
        spec_removed_voice(pre, mid, frequency),
        spec_voice_index(mid.notes@, frequency) == -1,
        spec_removed_voice(mid, post, frequency),
    ensures
        post == mid,
{
}

/// Law: pruning keeps exactly the un-finished notes — a note whose
/// envelopes have fully decayed is never part of the surviving pool.
pub proof fn lemma_live_notes_not_finished(notes: Seq<Note>, j: int)
    requires
        0 <= j < spec_live_notes(notes).len(),
    ensures
        !spec_live_notes(notes)[j].spec_is_finished(),
{
    notes.lemma_filter_pred(|n: Note| !n.spec_is_finished(), j);
}

} // verus!
