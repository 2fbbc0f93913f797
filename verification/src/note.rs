//! A note: one sounding pitch, composed of one oscillator per stop of the
//! timbre that was active when it was struck.

use vstd::prelude::*;
use crate::oscillator::Oscillator;
use crate::stop::{spec_stops_valid, Stop};
use crate::units::{
    clamp_signal, spec_mix, lemma_mix_bounded, MAX_FREQUENCY, MAX_SAMPLE_RATE, MIX_LIMIT,
};

verus! {

#[derive(Debug, Clone)]
pub struct Note {
    pub sample_rate: u32,
    pub oscillators: Vec<Oscillator>,
    /// The fundamental frequency this note was struck at, in millihertz.
    pub frequency: u64,
    pub is_released: bool,
}

/// The oscillators a stop list produces at a fundamental.
pub open spec fn spec_oscillators_for(stops: Seq<Stop>, frequency: int, sample_rate: u32) -> Seq<
    Oscillator,
> {
    stops.map_values(|s: Stop| Oscillator::spec_from_stop(s, frequency, sample_rate))
}

/// Index of the first un-released oscillator matching the stop at the
/// fundamental, or -1 when none does.
pub open spec fn spec_removal_index(s: Seq<Oscillator>, stop: Stop, frequency: int) -> int
    decreases s.len(),
{
    if s.len() == 0 {
        -1
    } else if s[0].spec_matches_stop(stop, frequency) && !s[0].is_released {
        0
    } else {
        let rest = spec_removal_index(s.subrange(1, s.len() as int), stop, frequency);
        if rest == -1 {
            -1
        } else {
            rest + 1
        }
    }
}

impl Note {
    pub open spec fn wf(self) -> bool {
        &&& 1 <= self.sample_rate <= MAX_SAMPLE_RATE
        &&& self.frequency <= MAX_FREQUENCY
        &&& forall|i: int|
            0 <= i < self.oscillators@.len() ==> (#[trigger] self.oscillators@[i]).wf()
    }

    /// Strike a note: one oscillator per stop, none released.
    pub fn new(frequency: u64, sample_rate: u32, stops: &[Stop]) -> (r: Note)
        requires
            frequency <= MAX_FREQUENCY,
            1 <= sample_rate <= MAX_SAMPLE_RATE,
            spec_stops_valid(stops@),
        ensures
            r.frequency == frequency,
            r.sample_rate == sample_rate,
            !r.is_released,
            r.oscillators@ == spec_oscillators_for(stops@, frequency as int, sample_rate),
            r.wf(),
    {
        let oscillators = build_oscillators(frequency, sample_rate, stops);
        Note { sample_rate, oscillators, frequency, is_released: false }
    }

    /// Rebuild the oscillators from a new stop list, keeping the
    /// fundamental and the released flag; a hard timbre change mid-sound.
    pub fn use_preset(&mut self, stops: &[Stop])
        requires
            old(self).wf(),
            spec_stops_valid(stops@),
        ensures
            final(self).oscillators@ == spec_oscillators_for(
                stops@,
                old(self).frequency as int,
                old(self).sample_rate,
            ),
            final(self).frequency == old(self).frequency,
            final(self).sample_rate == old(self).sample_rate,
            final(self).is_released == old(self).is_released,
            final(self).wf(),
    {
        self.oscillators = build_oscillators(self.frequency, self.sample_rate, stops);
    }

    /// Add one oscillator for a stop, at this note's fundamental.
    pub fn add_stop(&mut self, stop: &Stop)
        requires
            old(self).wf(),
            stop.valid(),
        ensures
            final(self).oscillators@ == old(self).oscillators@.push(
                Oscillator::spec_from_stop(
                    *stop,
                    old(self).frequency as int,
                    old(self).sample_rate,
                ),
            ),
            final(self).frequency == old(self).frequency,
            final(self).sample_rate == old(self).sample_rate,
            final(self).is_released == old(self).is_released,
            final(self).wf(),
    {
        let o = Oscillator::from_stop(stop, self.frequency, self.sample_rate);
        self.oscillators.push(o);
    }

    /// Release (not delete) the first un-released oscillator that the stop
    /// would have produced at this note's fundamental; a silent no-op when
    /// none matches exactly.
    pub fn remove_stop(&mut self, stop: &Stop)
        requires
            old(self).wf(),
            stop.valid(),
        ensures
            ({
                let idx = spec_removal_index(
                    old(self).oscillators@,
                    *stop,
                    old(self).frequency as int,
                );
                if idx == -1 {
                    *final(self) == *old(self)
                } else {
                    final(self).oscillators@ == old(self).oscillators@.update(
                        idx,
                        old(self).oscillators@[idx].spec_released(),
                    ) && final(self).frequency == old(self).frequency && final(self).sample_rate
                        == old(self).sample_rate && final(self).is_released == old(
                        self,
                    ).is_released
                }
            }),
            final(self).wf(),
    {
        let ghost orig = self.oscillators@;
        let mut i: usize = 0;
        while i < self.oscillators.len()
            invariant
                self == old(self),
                old(self).wf(),
                stop.valid(),
                i <= orig.len(),
                orig == self.oscillators@,
                forall|j: int|
                    0 <= j < i ==> !((#[trigger] orig[j]).spec_matches_stop(
                        *stop,
                        old(self).frequency as int,
                    ) && !orig[j].is_released),
            decreases orig.len() - i,
        {
            let matched = self.oscillators[i].matches_stop(stop, self.frequency);
            if matched && !self.oscillators[i].is_released {
                proof {
                    lemma_removal_index_found(orig, *stop, old(self).frequency as int, i as int);
                }
                let mut o = self.oscillators[i];
                o.release();
                self.oscillators.set(i, o);
                return ;
            }
            i = i + 1;
        }
        proof {
            lemma_removal_index_missing(orig, *stop, old(self).frequency as int);
        }
    }

    /// Release the whole note: mark it released and release every
    /// oscillator. Releasing twice has the same effect as once.
    pub fn release(&mut self)
        requires
            old(self).wf(),
        ensures
            final(self).is_released,
            final(self).oscillators@ == old(self).oscillators@.map_values(
                |o: Oscillator| o.spec_released(),
            ),
            final(self).frequency == old(self).frequency,
            final(self).sample_rate == old(self).sample_rate,
            final(self).wf(),
    {
        self.is_released = true;
        let ghost orig = self.oscillators@;
        let mut i: usize = 0;
        while i < self.oscillators.len()
            invariant
                i <= orig.len(),
                self.oscillators@.len() == orig.len(),
                self.frequency == old(self).frequency,
                self.sample_rate == old(self).sample_rate,
                self.is_released,
                forall|j: int| i <= j < orig.len() ==> self.oscillators@[j] == (#[trigger] orig[j]),
                forall|j: int|
                    0 <= j < i ==> self.oscillators@[j] == (#[trigger] orig[j]).spec_released(),
                forall|j: int| 0 <= j < orig.len() ==> (#[trigger] orig[j]).wf(),
            decreases orig.len() - i,
        {
            let mut o = self.oscillators[i];
            o.release();
            self.oscillators.set(i, o);
            i = i + 1;
        }
        proof {
            assert(self.oscillators@ =~= orig.map_values(|o: Oscillator| o.spec_released()));
        }
    }

    /// A note is finished exactly when every oscillator it contains is.
    pub open spec fn spec_is_finished(self) -> bool {
        forall|i: int|
            0 <= i < self.oscillators@.len() ==> (#[trigger] self.oscillators@[i]).spec_is_finished()
    }

    /// Whether every contained oscillator has released and decayed.
    pub fn is_finished(&self) -> (r: bool)
        ensures
            r == self.spec_is_finished(),
    {
        let mut i: usize = 0;
        while i < self.oscillators.len()
            invariant
                i <= self.oscillators@.len(),
                forall|j: int|
                    0 <= j < i ==> (#[trigger] self.oscillators@[j]).spec_is_finished(),
            decreases self.oscillators@.len() - i,
        {
            if !self.oscillators[i].is_finished() {
                return false;
            }
            i = i + 1;
        }
        true
    }

    /// The samples this step draws from the oscillators, in order.
    pub open spec fn spec_step_outputs(self) -> Seq<int> {
        self.oscillators@.map_values(|o: Oscillator| o.spec_output())
    }

    /// Advance every oscillator one sample and mix their outputs onto the
    /// saturating bus.
    pub fn next_sample(&mut self) -> (r: i64)
        requires
            old(self).wf(),
        ensures
            final(self).oscillators@ == old(self).oscillators@.map_values(
                |o: Oscillator| o.spec_advanced(),
            ),
            final(self).frequency == old(self).frequency,
            final(self).sample_rate == old(self).sample_rate,
            final(self).is_released == old(self).is_released,
            final(self).wf(),
            r == spec_mix(old(self).spec_step_outputs()),
            -MIX_LIMIT <= r <= MIX_LIMIT,
    {
        let ghost orig = self.oscillators@;
        let mut total: i64 = 0;
        let mut i: usize = 0;
        while i < self.oscillators.len()
            invariant
                i <= orig.len(),
                self.oscillators@.len() == orig.len(),
                self.frequency == old(self).frequency,
                self.sample_rate == old(self).sample_rate,
                self.is_released == old(self).is_released,
                forall|j: int| i <= j < orig.len() ==> self.oscillators@[j] == (#[trigger] orig[j]),
                forall|j: int|
                    0 <= j < i ==> self.oscillators@[j] == (#[trigger] orig[j]).spec_advanced(),
                forall|j: int| 0 <= j < orig.len() ==> (#[trigger] orig[j]).wf(),
                total == spec_mix(
                    orig.subrange(0, i as int).map_values(|o: Oscillator| o.spec_output()),
                ),
                -MIX_LIMIT <= total <= MIX_LIMIT,
            decreases orig.len() - i,
        {
            proof {
                assert(self.oscillators@[i as int] == orig[i as int]);
                assert(orig[i as int].wf());
            }
            let mut o = self.oscillators[i];
            let s = o.next_sample();
            self.oscillators.set(i, o);
            total = clamp_signal(total + s);
            proof {
                let outputs = |o: Oscillator| o.spec_output();
                assert(orig.subrange(0, i + 1).map_values(outputs) =~= orig.subrange(
                    0,
                    i as int,
                ).map_values(outputs).push(orig[i as int].spec_output()));
                assert(orig.subrange(0, i + 1).map_values(outputs).drop_last() =~= orig.subrange(
                    0,
                    i as int,
                ).map_values(outputs));
            }
            i = i + 1;
        }
        proof {
            assert(orig.subrange(0, orig.len() as int) =~= orig);
            assert(self.oscillators@ =~= orig.map_values(|o: Oscillator| o.spec_advanced()));
            lemma_mix_bounded(old(self).spec_step_outputs());
        }
        total
    }
}

/// Build one oscillator per stop at the given fundamental.
fn build_oscillators(frequency: u64, sample_rate: u32, stops: &[Stop]) -> (r: Vec<Oscillator>)
    requires
        frequency <= MAX_FREQUENCY,
        1 <= sample_rate <= MAX_SAMPLE_RATE,
        spec_stops_valid(stops@),
    ensures
        r@ == spec_oscillators_for(stops@, frequency as int, sample_rate),
        forall|i: int| 0 <= i < r@.len() ==> (#[trigger] r@[i]).wf(),
{
    let mut oscillators: Vec<Oscillator> = Vec::new();
    let mut i: usize = 0;
    while i < stops.len()
        invariant
            frequency <= MAX_FREQUENCY,
            1 <= sample_rate <= MAX_SAMPLE_RATE,
            spec_stops_valid(stops@),
            i <= stops@.len(),
            oscillators@.len() == i,
            forall|j: int|
                0 <= j < i ==> oscillators@[j] == Oscillator::spec_from_stop(
                    #[trigger] stops@[j],
                    frequency as int,
                    sample_rate,
                ),
            forall|j: int| 0 <= j < i ==> (#[trigger] oscillators@[j]).wf(),
        decreases stops@.len() - i,
    {
        let o = Oscillator::from_stop(&stops[i], frequency, sample_rate);
        oscillators.push(o);
        i = i + 1;
    }
    proof {
        assert(oscillators@ =~= spec_oscillators_for(stops@, frequency as int, sample_rate));
    }
    oscillators
}

/// How `next_sample` relates a note to its successor: every oscillator
/// advanced one step, everything else untouched.
pub open spec fn spec_note_stepped(pre: Note, post: Note) -> bool {
    &&& post.oscillators@ == pre.oscillators@.map_values(|o: Oscillator| o.spec_advanced())
    &&& post.frequency == pre.frequency
    &&& post.sample_rate == pre.sample_rate
    &&& post.is_released == pre.is_released
}

/// How `release` relates a note to its successor.
pub open spec fn spec_note_released(pre: Note, post: Note) -> bool {
    &&& post.oscillators@ == pre.oscillators@.map_values(|o: Oscillator| o.spec_released())
    &&& post.frequency == pre.frequency
    &&& post.sample_rate == pre.sample_rate
    &&& post.is_released
}

/// How `use_preset` relates a note to its successor.
pub open spec fn spec_note_with_preset(pre: Note, post: Note, stops: Seq<Stop>) -> bool {
    &&& post.oscillators@ == spec_oscillators_for(stops, pre.frequency as int, pre.sample_rate)
    &&& post.frequency == pre.frequency
    &&& post.sample_rate == pre.sample_rate
    &&& post.is_released == pre.is_released
}

/// How `add_stop` relates a note to its successor.
pub open spec fn spec_note_with_stop(pre: Note, post: Note, stop: Stop) -> bool {
    &&& post.oscillators@ == pre.oscillators@.push(
        Oscillator::spec_from_stop(stop, pre.frequency as int, pre.sample_rate),
    )
    &&& post.frequency == pre.frequency
    &&& post.sample_rate == pre.sample_rate
    &&& post.is_released == pre.is_released
}

/// How `remove_stop` relates a note to its successor.
pub open spec fn spec_note_without_stop(pre: Note, post: Note, stop: Stop) -> bool {
    ({
        let idx = spec_removal_index(pre.oscillators@, stop, pre.frequency as int);
        if idx == -1 {
            post == pre
        } else {
            &&& post.oscillators@ == pre.oscillators@.update(
                idx,
                pre.oscillators@[idx].spec_released(),
            )
            &&& post.frequency == pre.frequency
            &&& post.sample_rate == pre.sample_rate
            &&& post.is_released == pre.is_released
        }
    })
}

/// Law: releasing a note's oscillators twice leaves exactly the state of
/// releasing them once.
pub proof fn lemma_release_idempotent(oscillators: Seq<Oscillator>)
    ensures
        oscillators.map_values(|o: Oscillator| o.spec_released()).map_values(
            |o: Oscillator| o.spec_released(),
        ) == oscillators.map_values(|o: Oscillator| o.spec_released()),
{
    assert(oscillators.map_values(|o: Oscillator| o.spec_released()).map_values(
        |o: Oscillator| o.spec_released(),
    ) =~= oscillators.map_values(|o: Oscillator| o.spec_released()));
}

/// If the oscillator list has no entry that matches un-released, the
/// removal index is -1.
proof fn lemma_removal_index_missing(s: Seq<Oscillator>, stop: Stop, frequency: int)
    requires
        forall|j: int|
            0 <= j < s.len() ==> !((#[trigger] s[j]).spec_matches_stop(stop, frequency)
                && !s[j].is_released),
    ensures
        spec_removal_index(s, stop, frequency) == -1,
    decreases s.len(),
{
    if s.len() > 0 {
        let rest = s.subrange(1, s.len() as int);
        assert forall|j: int| 0 <= j < rest.len() implies !((#[trigger] rest[j]).spec_matches_stop(
            stop,
            frequency,
        ) && !rest[j].is_released) by {
            assert(rest[j] == s[j + 1]);
        }
        lemma_removal_index_missing(rest, stop, frequency);
    }
}

/// If the first `i` entries fail and entry `i` matches un-released, the
/// removal index is `i`.
proof fn lemma_removal_index_found(s: Seq<Oscillator>, stop: Stop, frequency: int, i: int)
    requires
        0 <= i < s.len(),
        s[i].spec_matches_stop(stop, frequency),
        !s[i].is_released,
        forall|j: int|
            0 <= j < i ==> !((#[trigger] s[j]).spec_matches_stop(stop, frequency)
                && !s[j].is_released),
    ensures
        spec_removal_index(s, stop, frequency) == i,
    decreases s.len(),
{
    if i > 0 {
        let rest = s.subrange(1, s.len() as int);
        assert forall|j: int| 0 <= j < i - 1 implies !((#[trigger] rest[j]).spec_matches_stop(
            stop,
            frequency,
        ) && !rest[j].is_released) by {
            assert(rest[j] == s[j + 1]);
        }
        assert(rest[i - 1] == s[i]);
        lemma_removal_index_found(rest, stop, frequency, i - 1);
    }
}

} // verus!
