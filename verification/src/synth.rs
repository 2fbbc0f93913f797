//! The top-level dispatcher: it owns one engine per MIDI channel (created
//! lazily on the channel's first event), the resolved stop and preset
//! tables, and routes parsed messages to the addressed channel.
//!
//! Rendering sums every channel engine's next sample; each engine owns its
//! own filter chain, so no global filtering happens here.

use vstd::prelude::*;
use crate::config::{spec_get_preset_defaults, spec_get_presets, spec_get_stops, SynthConfig};
use crate::engine::{
    spec_added_stop, spec_added_voice, spec_engine_output, spec_engine_stepped,
    spec_removed_stop, spec_removed_voice, spec_used_preset, InternalSynth, ENGINE_CUTOFF,
    ENGINE_DELAY_MS, ENGINE_FEEDBACK, ENGINE_MIX,
};
use crate::filters::{Filter, LowPass, SimpleReverb};
use crate::midi::{spec_to_freq, Message, MessageKind};
use crate::stop::{spec_stops_valid, ConfigError, Stop};
use crate::units::{ENGINE_LIMIT, MAX_FREQUENCY, MAX_SAMPLE_RATE, SCALE};
use crate::waveform::Waveform;

verus! {

/// The number of MIDI channels; the dispatcher's address space.
pub const CHANNELS: usize = 16;

pub struct Synth {
    pub sample_rate: u32,
    /// One lazily created engine per MIDI channel.
    pub synths: Vec<Option<InternalSynth>>,
    /// Control-change identifier to single stop.
    pub available_stops: Vec<(u8, Stop)>,
    /// Control-change identifier to preset (ordered stop list).
    pub available_presets: Vec<(u8, Vec<Stop>)>,
    /// MIDI channel to default preset.
    pub preset_defaults: Vec<(u8, Vec<Stop>)>,
}

/// Index of the last entry under an identifier, or -1: later entries
/// shadow earlier ones, as in a map built by insertion.
pub open spec fn spec_key_index<T>(entries: Seq<(u8, T)>, key: u8) -> int
    decreases entries.len(),
{
    if entries.len() == 0 {
        -1
    } else if entries.last().0 == key {
        entries.len() - 1
    } else {
        spec_key_index(entries.drop_last(), key)
    }
}

/// Find the entry an identifier denotes.
fn find_key<T>(entries: &Vec<(u8, T)>, key: u8) -> (r: Option<usize>)
    ensures
        spec_key_index(entries@, key) == -1 ==> r is None,
        spec_key_index(entries@, key) != -1 ==> r == Some(spec_key_index(entries@, key) as usize),
        r matches Some(i) ==> i < entries@.len() && i == spec_key_index(entries@, key),
{
    let mut i: usize = entries.len();
    while i > 0
        invariant
            i <= entries@.len(),
            forall|j: int| i <= j < entries@.len() ==> (#[trigger] entries@[j]).0 != key,
        decreases i,
    {
        i = i - 1;
        if entries[i].0 == key {
            proof {
                lemma_key_index_found(entries@, key, i as int);
            }
            return Some(i);
        }
    }
    proof {
        lemma_key_index_missing(entries@, key);
    }
    None
}

proof fn lemma_key_index_found<T>(entries: Seq<(u8, T)>, key: u8, i: int)
    requires
        0 <= i < entries.len(),
        entries[i].0 == key,
        forall|j: int| i < j < entries.len() ==> (#[trigger] entries[j]).0 != key,
    ensures
        spec_key_index(entries, key) == i,
    decreases entries.len(),
{
    if i < entries.len() - 1 {
        assert(entries.drop_last()[i] == entries[i]);
        assert forall|j: int| i < j < entries.drop_last().len() implies (
        #[trigger] entries.drop_last()[j]).0 != key by {
            assert(entries.drop_last()[j] == entries[j]);
        }
        lemma_key_index_found(entries.drop_last(), key, i);
    }
}

proof fn lemma_key_index_missing<T>(entries: Seq<(u8, T)>, key: u8)
    requires
        forall|j: int| 0 <= j < entries.len() ==> (#[trigger] entries[j]).0 != key,
    ensures
        spec_key_index(entries, key) == -1,
    decreases entries.len(),
{
    if entries.len() > 0 {
        assert forall|j: int| 0 <= j < entries.drop_last().len() implies (
        #[trigger] entries.drop_last()[j]).0 != key by {
            assert(entries.drop_last()[j] == entries[j]);
        }
        lemma_key_index_missing(entries.drop_last(), key);
    }
}

/// The single fallback stop of a channel with no configured default
/// preset: a plain sine at the fundamental, full amplitude.
pub open spec fn spec_fallback_stops() -> Seq<Stop> {
    seq![Stop { waveform: Waveform::Sine, frequency_ratio: 1000, amplitude_ratio: SCALE }]
}

/// The timbre a fresh engine for `channel` starts with. The defaults
/// table is addressed with `channel + 1`: the configuration numbers
/// channels from one while the wire's status nibble counts from zero;
/// kept exactly as the configurations in use expect it.
pub open spec fn spec_channel_default_stops(
    defaults: Seq<(u8, Vec<Stop>)>,
    channel: int,
) -> Seq<Stop> {
    let k = spec_key_index(defaults, (channel + 1) as u8);
    if k == -1 {
        spec_fallback_stops()
    } else {
        defaults[k].1@
    }
}

/// How the engine handed to a handler relates to the channel's slot:
/// either the engine already there, or a fresh one built from the
/// channel's default preset.
pub open spec fn spec_channel_engine_init(
    slot: Option<InternalSynth>,
    engine: InternalSynth,
    sample_rate: u32,
    defaults: Seq<(u8, Vec<Stop>)>,
    channel: int,
) -> bool {
    match slot {
        Some(existing) => engine == existing,
        None => {
            &&& engine.sample_rate == sample_rate
            &&& engine.notes@.len() == 0
            &&& engine.stops@ == spec_channel_default_stops(defaults, channel)
            &&& engine.filters@.len() == 2
            &&& engine.filters@[0] == Filter::LowPass(
                LowPass { cutoff: ENGINE_CUTOFF, last_output: 0 },
            )
            &&& (engine.filters@[1] matches Filter::Echo(e) && e.delay_line@ == Seq::new(
                SimpleReverb::spec_delay_samples(sample_rate, ENGINE_DELAY_MS) as nat,
                |i: int| 0i64,
            ) && e.delay_index == 0 && e.feedback == ENGINE_FEEDBACK && e.mix == ENGINE_MIX)
        },
    }
}

/// Copy a stop list (stops are plain values).
fn copy_stops(stops: &Vec<Stop>) -> (r: Vec<Stop>)
    ensures
        r@ == stops@,
{
    let mut out: Vec<Stop> = Vec::new();
    let mut i: usize = 0;
    while i < stops.len()
        invariant
            i <= stops@.len(),
            out@ == stops@.subrange(0, i as int),
        decreases stops@.len() - i,
    {
        out.push(stops[i]);
        proof {
            assert(out@ =~= stops@.subrange(0, i + 1));
        }
        i = i + 1;
    }
    proof {
        assert(stops@.subrange(0, stops@.len() as int) =~= stops@);
    }
    out
}

/// Fetch the addressed channel's engine, creating it on first touch from
/// the channel's configured default preset (or the fallback stop).
pub fn get_or_create_synth<'a>(
    synths: &'a mut Vec<Option<InternalSynth>>,
    channel: u8,
    sample_rate: u32,
    preset_defaults: &Vec<(u8, Vec<Stop>)>,
) -> (synth: &'a mut InternalSynth)
    requires
        old(synths)@.len() == CHANNELS,
        channel < CHANNELS,
        1 <= sample_rate <= MAX_SAMPLE_RATE,
        forall|i: int|
            0 <= i < CHANNELS ==> ((#[trigger] old(synths)@[i]) matches Some(e) ==> e.wf()),
        forall|i: int|
            0 <= i < preset_defaults@.len() ==> spec_stops_valid(
                (#[trigger] preset_defaults@[i]).1@,
            ),
    ensures
        spec_channel_engine_init(
            old(synths)@[channel as int],
            *synth,
            sample_rate,
            preset_defaults@,
            channel as int,
        ),
        (*synth).wf(),
        final(synths)@ == old(synths)@.update(channel as int, Some(*final(synth))),
{
    let ch = channel as usize;
    let present = synths[ch].is_some();
    if !present {
        let stops: Vec<Stop> = match find_key(preset_defaults, channel + 1) {
            Some(k) => copy_stops(&preset_defaults[k].1),
            None => {
                let mut fallback: Vec<Stop> = Vec::new();
                fallback.push(
                    Stop {
                        waveform: Waveform::Sine,
                        frequency_ratio: 1000,
                        amplitude_ratio: SCALE,
                    },
                );
                proof {
                    assert(fallback@ =~= spec_fallback_stops());
                }
                fallback
            },
        };
        let engine = InternalSynth::new(sample_rate, stops);
        self_set(synths, ch, engine);
    }
    let slot = vstd::std_specs::vec::vec_index_mut(synths, ch);
    match slot {
        Some(engine) => engine,
        None => vstd::pervasive::unreached(),
    }
}

/// Store a freshly created engine in its channel slot.
fn self_set(synths: &mut Vec<Option<InternalSynth>>, ch: usize, engine: InternalSynth)
    requires
        ch < old(synths)@.len(),
    ensures
        final(synths)@ == old(synths)@.update(ch as int, Some(engine)),
{
    synths.set(ch, Some(engine));
}

/// Route a note-on: a zero value means note-off (the running-status
/// convention); a pitch beyond the supported band is dropped, since no
/// voice can sound it.
pub fn handle_note_on(synth: &mut InternalSynth, message: Message)
    requires
        old(synth).wf(),
        message.kind == MessageKind::NoteOn,
    ensures
        ({
            let f = spec_to_freq(message.identifier as int);
            if message.value == 0 {
                spec_removed_voice(*old(synth), *final(synth), f)
            } else if f <= MAX_FREQUENCY {
                spec_added_voice(*old(synth), *final(synth), f)
            } else {
                *final(synth) == *old(synth)
            }
        }),
        final(synth).wf(),
{
    let frequency = match message.frequency() {
        Ok(f) => f,
        Err(_) => {
            return ;
        },
    };
    if message.value == 0 {
        synth.remove_voice(frequency);
    } else {
        if frequency <= MAX_FREQUENCY {
            synth.add_voice(frequency);
        }
    }
}

/// Route a note-off: release the first un-released voice at that pitch.
pub fn handle_note_off(synth: &mut InternalSynth, message: Message)
    requires
        old(synth).wf(),
        message.kind == MessageKind::NoteOff,
    ensures
        spec_removed_voice(
            *old(synth),
            *final(synth),
            spec_to_freq(message.identifier as int),
        ),
        final(synth).wf(),
{
    let frequency = match message.frequency() {
        Ok(f) => f,
        Err(_) => {
            return ;
        },
    };
    synth.remove_voice(frequency);
}

/// Route a control change: the identifier is checked against the preset
/// table first (switch the whole timbre), then against the stop table
/// (toggle one partial; a zero value removes it); an unmatched identifier
/// is dropped.
pub fn handle_control_change(
    synth: &mut InternalSynth,
    presets: &Vec<(u8, Vec<Stop>)>,
    stops: &Vec<(u8, Stop)>,
    message: Message,
)
    requires
        old(synth).wf(),
        forall|i: int| 0 <= i < presets@.len() ==> spec_stops_valid((#[trigger] presets@[i]).1@),
        forall|i: int| 0 <= i < stops@.len() ==> (#[trigger] stops@[i]).1.valid(),
    ensures
        ({
            let pi = spec_key_index(presets@, message.identifier);
            let si = spec_key_index(stops@, message.identifier);
            if pi != -1 {
                spec_used_preset(*old(synth), *final(synth), presets@[pi].1@)
            } else if si != -1 {
                if message.value == 0 {
                    spec_removed_stop(*old(synth), *final(synth), stops@[si].1)
                } else {
                    spec_added_stop(*old(synth), *final(synth), stops@[si].1)
                }
            } else {
                *final(synth) == *old(synth)
            }
        }),
        final(synth).wf(),
{
    match find_key(presets, message.identifier) {
        Some(pi) => {
            let preset = copy_stops(&presets[pi].1);
            synth.use_preset(preset);
        },
        None => {
            match find_key(stops, message.identifier) {
                Some(si) => {
                    let stop = stops[si].1;
                    if message.value == 0 {
                        synth.remove_stop(stop);
                    } else {
                        synth.add_stop(stop);
                    }
                },
                None => {},
            }
        },
    }
}

/// How one dispatched message relates the addressed engine to its
/// successor, given the resolved tables.
pub open spec fn spec_dispatched(
    pre: InternalSynth,
    post: InternalSynth,
    message: Message,
    presets: Seq<(u8, Vec<Stop>)>,
    stops: Seq<(u8, Stop)>,
) -> bool {
    match message.kind {
        MessageKind::NoteOn => ({
            let f = spec_to_freq(message.identifier as int);
            if message.value == 0 {
                spec_removed_voice(pre, post, f)
            } else if f <= MAX_FREQUENCY {
                spec_added_voice(pre, post, f)
            } else {
                post == pre
            }
        }),
        MessageKind::NoteOff => spec_removed_voice(
            pre,
            post,
            spec_to_freq(message.identifier as int),
        ),
        MessageKind::ControlChange => ({
            let pi = spec_key_index(presets, message.identifier);
            let si = spec_key_index(stops, message.identifier);
            if pi != -1 {
                spec_used_preset(pre, post, presets[pi].1@)
            } else if si != -1 {
                if message.value == 0 {
                    spec_removed_stop(pre, post, stops[si].1)
                } else {
                    spec_added_stop(pre, post, stops[si].1)
                }
            } else {
                post == pre
            }
        }),
        MessageKind::ProgramChange => post == pre,
    }
}

/// Sum of the channel engines' next samples, silent channels skipped.
pub open spec fn spec_synth_sum(slots: Seq<Option<InternalSynth>>) -> int
    decreases slots.len(),
{
    if slots.len() == 0 {
        0
    } else {
        spec_synth_sum(slots.drop_last()) + (match slots.last() {
            None => 0,
            Some(engine) => spec_engine_output(engine),
        })
    }
}

/// Law: a dispatcher with no engines renders exact silence.
pub proof fn lemma_silent_without_engines(slots: Seq<Option<InternalSynth>>)
    requires
        forall|i: int| 0 <= i < slots.len() ==> (#[trigger] slots[i]) is None,
    ensures
        spec_synth_sum(slots) == 0,
    decreases slots.len(),
{
    if slots.len() > 0 {
        assert(slots.last() is None);
        assert forall|i: int| 0 <= i < slots.drop_last().len() implies (
        #[trigger] slots.drop_last()[i]) is None by {
            assert(slots.drop_last()[i] == slots[i]);
        }
        lemma_silent_without_engines(slots.drop_last());
    }
}

impl Synth {
    pub open spec fn wf(self) -> bool {
        &&& 1 <= self.sample_rate <= MAX_SAMPLE_RATE
        &&& self.synths@.len() == CHANNELS
        &&& forall|i: int|
            0 <= i < CHANNELS ==> ((#[trigger] self.synths@[i]) matches Some(e) ==> e.wf()
                && e.sample_rate == self.sample_rate)
        &&& forall|i: int|
            0 <= i < self.available_stops@.len() ==> (#[trigger] self.available_stops@[i]).1.valid()
        &&& forall|i: int|
            0 <= i < self.available_presets@.len() ==> spec_stops_valid(
                (#[trigger] self.available_presets@[i]).1@,
            )
        &&& forall|i: int|
            0 <= i < self.preset_defaults@.len() ==> spec_stops_valid(
                (#[trigger] self.preset_defaults@[i]).1@,
            )
    }

    /// Build the dispatcher: resolve the configuration into its three
    /// tables (stops first, then presets, then per-channel defaults — the
    /// first failure decides the error) and start with no engines.
    pub fn new(sample_rate: u32, config: SynthConfig) -> (r: Result<Synth, ConfigError>)
        requires
            1 <= sample_rate <= MAX_SAMPLE_RATE,
        ensures
            ({
                match spec_get_stops(config.stops@) {
                    Err(e) => r == Err::<Synth, ConfigError>(e),
                    Ok(stop_table) => match spec_get_presets(config.presets@, config) {
                        Err(e) => r == Err::<Synth, ConfigError>(e),
                        Ok(preset_table) => match spec_get_preset_defaults(
                            config.preset_defaults@,
                            config,
                        ) {
                            Err(e) => r == Err::<Synth, ConfigError>(e),
                            Ok(default_table) => r matches Ok(s) && s.sample_rate == sample_rate
                                && s.available_stops@ == stop_table && s.wf()
                                && s.available_presets@.len() == preset_table.len() && (forall|
                                i: int,
                            |
                                0 <= i < preset_table.len() ==> (
                                #[trigger] s.available_presets@[i]).0 == preset_table[i].0
                                    && s.available_presets@[i].1@ == preset_table[i].1)
                                && s.preset_defaults@.len() == default_table.len() && (forall|
                                i: int,
                            |
                                0 <= i < default_table.len() ==> (
                                #[trigger] s.preset_defaults@[i]).0 == default_table[i].0
                                    && s.preset_defaults@[i].1@ == default_table[i].1) && (forall|
                                i: int,
                            | 0 <= i < CHANNELS ==> (#[trigger] s.synths@[i]) is None),
                        },
                    },
                }
            }),
    {
        let available_stops = match crate::config::get_stops(&config) {
            Ok(v) => v,
            Err(e) => {
                return Err(e);
            },
        };
        let available_presets = match crate::config::get_presets(&config) {
            Ok(v) => v,
            Err(e) => {
                return Err(e);
            },
        };
        let preset_defaults = match crate::config::get_preset_defaults(&config) {
            Ok(v) => v,
            Err(e) => {
                return Err(e);
            },
        };
        let mut synths: Vec<Option<InternalSynth>> = Vec::new();
        let mut i: usize = 0;
        while i < CHANNELS
            invariant
                i <= CHANNELS,
                synths@.len() == i,
                forall|j: int| 0 <= j < i ==> (#[trigger] synths@[j]) is None,
            decreases CHANNELS - i,
        {
            synths.push(None);
            i = i + 1;
        }
        Ok(Synth { sample_rate, synths, available_stops, available_presets, preset_defaults })
    }

    /// Route one parsed message to the addressed channel's engine,
    /// creating the engine on the channel's first event. A channel beyond
    /// the 16-channel MIDI address space changes nothing.
    pub fn handle_midi_message(&mut self, message: Message)
        requires
            old(self).wf(),
        ensures
            final(self).wf(),
            final(self).sample_rate == old(self).sample_rate,
            final(self).available_stops@ == old(self).available_stops@,
            final(self).available_presets@ == old(self).available_presets@,
            final(self).preset_defaults@ == old(self).preset_defaults@,
            message.channel >= CHANNELS ==> *final(self) == *old(self),
            message.channel < CHANNELS ==> final(self).synths@.len() == CHANNELS && (forall|
                c: int,
            |
                0 <= c < CHANNELS && c != message.channel ==> final(self).synths@[c]
                    == #[trigger] old(self).synths@[c]) && (exists|
                e0: InternalSynth,
                e1: InternalSynth,
            |
                {
                    &&& #[trigger] spec_channel_engine_init(
                        old(self).synths@[message.channel as int],
                        e0,
                        old(self).sample_rate,
                        old(self).preset_defaults@,
                        message.channel as int,
                    )
                    &&& #[trigger] spec_dispatched(
                        e0,
                        e1,
                        message,
                        old(self).available_presets@,
                        old(self).available_stops@,
                    )
                    &&& final(self).synths@[message.channel as int] == Some(e1)
                }),
    {
        if message.channel >= (CHANNELS as u8) {
            return ;
        }
        let synth = get_or_create_synth(
            &mut self.synths,
            message.channel,
            self.sample_rate,
            &self.preset_defaults,
        );
        let ghost e0 = *synth;
        match message.kind {
            MessageKind::NoteOn => handle_note_on(synth, message),
            MessageKind::NoteOff => handle_note_off(synth, message),
            MessageKind::ControlChange => handle_control_change(
                synth,
                &self.available_presets,
                &self.available_stops,
                message,
            ),
            MessageKind::ProgramChange => {},
        }
        proof {
            let ch = message.channel as int;
            let e1 = *final(synth);
            assert(self.synths@ == old(self).synths@.update(ch, Some(e1)));
            assert(spec_channel_engine_init(
                old(self).synths@[ch],
                e0,
                old(self).sample_rate,
                old(self).preset_defaults@,
                ch,
            ));
            assert(spec_dispatched(
                e0,
                e1,
                message,
                old(self).available_presets@,
                old(self).available_stops@,
            ));
            assert(e0.sample_rate == old(self).sample_rate);
            assert(e1.sample_rate == e0.sample_rate && e1.wf());
        }
    }

    /// Produce one output sample: every channel engine's next sample,
    /// summed. Channels without an engine contribute silence.
    pub fn next_sample(&mut self) -> (r: i64)
        requires
            old(self).wf(),
        ensures
            final(self).wf(),
            final(self).sample_rate == old(self).sample_rate,
            final(self).available_stops@ == old(self).available_stops@,
            final(self).available_presets@ == old(self).available_presets@,
            final(self).preset_defaults@ == old(self).preset_defaults@,
            final(self).synths@.len() == CHANNELS,
            forall|c: int|
                0 <= c < CHANNELS ==> match #[trigger] old(self).synths@[c] {
                    None => final(self).synths@[c] is None,
                    Some(e) => final(self).synths@[c] matches Some(e2) && spec_engine_stepped(
                        e,
                        e2,
                    ),
                },
            r == spec_synth_sum(old(self).synths@),
            -16 * ENGINE_LIMIT <= r <= 16 * ENGINE_LIMIT,
    {
        let ghost orig = self.synths@;
        let mut total: i64 = 0;
        let mut ch: usize = 0;
        while ch < CHANNELS
            invariant
                old(self).wf(),
                orig == old(self).synths@,
                ch <= CHANNELS,
                self.sample_rate == old(self).sample_rate,
                self.available_stops@ == old(self).available_stops@,
                self.available_presets@ == old(self).available_presets@,
                self.preset_defaults@ == old(self).preset_defaults@,
                self.synths@.len() == CHANNELS,
                forall|c: int| ch <= c < CHANNELS ==> self.synths@[c] == (#[trigger] orig[c]),
                forall|c: int|
                    0 <= c < ch ==> match #[trigger] orig[c] {
                        None => self.synths@[c] is None,
                        Some(e) => self.synths@[c] matches Some(e2) && spec_engine_stepped(e, e2)
                            && e2.wf() && e2.sample_rate == old(self).sample_rate,
                    },
                total == spec_synth_sum(orig.subrange(0, ch as int)),
                -(ch as int) * ENGINE_LIMIT <= total <= (ch as int) * ENGINE_LIMIT,
            decreases CHANNELS - ch,
        {
            proof {
                assert(self.synths@[ch as int] == orig[ch as int]);
            }
            let slot = vstd::std_specs::vec::vec_index_mut(&mut self.synths, ch);
            match slot {
                Some(engine) => {
                    let s = engine.next_sample();
                    total = total + s;
                },
                None => {},
            }
            proof {
                assert(orig.subrange(0, ch + 1).drop_last() =~= orig.subrange(0, ch as int));
                assert(orig.subrange(0, ch + 1).last() == orig[ch as int]);
            }
            ch = ch + 1;
        }
        proof {
            assert(orig.subrange(0, CHANNELS as int) =~= orig);
            assert forall|i: int|
                0 <= i < CHANNELS implies ((#[trigger] self.synths@[i]) matches Some(e) ==> e.wf()
                && e.sample_rate == old(self).sample_rate) by {
                assert(orig[i] == old(self).synths@[i]);
            }
        }
        total
    }
}

} // verus!
