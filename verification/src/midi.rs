//! Parsing of raw 3-byte MIDI packets into structured messages, and the
//! twelve-tone equal-temperament pitch table.

use vstd::prelude::*;
use crate::units::pow2;

verus! {

#[derive(Debug, Copy, Clone, PartialEq, Eq, Structural)]
pub enum MessageKind {
    NoteOn,
    NoteOff,
    ControlChange,
    ProgramChange,
}

#[derive(Debug, Copy, Clone, PartialEq, Eq, Structural)]
pub struct Message {
    pub channel: u8,
    pub kind: MessageKind,
    pub identifier: u8,
    pub value: u8,
}

/// Why a packet or a message was rejected.
#[derive(Debug, Copy, Clone, PartialEq, Eq, Structural)]
pub enum MidiError {
    /// The status nibble names no message kind this synthesizer understands.
    UnsupportedKind(u8),
    /// The message kind carries no pitch (control or program change).
    NoFrequency(MessageKind),
}

/// The message kind encoded by a status byte's upper nibble, if any.
pub open spec fn spec_status_kind(status: u8) -> Option<MessageKind> {
    if status & 0xF0 == 0x80 {
        Some(MessageKind::NoteOff)
    } else if status & 0xF0 == 0x90 {
        Some(MessageKind::NoteOn)
    } else if status & 0xF0 == 0xB0 {
        Some(MessageKind::ControlChange)
    } else if status & 0xF0 == 0xC0 {
        Some(MessageKind::ProgramChange)
    } else {
        None
    }
}

/// Parse one raw 3-byte MIDI packet.
///
/// Succeeds exactly on the four understood status nibbles (note off, note
/// on, control change, program change); the channel is the status byte's
/// lower nibble and is always below 16.
pub fn try_parse(data: &[u8; 3]) -> (r: Result<Message, MidiError>)
    ensures
        match spec_status_kind(data@[0]) {
            Some(kind) => r == Ok::<Message, MidiError>(Message {
                channel: data@[0] & 0x0F,
                kind,
                identifier: data@[1],
                value: data@[2],
            }),
            None => r == Err::<Message, MidiError>(MidiError::UnsupportedKind(data@[0] & 0xF0)),
        },
        r matches Ok(m) ==> m.channel < 16,
{
    let status = data[0];
    let identifier = data[1];
    let value = data[2];
    let raw_kind = status & 0xF0;
    let kind = match raw_kind {
        0x80 => MessageKind::NoteOff,
        0x90 => MessageKind::NoteOn,
        0xB0 => MessageKind::ControlChange,
        0xC0 => MessageKind::ProgramChange,
        _ => {
            return Err(MidiError::UnsupportedKind(raw_kind));
        },
    };
    let channel = status & 0x0F;
    proof {
        assert(status & 0x0F < 16) by (bit_vector);
    }
    Ok(Message { channel, kind, identifier, value })
}

/// One octave of pitches in microhertz: MIDI identifiers 0 to 11
/// (`440 * 2^((n - 69) / 12)` hertz, rounded to the nearest microhertz).
pub open spec fn spec_semitone_microhertz(r: int) -> int {
    if r == 0 {
        8_175_799
    } else if r == 1 {
        8_661_957
    } else if r == 2 {
        9_177_024
    } else if r == 3 {
        9_722_718
    } else if r == 4 {
        10_300_861
    } else if r == 5 {
        10_913_382
    } else if r == 6 {
        11_562_326
    } else if r == 7 {
        12_249_857
    } else if r == 8 {
        12_978_272
    } else if r == 9 {
        13_750_000
    } else if r == 10 {
        14_567_618
    } else if r == 11 {
        15_433_853
    } else {
        0
    }
}

/// The fundamental frequency of a MIDI identifier, in millihertz:
/// the semitone's microhertz value, doubled once per octave, rounded
/// to the nearest millihertz.
pub open spec fn spec_to_freq(identifier: int) -> int {
    (spec_semitone_microhertz(identifier % 12) * pow2((identifier / 12) as nat) + 500) / 1000
}

/// The fundamental frequency of a MIDI identifier, in millihertz.
///
/// Identifier 69 (concert A) maps to exactly 440000 millihertz.
pub fn to_freq(identifier: u8) -> (r: u64)
    ensures
        r == spec_to_freq(identifier as int),
        1 <= r <= 33_000_000_000,
{
    let rem = identifier % 12;
    let oct = identifier / 12;
    let base: u64 = match rem {
        0 => 8_175_799,
        1 => 8_661_957,
        2 => 9_177_024,
        3 => 9_722_718,
        4 => 10_300_861,
        5 => 10_913_382,
        6 => 11_562_326,
        7 => 12_249_857,
        8 => 12_978_272,
        9 => 13_750_000,
        10 => 14_567_618,
        _ => 15_433_853,
    };
    assert(rem < 12 && oct <= 21);
    assert(base == spec_semitone_microhertz(rem as int));
    let p = crate::units::pow2_u64(oct as u64);
    proof {
        crate::units::lemma_pow2_increases(oct as nat, 21);
        crate::units::lemma_pow2_21();
        assert(base * p <= 15_433_853 * 2_097_152) by (nonlinear_arith)
            requires
                base <= 15_433_853,
                0 <= p <= 2_097_152,
        ;
        assert(base * p >= 8_175_799) by (nonlinear_arith)
            requires
                base >= 8_175_799,
                p >= 1,
        ;
    }
    let micro = base * p;
    (micro + 500) / 1000
}

impl Message {
    /// The pitch of a note message, in millihertz; control and program
    /// changes carry none.
    pub fn frequency(&self) -> (r: Result<u64, MidiError>)
        ensures
            self.kind == MessageKind::NoteOn || self.kind == MessageKind::NoteOff ==> (r matches
                Ok(f) && f == spec_to_freq(self.identifier as int)),
            !(self.kind == MessageKind::NoteOn || self.kind == MessageKind::NoteOff)
                ==> r == Err::<u64, MidiError>(MidiError::NoFrequency(self.kind)),
            r matches Ok(f) ==> 1 <= f <= 33_000_000_000,
    {
        match self.kind {
            MessageKind::NoteOn => Ok(to_freq(self.identifier)),
            MessageKind::NoteOff => Ok(to_freq(self.identifier)),
            _ => Err(MidiError::NoFrequency(self.kind)),
        }
    }
}

} // verus!
