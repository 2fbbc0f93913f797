use synth::midi::{to_freq, try_parse, Message, MessageKind, MidiError};

#[test]
fn concert_a_is_exactly_440_hz() {
    // 440.0 Hz in millihertz, exact.
    assert_eq!(to_freq(69), 440_000);
}

#[test]
fn middle_c_is_about_261_626_hz() {
    // 261.626 Hz, rounded to the nearest millihertz.
    assert_eq!(to_freq(60), 261_626);
}

#[test]
fn octaves_double_the_frequency() {
    assert_eq!(to_freq(57), 220_000);
    assert_eq!(to_freq(81), 880_000);
    assert_eq!(to_freq(33), 55_000);
}

#[test]
fn lowest_and_highest_identifiers() {
    assert_eq!(to_freq(0), 8_176); // 8.1758 Hz
    assert_eq!(to_freq(127), 12_543_854); // 12543.854 Hz
}

#[test]
fn parse_note_on() {
    let m = try_parse(&[0x90, 60, 100]).unwrap();
    assert_eq!(m.channel, 0);
    assert!(matches!(m.kind, MessageKind::NoteOn));
    assert_eq!(m.identifier, 60);
    assert_eq!(m.value, 100);
}

#[test]
fn parse_note_off() {
    let m = try_parse(&[0x80, 60, 0]).unwrap();
    assert_eq!(m.channel, 0);
    assert!(matches!(m.kind, MessageKind::NoteOff));
    assert_eq!(m.identifier, 60);
    assert_eq!(m.value, 0);
}

#[test]
fn parse_reads_the_channel_nibble() {
    let m = try_parse(&[0x95, 64, 1]).unwrap();
    assert_eq!(m.channel, 5);
    let m = try_parse(&[0x8F, 64, 1]).unwrap();
    assert_eq!(m.channel, 15);
}

#[test]
fn parse_control_and_program_change() {
    let m = try_parse(&[0xB3, 20, 1]).unwrap();
    assert!(matches!(m.kind, MessageKind::ControlChange));
    assert_eq!(m.channel, 3);
    let m = try_parse(&[0xC1, 7, 0]).unwrap();
    assert!(matches!(m.kind, MessageKind::ProgramChange));
    assert_eq!(m.channel, 1);
}

#[test]
fn parse_rejects_unknown_status() {
    assert_eq!(
        try_parse(&[0xE0, 1, 2]),
        Err(MidiError::UnsupportedKind(0xE0))
    );
    assert_eq!(
        try_parse(&[0x35, 1, 2]),
        Err(MidiError::UnsupportedKind(0x30))
    );
    assert_eq!(
        try_parse(&[0xA1, 1, 2]),
        Err(MidiError::UnsupportedKind(0xA0))
    );
}

#[test]
fn message_frequency_for_notes_only() {
    let on = Message { channel: 0, kind: MessageKind::NoteOn, identifier: 69, value: 10 };
    assert_eq!(on.frequency(), Ok(440_000));
    let off = Message { channel: 0, kind: MessageKind::NoteOff, identifier: 57, value: 0 };
    assert_eq!(off.frequency(), Ok(220_000));
    let cc = Message { channel: 0, kind: MessageKind::ControlChange, identifier: 1, value: 2 };
    assert_eq!(
        cc.frequency(),
        Err(MidiError::NoFrequency(MessageKind::ControlChange))
    );
}

#[test]
fn identifiers_above_the_midi_range_still_map_to_a_pitch() {
    // The pitch formula is total over the whole byte; the dispatcher is
    // what drops pitches beyond the audible band.
    assert_eq!(to_freq(129), to_freq(117) * 2);
    assert!(to_freq(255) > 20_000_000);
}
