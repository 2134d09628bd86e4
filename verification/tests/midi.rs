use jianpu::ast::grouped::{
    GroupedChordNote, GroupedNote, Metadata, MultiPartMeasure, NoteEvent, Notes, PartRow,
    PartSlice, Score, TimeSignature,
};
use jianpu::ast::parsed::{Accidental, JianPuPitch, KeyChange, Note, NoteName, PartKind, TriadQuality};
use jianpu::error::Span;
use jianpu::midi::{
    chord_midi_notes, duration_to_ticks, midi_track_items, resolve_midi_note, write_midi, MidiKind,
};

fn key(name: NoteName, octave: u8) -> KeyChange {
    KeyChange { note: Note { name, octave, accidental: Accidental::Natural } }
}

fn metadata() -> Metadata {
    Metadata {
        title: String::new(),
        subtitle: None,
        author: String::new(),
        row_height: 24,
        max_columns: 28,
        label_width: 40,
        note_number_width: 8,
    }
}

fn measure(events: Vec<NoteEvent>, kind: PartKind, bpm: Option<u32>) -> MultiPartMeasure {
    MultiPartMeasure {
        time_signature: Some(TimeSignature { numerator: 4, denominator: 4 }),
        bpm,
        key: Some(key(NoteName::C, 4)),
        label: None,
        parts: vec![PartRow::Timed(PartSlice { name: None, kind, notes: Notes { events }, lyrics: None })],
        source_span: Span::new(0, 0),
    }
}

fn note(pitch: JianPuPitch, duration: u32, tie: bool) -> NoteEvent {
    NoteEvent::Note(GroupedNote {
        pitch,
        octave: 0,
        duration,
        tie,
        group_membership: 0,
        group_continuation: 0,
        dotted: false,
        slur_group_close_at_duration: None,
    })
}

fn c_major(duration: u32) -> GroupedChordNote {
    GroupedChordNote {
        degree: JianPuPitch::One,
        accidental: Accidental::Natural,
        triad: TriadQuality::Major,
        extension: None,
        bass: None,
        duration,
        tie: false,
        group_membership: 0,
        group_continuation: 0,
        dotted: false,
        slur_group_close_at_duration: None,
    }
}

#[test]
fn chord_major_expands_to_three_notes() {
    let score = Score {
        metadata: metadata(),
        measures: vec![measure(vec![NoteEvent::Chord(c_major(16))], PartKind::Chord, Some(120))],
    };
    let midi_bytes = write_midi(&score).unwrap();
    assert!(midi_bytes.starts_with(b"MThd"), "expected MIDI header");
    assert!(midi_bytes.len() > 20);
    let ons = midi_track_items(&score)
        .iter()
        .filter(|i| matches!(i.kind, MidiKind::NoteOn(_, _)))
        .count();
    assert_eq!(ons, 3);
}

#[test]
fn middle_c_degree_one() {
    assert_eq!(resolve_midi_note(&JianPuPitch::One, 0, &key(NoteName::C, 4)), 60);
}

#[test]
fn degree_five_c4_is_g4() {
    assert_eq!(resolve_midi_note(&JianPuPitch::Five, 0, &key(NoteName::C, 4)), 67);
}

#[test]
fn octave_up_shifts_by_12() {
    assert_eq!(resolve_midi_note(&JianPuPitch::One, 1, &key(NoteName::C, 4)), 72);
}

#[test]
fn key_g4_degree_one_is_midi_67() {
    assert_eq!(resolve_midi_note(&JianPuPitch::One, 0, &key(NoteName::G, 4)), 67);
}

#[test]
fn duration_quarter_note_is_480_ticks() {
    assert_eq!(duration_to_ticks(4), 480);
}

#[test]
fn duration_eighth_note_is_240_ticks() {
    assert_eq!(duration_to_ticks(2), 240);
}

#[test]
fn duration_half_note_is_960_ticks() {
    assert_eq!(duration_to_ticks(8), 960);
}

#[test]
fn midi_note_is_clamped_to_the_midi_range() {
    assert_eq!(resolve_midi_note(&JianPuPitch::Seven, 7, &key(NoteName::B, 9)), 127);
    assert_eq!(resolve_midi_note(&JianPuPitch::One, -8, &key(NoteName::C, 0)), 0);
}

#[test]
fn chord_with_seventh_and_bass() {
    let mut c = c_major(4);
    c.extension = Some(jianpu::ast::parsed::Extension::DominantSeventh);
    c.bass = Some(jianpu::ast::parsed::BassDegree { degree: JianPuPitch::Five, accidental: Accidental::Natural });
    assert_eq!(chord_midi_notes(&c, &key(NoteName::C, 4)), vec![60, 64, 67, 70, 55]);
}

#[test]
fn tied_notes_sound_once() {
    let score = Score {
        metadata: metadata(),
        measures: vec![measure(
            vec![note(JianPuPitch::One, 8, true), note(JianPuPitch::One, 8, false)],
            PartKind::Notes,
            Some(120),
        )],
    };
    let items = midi_track_items(&score);
    let kinds: Vec<(u32, MidiKind)> = items.iter().map(|i| (i.delta, i.kind)).collect();
    assert_eq!(
        kinds,
        vec![
            (0, MidiKind::ProgramChange(0)),
            (0, MidiKind::Tempo(500_000)),
            (0, MidiKind::NoteOn(60, 80)),
            (1920, MidiKind::NoteOff(60, 0)),
            (0, MidiKind::EndOfTrack),
        ]
    );
}

#[test]
fn note_off_comes_before_note_on_at_the_same_tick() {
    let score = Score {
        metadata: metadata(),
        measures: vec![measure(
            vec![note(JianPuPitch::One, 8, false), note(JianPuPitch::Two, 8, false)],
            PartKind::Notes,
            None,
        )],
    };
    let items = midi_track_items(&score);
    let kinds: Vec<(u32, MidiKind)> = items.iter().map(|i| (i.delta, i.kind)).collect();
    assert_eq!(
        kinds,
        vec![
            (0, MidiKind::ProgramChange(0)),
            (0, MidiKind::NoteOn(60, 80)),
            (960, MidiKind::NoteOff(60, 0)),
            (0, MidiKind::NoteOn(62, 80)),
            (960, MidiKind::NoteOff(62, 0)),
            (0, MidiKind::EndOfTrack),
        ]
    );
}

#[test]
fn every_struck_key_is_released_even_when_a_tie_ends_the_score() {
    let score = Score {
        metadata: metadata(),
        measures: vec![
            measure(
                vec![note(JianPuPitch::One, 4, true), note(JianPuPitch::Three, 4, true)],
                PartKind::Notes,
                Some(90),
            ),
            measure(vec![NoteEvent::Chord(c_major(8)), note(JianPuPitch::Five, 8, true)], PartKind::Notes, None),
        ],
    };
    let items = midi_track_items(&score);
    for key in 0u8..128 {
        let ons = items.iter().filter(|i| i.kind == MidiKind::NoteOn(key, 80)).count();
        let offs = items.iter().filter(|i| i.kind == MidiKind::NoteOff(key, 0)).count();
        assert_eq!(ons, offs, "key {}", key);
    }
    assert_eq!(items.iter().filter(|i| matches!(i.kind, MidiKind::NoteOn(_, _))).count(), 6);
    assert_eq!(items[items.len() - 2].kind, MidiKind::NoteOff(67, 0));
}
