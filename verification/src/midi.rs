use vstd::prelude::*;

pub mod balance;
pub mod navigation;

use midly::num::{u15, u24, u28, u4, u7};
use midly::{Format, Header, MetaMessage, MidiMessage, Smf, Timing, TrackEvent, TrackEventKind};

use crate::ast::grouped::{
    row_slice, GroupedChordNote, MultiPartMeasure, NoteEvent, PartRow, Score,
};
use crate::ast::parsed::{
    Accidental, Extension, JianPuPitch, KeyChange, Note, NoteName, TriadQuality,
};
use crate::error::{ErrorKind, JianPuError, Span};
use crate::grouper::{event_duration, sum_durations};

verus! {

/// Ticks per quarter note.
pub const TPQ: u16 = 480;

pub const VELOCITY: u8 = 80;

pub const CHANNEL: u8 = 0;

pub const PIANO: u8 = 0;

pub open spec fn semitone_of(name: NoteName) -> int {
    match name {
        NoteName::C => 0,
        NoteName::D => 2,
        NoteName::E => 4,
        NoteName::F => 5,
        NoteName::G => 7,
        NoteName::A => 9,
        NoteName::B => 11,
    }
}

/// The semitones of a scale degree above the key note.
pub open spec fn scale_offset(p: JianPuPitch) -> int {
    match p {
        JianPuPitch::One => 0,
        JianPuPitch::Two => 2,
        JianPuPitch::Three => 4,
        JianPuPitch::Four => 5,
        JianPuPitch::Five => 7,
        JianPuPitch::Six => 9,
        JianPuPitch::Seven => 11,
    }
}

pub open spec fn accidental_delta(a: Accidental) -> int {
    match a {
        Accidental::Sharp => 1,
        Accidental::Flat => -1,
        Accidental::Natural => 0,
    }
}

pub open spec fn clamp_midi(x: int) -> u8 {
    if x < 0 {
        0
    } else if x > 127 {
        127
    } else {
        x as u8
    }
}

/// The MIDI number of a key's tonic: C4 is 60.
pub open spec fn key_root(key: KeyChange) -> int {
    12 * (key.note.octave + 1) + semitone_of(key.note.name) + accidental_delta(key.note.accidental)
}

/// The MIDI number of a scale degree in a key, `octave` octaves up, kept to 0..=127.
pub open spec fn midi_note_of(pitch: JianPuPitch, octave: i8, key: KeyChange) -> u8 {
    clamp_midi(key_root(key) + scale_offset(pitch) + 12 * octave)
}

/// MIDI ticks of a duration in quarter-beats (four quarter-beats make a beat).
pub open spec fn ticks_of(quarter_beats: u32) -> int {
    quarter_beats * 480 / 4
}

fn note_name_to_semitone(name: &NoteName) -> (s: i32)
    ensures
        s == semitone_of(*name),
{
    match name {
        NoteName::C => 0,
        NoteName::D => 2,
        NoteName::E => 4,
        NoteName::F => 5,
        NoteName::G => 7,
        NoteName::A => 9,
        NoteName::B => 11,
    }
}

fn pitch_to_scale_offset(pitch: &JianPuPitch) -> (s: i32)
    ensures
        s == scale_offset(*pitch),
{
    match pitch {
        JianPuPitch::One => 0,
        JianPuPitch::Two => 2,
        JianPuPitch::Three => 4,
        JianPuPitch::Four => 5,
        JianPuPitch::Five => 7,
        JianPuPitch::Six => 9,
        JianPuPitch::Seven => 11,
    }
}

fn accidental_offset(acc: &Accidental) -> (s: i32)
    ensures
        s == accidental_delta(*acc),
{
    match acc {
        Accidental::Sharp => 1,
        Accidental::Flat => -1,
        Accidental::Natural => 0,
    }
}

fn clamp_to_midi(x: i32) -> (r: u8)
    ensures
        r == clamp_midi(x as int),
{
    if x < 0 {
        0
    } else if x > 127 {
        127
    } else {
        x as u8
    }
}

/// Law: a scale degree sounds the major scale above the key's tonic: the tonic of a key
/// is `12 * (octave + 1)` plus the semitones of its note name (C 0, D 2, E 4, F 5, G 7,
/// A 9, B 11) plus one for a sharp or minus one for a flat (so C4 is 60), and degrees 1
/// to 7 lie 0, 2, 4, 5, 7, 9 and 11 semitones above it, 12 more for each octave up; a
/// result outside 0..=127 is kept to that range.
pub proof fn midi_notes_follow_the_major_scale(pitch: JianPuPitch, octave: i8, key: KeyChange)
    ensures
        ({
            let tonic = 12 * (key.note.octave + 1) + match key.note.name {
                NoteName::C => 0int,
                NoteName::D => 2int,
                NoteName::E => 4int,
                NoteName::F => 5int,
                NoteName::G => 7int,
                NoteName::A => 9int,
                NoteName::B => 11int,
            } + match key.note.accidental {
                Accidental::Sharp => 1int,
                Accidental::Flat => -1int,
                Accidental::Natural => 0int,
            };
            let x = tonic + 12 * octave + match pitch {
                JianPuPitch::One => 0int,
                JianPuPitch::Two => 2int,
                JianPuPitch::Three => 4int,
                JianPuPitch::Four => 5int,
                JianPuPitch::Five => 7int,
                JianPuPitch::Six => 9int,
                JianPuPitch::Seven => 11int,
            };
            &&& 0 <= x <= 127 ==> midi_note_of(pitch, octave, key) == x
            &&& x < 0 ==> midi_note_of(pitch, octave, key) == 0
            &&& x > 127 ==> midi_note_of(pitch, octave, key) == 127
        }),
{
}

/// The MIDI note number of a scale degree in a key; see `midi_note_of`.
pub fn resolve_midi_note(pitch: &JianPuPitch, octave: i8, key: &KeyChange) -> (n: u8)
    ensures
        n == midi_note_of(*pitch, octave, *key),
        ({
            let tonic = 12 * (key.note.octave + 1) + match key.note.name {
                NoteName::C => 0int,
                NoteName::D => 2int,
                NoteName::E => 4int,
                NoteName::F => 5int,
                NoteName::G => 7int,
                NoteName::A => 9int,
                NoteName::B => 11int,
            } + match key.note.accidental {
                Accidental::Sharp => 1int,
                Accidental::Flat => -1int,
                Accidental::Natural => 0int,
            };
            let x = tonic + 12 * octave + match *pitch {
                JianPuPitch::One => 0int,
                JianPuPitch::Two => 2int,
                JianPuPitch::Three => 4int,
                JianPuPitch::Four => 5int,
                JianPuPitch::Five => 7int,
                JianPuPitch::Six => 9int,
                JianPuPitch::Seven => 11int,
            };
            &&& 0 <= x <= 127 ==> n == x
            &&& x < 0 ==> n == 0
            &&& x > 127 ==> n == 127
        }),
{
    proof {
        midi_notes_follow_the_major_scale(*pitch, octave, *key);
    }
    let root = 12 * (key.note.octave as i32 + 1) + note_name_to_semitone(&key.note.name)
        + accidental_offset(&key.note.accidental);
    let midi = root + pitch_to_scale_offset(pitch) + (octave as i32) * 12;
    clamp_to_midi(midi)
}

/// MIDI ticks of a duration in quarter-beats.
pub fn duration_to_ticks(quarter_beats: u32) -> (t: u32)
    requires
        quarter_beats * 480 <= u32::MAX,
    ensures
        t == ticks_of(quarter_beats),
{
    quarter_beats * (TPQ as u32) / 4
}

pub open spec fn triad_offsets(t: TriadQuality) -> Seq<int> {
    match t {
        TriadQuality::Major => seq![0, 4, 7],
        TriadQuality::Minor => seq![0, 3, 7],
        TriadQuality::Diminished => seq![0, 3, 6],
        TriadQuality::Augmented => seq![0, 4, 8],
    }
}

pub open spec fn extension_offset(e: Option<Extension>) -> Seq<int> {
    match e {
        Some(Extension::DominantSeventh) => seq![10],
        Some(Extension::MajorSeventh) => seq![11],
        None => seq![],
    }
}

/// The root of a chord in a key, kept to 0..=127.
pub open spec fn chord_root(chord: GroupedChordNote, key: KeyChange) -> u8 {
    clamp_midi(midi_note_of(chord.degree, 0, key) + accidental_delta(chord.accidental))
}

/// The MIDI notes of a chord: its triad and extension above the root, then the bass an
/// octave below its degree.
pub open spec fn chord_notes_spec(chord: GroupedChordNote, key: KeyChange) -> Seq<u8> {
    let root = chord_root(chord, key);
    (triad_offsets(chord.triad) + extension_offset(chord.extension)).map_values(
        |off: int| clamp_midi(root + off),
    ) + match chord.bass {
        Some(b) => seq![clamp_midi(midi_note_of(b.degree, 0, key) + accidental_delta(b.accidental) - 12)],
        None => seq![],
    }
}

fn chord_tones(root: u8, triad: TriadQuality, extension: Option<Extension>) -> (notes: Vec<u8>)
    ensures
        notes@ == (triad_offsets(triad) + extension_offset(extension)).map_values(
            |off: int| clamp_midi(root + off),
        ),
{
    let (a, b, c): (i32, i32, i32) = match triad {
        TriadQuality::Major => (0, 4, 7),
        TriadQuality::Minor => (0, 3, 7),
        TriadQuality::Diminished => (0, 3, 6),
        TriadQuality::Augmented => (0, 4, 8),
    };
    let mut notes: Vec<u8> = Vec::new();
    notes.push(clamp_to_midi(root as i32 + a));
    notes.push(clamp_to_midi(root as i32 + b));
    notes.push(clamp_to_midi(root as i32 + c));
    match extension {
        Some(Extension::DominantSeventh) => notes.push(clamp_to_midi(root as i32 + 10)),
        Some(Extension::MajorSeventh) => notes.push(clamp_to_midi(root as i32 + 11)),
        None => {},
    }
    proof {
        assert(notes@ =~= (triad_offsets(triad) + extension_offset(extension)).map_values(
            |off: int| clamp_midi(root + off),
        ));
    }
    notes
}

/// Law: a chord sounds its root and the intervals of its quality above it: a major
/// triad adds a major third (4 semitones) and a fifth (7), a minor triad a minor third (3)
/// and a fifth (7), a diminished triad a minor third (3) and a diminished fifth (6), an
/// augmented triad a major third (4) and an augmented fifth (8); a dominant seventh adds
/// 10 semitones, a major seventh 11. This holds where no note is clamped to the MIDI
/// range, that is where the root is at most 116.
pub proof fn chord_notes_follow_their_triad(chord: GroupedChordNote, key: KeyChange)
    ensures
        chord_notes_spec(chord, key).len() >= 3,
        chord_root(chord, key) + 11 <= 127 ==> {
            let n = chord_notes_spec(chord, key);
            &&& n[0] == chord_root(chord, key)
            &&& chord.triad == TriadQuality::Major ==> n[1] == n[0] + 4 && n[2] == n[0] + 7
            &&& chord.triad == TriadQuality::Minor ==> n[1] == n[0] + 3 && n[2] == n[0] + 7
            &&& chord.triad == TriadQuality::Diminished ==> n[1] == n[0] + 3 && n[2] == n[0] + 6
            &&& chord.triad == TriadQuality::Augmented ==> n[1] == n[0] + 4 && n[2] == n[0] + 8
            &&& chord.extension == Some(Extension::DominantSeventh) ==> n[3] == n[0] + 10
            &&& chord.extension == Some(Extension::MajorSeventh) ==> n[3] == n[0] + 11
        },
{
    let root = chord_root(chord, key);
    let offs = triad_offsets(chord.triad) + extension_offset(chord.extension);
    let tones = offs.map_values(|off: int| clamp_midi(root + off));
    let n = chord_notes_spec(chord, key);
    assert(offs.len() >= 3);
    assert(n.len() >= tones.len());
    assert forall|i: int| 0 <= i < tones.len() implies n[i] == tones[i] by {}
    if root + 11 <= 127 {
        assert(tones[0] == clamp_midi(root + offs[0]));
        assert(tones[1] == clamp_midi(root + offs[1]));
        assert(tones[2] == clamp_midi(root + offs[2]));
        if chord.extension is Some {
            assert(tones[3] == clamp_midi(root + offs[3]));
        }
    }
}

/// The MIDI notes of a chord; see `chord_notes_spec`.
pub fn chord_midi_notes(chord: &GroupedChordNote, active_key: &KeyChange) -> (notes: Vec<u8>)
    ensures
        notes@ == chord_notes_spec(*chord, *active_key),
        notes@.len() >= 3,
        chord_root(*chord, *active_key) + 11 <= 127 ==> {
            &&& notes@[0] == chord_root(*chord, *active_key)
            &&& chord.triad == TriadQuality::Major ==> notes@[1] == notes@[0] + 4 && notes@[2] == notes@[0] + 7
            &&& chord.triad == TriadQuality::Minor ==> notes@[1] == notes@[0] + 3 && notes@[2] == notes@[0] + 7
            &&& chord.triad == TriadQuality::Diminished ==> notes@[1] == notes@[0] + 3 && notes@[2] == notes@[0] + 6
            &&& chord.triad == TriadQuality::Augmented ==> notes@[1] == notes@[0] + 4 && notes@[2] == notes@[0] + 8
            &&& chord.extension == Some(Extension::DominantSeventh) ==> notes@[3] == notes@[0] + 10
            &&& chord.extension == Some(Extension::MajorSeventh) ==> notes@[3] == notes@[0] + 11
        },
{
    proof {
        chord_notes_follow_their_triad(*chord, *active_key);
    }
    let base_root = resolve_midi_note(&chord.degree, 0, active_key);
    let root = clamp_to_midi(base_root as i32 + accidental_offset(&chord.accidental));
    let mut notes = chord_tones(root, chord.triad, chord.extension);
    let ghost tones = notes@;
    if let Some(bass) = chord.bass {
        let base_bass = resolve_midi_note(&bass.degree, 0, active_key);
        notes.push(clamp_to_midi(base_bass as i32 + accidental_offset(&bass.accidental) - 12));
    }
    proof {
        assert(notes@ =~= chord_notes_spec(*chord, *active_key));
    }
    notes
}

/// A MIDI event at an absolute tick, before it is placed in the track.
#[derive(Debug, Clone, Copy, PartialEq, Eq, Structural)]
pub enum RawKind {
    Tempo(u32),
    NoteOn(u8),
    NoteOff(u8),
    ProgramChange(u8),
}

#[derive(Debug, Clone, Copy, PartialEq, Eq, Structural)]
pub struct RawEvent {
    pub tick: u32,
    pub kind: RawKind,
}

/// Playing one part's measure: the events so far, the note held by a tie, the part's tick.
pub struct PartTickState {
    pub raw: Seq<RawEvent>,
    pub tie: Option<(u8, u32)>,
    pub tick: int,
}

/// The events with a note held by a tie released at `tick`.
pub open spec fn release_tie(raw: Seq<RawEvent>, tie: Option<(u8, u32)>, tick: int) -> Seq<RawEvent> {
    match tie {
        Some(t) => raw.push(RawEvent { tick: tick as u32, kind: RawKind::NoteOff(t.0) }),
        None => raw,
    }
}

pub open spec fn note_ons(notes: Seq<u8>, tick: int) -> Seq<RawEvent> {
    notes.map_values(|k: u8| RawEvent { tick: tick as u32, kind: RawKind::NoteOn(k) })
}

pub open spec fn note_offs(notes: Seq<u8>, tick: int) -> Seq<RawEvent> {
    notes.map_values(|k: u8| RawEvent { tick: tick as u32, kind: RawKind::NoteOff(k) })
}

/// One event of a part. A note that continues a tie on the same MIDI note is not struck
/// again; any other held note is released. A tied note is held until the next note; an
/// untied one is released at its end. A rest releases a held note. A chord strikes and
/// releases its notes.
pub open spec fn midi_event_step(s: PartTickState, e: NoteEvent, key: KeyChange) -> PartTickState {
    match e {
        NoteEvent::Note(n) => {
            let midi = midi_note_of(n.pitch, n.octave, key);
            let off = s.tick + ticks_of(n.duration);
            let cont = s.tie matches Some(t) && t.0 == midi;
            let raw1 = if cont {
                s.raw
            } else {
                release_tie(s.raw, s.tie, s.tick).push(
                    RawEvent { tick: s.tick as u32, kind: RawKind::NoteOn(midi) },
                )
            };
            if n.tie {
                PartTickState { raw: raw1, tie: Some((midi, off as u32)), tick: off }
            } else {
                PartTickState {
                    raw: raw1.push(RawEvent { tick: off as u32, kind: RawKind::NoteOff(midi) }),
                    tie: None,
                    tick: off,
                }
            }
        },
        NoteEvent::Rest(r) => PartTickState {
            raw: release_tie(s.raw, s.tie, s.tick),
            tie: None,
            tick: s.tick + ticks_of(r.duration),
        },
        NoteEvent::Chord(c) => {
            let notes = chord_notes_spec(c, key);
            let off = s.tick + ticks_of(c.duration);
            PartTickState {
                raw: s.raw + note_ons(notes, s.tick) + note_offs(notes, off),
                tie: s.tie,
                tick: off,
            }
        },
    }
}

pub open spec fn midi_events_fold(s: PartTickState, events: Seq<NoteEvent>, n: int, key: KeyChange) -> PartTickState
    decreases n,
{
    if n <= 0 {
        s
    } else {
        midi_event_step(midi_events_fold(s, events, n - 1, key), events[n - 1], key)
    }
}

pub proof fn lemma_midi_fold_tick(s: PartTickState, events: Seq<NoteEvent>, n: int, key: KeyChange)
    requires
        0 <= n <= events.len(),
    ensures
        midi_events_fold(s, events, n, key).tick == s.tick + 120 * sum_durations(events.take(n)),
    decreases n,
{
    if n > 0 {
        lemma_midi_fold_tick(s, events, n - 1, key);
        assert(events.take(n).drop_last() =~= events.take(n - 1));
        let e = events[n - 1];
        assert(120 * sum_durations(events.take(n)) == 120 * sum_durations(events.take(n - 1)) + 120 * event_duration(e)) by (nonlinear_arith)
            requires
                sum_durations(events.take(n)) == sum_durations(events.take(n - 1)) + event_duration(e);
    } else {
        assert(events.take(0).len() == 0);
    }
}

fn ticks(quarter_beats: u32) -> (t: u32)
    requires
        480 * quarter_beats <= u32::MAX,
    ensures
        t == ticks_of(quarter_beats),
        t == 120 * quarter_beats,
{
    let t = duration_to_ticks(quarter_beats);
    assert(quarter_beats * 480 / 4 == 120 * quarter_beats) by (nonlinear_arith);
    t
}

/// Plays one part's measure from `tick`; see `midi_event_step`.
fn process_measure_notes(
    events: &[NoteEvent],
    tie: Option<(u8, u32)>,
    tick: u32,
    key: &KeyChange,
    raw: &mut Vec<RawEvent>,
) -> (r: (Option<(u8, u32)>, u32))
    requires
        tick + 120 * sum_durations(events@) <= u32::MAX,
        480 * sum_durations(events@) <= u32::MAX,
    ensures
        ({
            let s = midi_events_fold(
                PartTickState { raw: old(raw)@, tie, tick: tick as int },
                events@,
                events@.len() as int,
                *key,
            );
            final(raw)@ == s.raw && r.0 == s.tie && r.1 == s.tick
        }),
{
    let ghost s0 = PartTickState { raw: raw@, tie, tick: tick as int };
    let mut pending = tie;
    let mut part_tick = tick;
    let mut i: usize = 0;
    while i < events.len()
        invariant
            i <= events@.len(),
            tick + 120 * sum_durations(events@) <= u32::MAX,
            480 * sum_durations(events@) <= u32::MAX,
            ({
                let s = midi_events_fold(s0, events@, i as int, *key);
                raw@ == s.raw && pending == s.tie && part_tick == s.tick
            }),
            part_tick == tick + 120 * sum_durations(events@.take(i as int)),
        decreases events@.len() - i,
    {
        proof {
            lemma_midi_fold_tick(s0, events@, i as int, *key);
            crate::compiler::lemma_sum_take(events@, i as int, i + 1);
            crate::compiler::lemma_sum_take(events@, i + 1, events@.len() as int);
            assert(events@.take(events@.len() as int) =~= events@);
            let d = event_duration(events@[i as int]);
            let a = sum_durations(events@.take(i as int));
            let b = sum_durations(events@);
            assert(480 * d <= 480 * b && 120 * a + 120 * d <= 120 * b) by (nonlinear_arith)
                requires a + d <= b;
        }
        let ghost before = raw@;
        match events[i] {
            NoteEvent::Note(note) => {
                let t = ticks(note.duration);
                let midi = resolve_midi_note(&note.pitch, note.octave, key);
                let off = part_tick + t;
                let cont = match pending {
                    Some(p) => p.0 == midi,
                    None => false,
                };
                if !cont {
                    if let Some(p) = pending {
                        raw.push(RawEvent { tick: part_tick, kind: RawKind::NoteOff(p.0) });
                    }
                    raw.push(RawEvent { tick: part_tick, kind: RawKind::NoteOn(midi) });
                }
                if note.tie {
                    pending = Some((midi, off));
                } else {
                    pending = None;
                    raw.push(RawEvent { tick: off, kind: RawKind::NoteOff(midi) });
                }
                part_tick = off;
            },
            NoteEvent::Rest(rest) => {
                let t = ticks(rest.duration);
                if let Some(p) = pending {
                    raw.push(RawEvent { tick: part_tick, kind: RawKind::NoteOff(p.0) });
                }
                pending = None;
                part_tick = part_tick + t;
            },
            NoteEvent::Chord(chord) => {
                let t = ticks(chord.duration);
                let notes = chord_midi_notes(&chord, key);
                let off = part_tick + t;
                let mut k: usize = 0;
                while k < notes.len()
                    invariant
                        k <= notes@.len(),
                        raw@ == before + note_ons(notes@, part_tick as int).take(k as int),
                    decreases notes@.len() - k,
                {
                    raw.push(RawEvent { tick: part_tick, kind: RawKind::NoteOn(notes[k]) });
                    proof {
                        assert(note_ons(notes@, part_tick as int).take(k + 1) =~= note_ons(
                            notes@,
                            part_tick as int,
                        ).take(k as int).push(RawEvent { tick: part_tick, kind: RawKind::NoteOn(notes@[k as int]) }));
                    }
                    k += 1;
                }
                let ghost mid = raw@;
                proof {
                    assert(note_ons(notes@, part_tick as int).take(k as int) =~= note_ons(notes@, part_tick as int));
                }
                let mut k: usize = 0;
                while k < notes.len()
                    invariant
                        k <= notes@.len(),
                        raw@ == mid + note_offs(notes@, off as int).take(k as int),
                    decreases notes@.len() - k,
                {
                    raw.push(RawEvent { tick: off, kind: RawKind::NoteOff(notes[k]) });
                    proof {
                        assert(note_offs(notes@, off as int).take(k + 1) =~= note_offs(
                            notes@,
                            off as int,
                        ).take(k as int).push(RawEvent { tick: off, kind: RawKind::NoteOff(notes@[k as int]) }));
                    }
                    k += 1;
                }
                proof {
                    assert(note_offs(notes@, off as int).take(k as int) =~= note_offs(notes@, off as int));
                }
                part_tick = off;
            },
        }
        i += 1;
    }
    proof {
        assert(events@.take(events@.len() as int) =~= events@);
    }
    (pending, part_tick)
}

/// The quarter-beats of every part's measure, added up.
pub open spec fn measure_quarter_beats(parts: Seq<PartRow>, n: int) -> nat
    decreases n,
{
    if n <= 0 {
        0
    } else {
        measure_quarter_beats(parts, n - 1) + sum_durations(row_slice(parts[n - 1]).notes.events@)
    }
}

pub open spec fn score_quarter_beats(ms: Seq<MultiPartMeasure>, k: int) -> nat
    decreases k,
{
    if k <= 0 {
        0
    } else {
        score_quarter_beats(ms, k - 1) + measure_quarter_beats(ms[k - 1].parts@, ms[k - 1].parts@.len() as int)
    }
}

/// A score can be played: no measure sets a tempo of zero, and every tick fits in a `u32`.
pub open spec fn midi_ready(score: Score) -> bool {
    &&& forall|i: int| 0 <= i < score.measures@.len() ==> (#[trigger] score.measures@[i]).bpm != Some(0u32)
    &&& 480 * score_quarter_beats(score.measures@, score.measures@.len() as int) <= u32::MAX
}

pub open spec fn pad_ties(t: Seq<Option<(u8, u32)>>, n: int) -> Seq<Option<(u8, u32)>> {
    if t.len() >= n {
        t
    } else {
        t + Seq::new((n - t.len()) as nat, |i: int| None::<(u8, u32)>)
    }
}

/// Playing the first `n` parts of a measure from `tick`: the events, the held notes of
/// each part, and the longest part so far in ticks.
pub open spec fn parts_midi(
    raw: Seq<RawEvent>,
    ties: Seq<Option<(u8, u32)>>,
    key: KeyChange,
    tick: int,
    parts: Seq<PartRow>,
    n: int,
) -> (Seq<RawEvent>, Seq<Option<(u8, u32)>>, int)
    decreases n,
{
    if n <= 0 {
        (raw, ties, 0)
    } else {
        let prev = parts_midi(raw, ties, key, tick, parts, n - 1);
        let events = row_slice(parts[n - 1]).notes.events@;
        let s = midi_events_fold(
            PartTickState { raw: prev.0, tie: prev.1[n - 1], tick },
            events,
            events.len() as int,
            key,
        );
        (
            s.raw,
            prev.1.update(n - 1, s.tie),
            if s.tick - tick > prev.2 {
                s.tick - tick
            } else {
                prev.2
            },
        )
    }
}

/// Playing a score: the events so far, the note each part holds, the key, the tick.
pub struct MidiModel {
    pub raw: Seq<RawEvent>,
    pub ties: Seq<Option<(u8, u32)>>,
    pub key: KeyChange,
    pub tick: int,
}

pub open spec fn default_midi_key() -> KeyChange {
    KeyChange { note: Note { name: NoteName::C, octave: 4, accidental: Accidental::Natural } }
}

/// One measure: a tempo event where the bpm is set, the key it sets, then every part from
/// the measure's start; the next measure starts after the longest part.
pub open spec fn measure_midi(m: MidiModel, meas: MultiPartMeasure) -> MidiModel {
    let raw1 = match meas.bpm {
        Some(b) => m.raw.push(RawEvent { tick: m.tick as u32, kind: RawKind::Tempo((60_000_000int / (b as int)) as u32) }),
        None => m.raw,
    };
    let key = match meas.key {
        Some(k) => k,
        None => m.key,
    };
    let n = meas.parts@.len() as int;
    let p = parts_midi(raw1, pad_ties(m.ties, n), key, m.tick, meas.parts@, n);
    MidiModel { raw: p.0, ties: p.1, key, tick: m.tick + p.2 }
}

pub open spec fn score_midi(ms: Seq<MultiPartMeasure>, k: int) -> MidiModel
    decreases k,
{
    if k <= 0 {
        MidiModel {
            raw: seq![RawEvent { tick: 0, kind: RawKind::ProgramChange(0) }],
            ties: seq![],
            key: default_midi_key(),
            tick: 0,
        }
    } else {
        measure_midi(score_midi(ms, k - 1), ms[k - 1])
    }
}

/// Releasing the notes still held at the end, part by part, at the end of each note.
pub open spec fn release_all(raw: Seq<RawEvent>, ties: Seq<Option<(u8, u32)>>, n: int) -> Seq<RawEvent>
    decreases n,
{
    if n <= 0 {
        raw
    } else {
        let r = release_all(raw, ties, n - 1);
        match ties[n - 1] {
            Some(t) => r.push(RawEvent { tick: t.1, kind: RawKind::NoteOff(t.0) }),
            None => r,
        }
    }
}

/// All events of a score, before ordering.
pub open spec fn score_raw_events(ms: Seq<MultiPartMeasure>) -> Seq<RawEvent> {
    let m = score_midi(ms, ms.len() as int);
    release_all(m.raw, m.ties, m.ties.len() as int)
}

proof fn lemma_measure_qb_mono(parts: Seq<PartRow>, a: int, b: int)
    requires
        0 <= a <= b <= parts.len(),
    ensures
        measure_quarter_beats(parts, a) <= measure_quarter_beats(parts, b),
    decreases b - a,
{
    if a < b {
        lemma_measure_qb_mono(parts, a, b - 1);
    }
}

proof fn lemma_parts_midi_bounds(
    raw: Seq<RawEvent>,
    ties: Seq<Option<(u8, u32)>>,
    key: KeyChange,
    tick: int,
    parts: Seq<PartRow>,
    n: int,
)
    requires
        0 <= n <= parts.len(),
        ties.len() >= parts.len(),
    ensures
        0 <= parts_midi(raw, ties, key, tick, parts, n).2 <= 120 * measure_quarter_beats(parts, n),
        parts_midi(raw, ties, key, tick, parts, n).1.len() == ties.len(),
    decreases n,
{
    if n > 0 {
        lemma_parts_midi_bounds(raw, ties, key, tick, parts, n - 1);
        let prev = parts_midi(raw, ties, key, tick, parts, n - 1);
        let events = row_slice(parts[n - 1]).notes.events@;
        let s0 = PartTickState { raw: prev.0, tie: prev.1[n - 1], tick };
        lemma_midi_fold_tick(s0, events, events.len() as int, key);
        assert(events.take(events.len() as int) =~= events);
        let a = measure_quarter_beats(parts, n - 1);
        let d = sum_durations(events);
        assert(120 * a + 120 * d == 120 * (a + d)) by (nonlinear_arith);
        assert(0 <= 120 * d) by (nonlinear_arith);
        assert(0 <= 120 * a) by (nonlinear_arith);
    }
}

/// Plays one measure; see `measure_midi`.
fn process_measure(
    measure: &MultiPartMeasure,
    current_tick: u32,
    raw: &mut Vec<RawEvent>,
    ties: &mut Vec<Option<(u8, u32)>>,
    active_key: &mut KeyChange,
) -> (next_tick: u32)
    requires
        current_tick + 120 * measure_quarter_beats(measure.parts@, measure.parts@.len() as int) <= u32::MAX,
        480 * measure_quarter_beats(measure.parts@, measure.parts@.len() as int) <= u32::MAX,
        measure.bpm != Some(0u32),
    ensures
        ({
            let m = measure_midi(
                MidiModel { raw: old(raw)@, ties: old(ties)@, key: *old(active_key), tick: current_tick as int },
                *measure,
            );
            &&& final(raw)@ == m.raw
            &&& final(ties)@ == m.ties
            &&& *final(active_key) == m.key
            &&& next_tick == m.tick
        }),
{
    if let Some(bpm) = measure.bpm {
        let micros = 60_000_000u32 / bpm;
        raw.push(RawEvent { tick: current_tick, kind: RawKind::Tempo(micros) });
    }
    if let Some(key) = measure.key {
        *active_key = key;
    }
    let n = measure.parts.len();
    let ghost padded = pad_ties(ties@, n as int);
    let ghost t0 = ties@;
    while ties.len() < n
        invariant
            t0.len() <= ties@.len(),
            ties@.len() <= (if t0.len() >= n {
                t0.len()
            } else {
                n as nat
            }),
            ties@.take(t0.len() as int) == t0,
            forall|k: int| t0.len() <= k < ties@.len() ==> (#[trigger] ties@[k]) is None,
        decreases n - ties@.len(),
    {
        ties.push(None);
    }
    proof {
        assert(ties@ =~= padded);
    }
    let ghost raw1 = raw@;
    let ghost parts = measure.parts@;
    let ghost total = measure_quarter_beats(parts, n as int);
    let mut measure_duration: u32 = 0;
    let mut p: usize = 0;
    while p < n
        invariant
            n == parts.len(),
            parts == measure.parts@,
            p <= n,
            padded.len() >= n,
            current_tick + 120 * total <= u32::MAX,
            480 * total <= u32::MAX,
            total == measure_quarter_beats(parts, n as int),
            ({
                let pm = parts_midi(raw1, padded, *active_key, current_tick as int, parts, p as int);
                raw@ == pm.0 && ties@ == pm.1 && measure_duration == pm.2
            }),
        decreases n - p,
    {
        proof {
            lemma_parts_midi_bounds(raw1, padded, *active_key, current_tick as int, parts, p as int);
            lemma_measure_qb_mono(parts, p + 1, n as int);
            let a = measure_quarter_beats(parts, p as int);
            let d = sum_durations(row_slice(parts[p as int]).notes.events@);
            assert(120 * d <= 120 * total && 480 * d <= 480 * total) by (nonlinear_arith)
                requires a + d <= total, 0 <= a;
        }
        let events = &measure.parts[p].slice().notes.events;
        proof {
            let pm = parts_midi(raw1, padded, *active_key, current_tick as int, parts, p as int);
            lemma_midi_fold_tick(
                PartTickState { raw: pm.0, tie: pm.1[p as int], tick: current_tick as int },
                events@,
                events@.len() as int,
                *active_key,
            );
            assert(events@.take(events@.len() as int) =~= events@);
            let d = sum_durations(events@);
            assert(0 <= 120 * d) by (nonlinear_arith);
        }
        let (tie, end_tick) = process_measure_notes(events.as_slice(), ties[p], current_tick, active_key, raw);
        ties.set(p, tie);
        let part_duration = end_tick - current_tick;
        if part_duration > measure_duration {
            measure_duration = part_duration;
        }
        p += 1;
    }
    proof {
        lemma_parts_midi_bounds(raw1, padded, *active_key, current_tick as int, parts, n as int);
    }
    current_tick + measure_duration
}

/// The key in force before any key change: C4 natural.
fn default_active_key() -> (k: KeyChange)
    ensures
        k == (KeyChange { note: Note { name: NoteName::C, octave: 4, accidental: Accidental::Natural } }),
{
    KeyChange { note: Note { name: NoteName::C, octave: 4, accidental: Accidental::Natural } }
}

/// All events of a score, before ordering; see `score_raw_events`.
fn collect_raw_events(score: &Score) -> (raw: Vec<RawEvent>)
    requires
        midi_ready(*score),
    ensures
        raw@ == score_raw_events(score.measures@),
{
    let ghost ms = score.measures@;
    let mut raw: Vec<RawEvent> = Vec::new();
    raw.push(RawEvent { tick: 0, kind: RawKind::ProgramChange(PIANO) });
    let mut ties: Vec<Option<(u8, u32)>> = Vec::new();
    let mut active_key = default_active_key();
    let mut current_tick: u32 = 0;
    let mut i: usize = 0;
    proof {
        assert(raw@ =~= score_midi(ms, 0).raw);
        assert(ties@ =~= score_midi(ms, 0).ties);
    }
    while i < score.measures.len()
        invariant
            ms == score.measures@,
            i <= ms.len(),
            midi_ready(*score),
            ({
                let m = score_midi(ms, i as int);
                raw@ == m.raw && ties@ == m.ties && active_key == m.key && current_tick == m.tick
            }),
            current_tick <= 120 * score_quarter_beats(ms, i as int),
        decreases ms.len() - i,
    {
        let measure = &score.measures[i];
        proof {
            lemma_score_qb_mono(ms, i + 1, ms.len() as int);
            let a = score_quarter_beats(ms, i as int);
            let d = measure_quarter_beats(ms[i as int].parts@, ms[i as int].parts@.len() as int);
            let t = score_quarter_beats(ms, ms.len() as int);
            assert(120 * a + 120 * d <= u32::MAX && 480 * d <= u32::MAX) by (nonlinear_arith)
                requires a + d <= t, 480 * t <= u32::MAX, 0 <= a, 0 <= d;
            assert(ms[i as int].bpm != Some(0u32));
            let m = score_midi(ms, i as int);
            let meas = ms[i as int];
            let n = meas.parts@.len() as int;
            let raw1 = match meas.bpm {
                Some(b) => m.raw.push(RawEvent { tick: m.tick as u32, kind: RawKind::Tempo((60_000_000int / (b as int)) as u32) }),
                None => m.raw,
            };
            let key = match meas.key {
                Some(k) => k,
                None => m.key,
            };
            lemma_parts_midi_bounds(raw1, pad_ties(m.ties, n), key, m.tick, meas.parts@, n);
            assert(120 * a + 120 * d == 120 * (a + d)) by (nonlinear_arith);
        }
        current_tick = process_measure(measure, current_tick, &mut raw, &mut ties, &mut active_key);
        i += 1;
    }
    flush_pending_ties(&mut raw, &ties);
    raw
}

/// Releases every tie still held at the end: a note-off at the tick each tied note was
/// to end.
fn flush_pending_ties(raw: &mut Vec<RawEvent>, ties: &Vec<Option<(u8, u32)>>)
    ensures
        final(raw)@ == release_all(old(raw)@, ties@, ties@.len() as int),
{
    let ghost start = raw@;
    let mut p: usize = 0;
    while p < ties.len()
        invariant
            p <= ties@.len(),
            raw@ == release_all(start, ties@, p as int),
        decreases ties@.len() - p,
    {
        if let Some(t) = ties[p] {
            raw.push(RawEvent { tick: t.1, kind: RawKind::NoteOff(t.0) });
        }
        p += 1;
    }
}

proof fn lemma_score_qb_mono(ms: Seq<MultiPartMeasure>, a: int, b: int)
    requires
        0 <= a <= b,
    ensures
        score_quarter_beats(ms, a) <= score_quarter_beats(ms, b),
    decreases b - a,
{
    if a < b {
        lemma_score_qb_mono(ms, a, b - 1);
    }
}

/// At one tick: tempo and program changes first, then note-offs, then note-ons.
pub open spec fn priority(k: RawKind) -> int {
    match k {
        RawKind::Tempo(_) => 0,
        RawKind::ProgramChange(_) => 0,
        RawKind::NoteOff(_) => 1,
        RawKind::NoteOn(_) => 2,
    }
}

/// `a` comes no later than `b`: by tick, then by priority.
pub open spec fn event_le(a: RawEvent, b: RawEvent) -> bool {
    a.tick < b.tick || (a.tick == b.tick && priority(a.kind) <= priority(b.kind))
}

/// `e` inserted into `s` after every event that comes no later than it.
pub open spec fn insert_stable(s: Seq<RawEvent>, e: RawEvent) -> Seq<RawEvent>
    decreases s.len(),
{
    if s.len() == 0 {
        seq![e]
    } else if event_le(s.last(), e) {
        s.push(e)
    } else {
        insert_stable(s.drop_last(), e).push(s.last())
    }
}

/// The events ordered by tick and priority, events that tie keeping their order.
pub open spec fn stable_sort(s: Seq<RawEvent>) -> Seq<RawEvent>
    decreases s.len(),
{
    if s.len() == 0 {
        s
    } else {
        insert_stable(stable_sort(s.drop_last()), s.last())
    }
}

fn priority_of(k: &RawKind) -> (p: u8)
    ensures
        p == priority(*k),
{
    match k {
        RawKind::Tempo(_) => 0,
        RawKind::ProgramChange(_) => 0,
        RawKind::NoteOff(_) => 1,
        RawKind::NoteOn(_) => 2,
    }
}

fn comes_no_later(a: &RawEvent, b: &RawEvent) -> (r: bool)
    ensures
        r == event_le(*a, *b),
{
    a.tick < b.tick || (a.tick == b.tick && priority_of(&a.kind) <= priority_of(&b.kind))
}

/// Orders the events by tick, and at one tick by priority, keeping the order of events
/// that tie; see `stable_sort`.
fn sort_raw_events(raw: &mut Vec<RawEvent>)
    ensures
        final(raw)@ == stable_sort(old(raw)@),
{
    let ghost input = raw@;
    let mut sorted: Vec<RawEvent> = Vec::new();
    let mut i: usize = 0;
    while i < raw.len()
        invariant
            raw@ == input,
            i <= input.len(),
            sorted@ == stable_sort(input.take(i as int)),
        decreases input.len() - i,
    {
        let e = raw[i];
        proof {
            assert(input.take(i + 1).drop_last() =~= input.take(i as int));
        }
        let mut p: usize = sorted.len();
        proof {
            assert(sorted@.take(p as int) =~= sorted@);
            assert(insert_stable(sorted@, e) + sorted@.skip(p as int) =~= insert_stable(sorted@, e));
        }
        while p > 0 && !comes_no_later(&sorted[p - 1], &e)
            invariant
                p <= sorted@.len(),
                insert_stable(sorted@, e) == insert_stable(sorted@.take(p as int), e) + sorted@.skip(p as int),
            decreases p,
        {
            proof {
                let t = sorted@.take(p as int);
                assert(t.drop_last() =~= sorted@.take(p - 1));
                assert(t.last() == sorted@[p - 1]);
                assert(insert_stable(t, e) == insert_stable(sorted@.take(p - 1), e).push(sorted@[p - 1]));
                assert(sorted@.skip(p - 1) =~= seq![sorted@[p - 1]] + sorted@.skip(p as int));
                assert(insert_stable(sorted@.take(p - 1), e).push(sorted@[p - 1]) + sorted@.skip(p as int)
                    =~= insert_stable(sorted@.take(p - 1), e) + sorted@.skip(p - 1));
            }
            p -= 1;
        }
        proof {
            let t = sorted@.take(p as int);
            if p > 0 {
                assert(t.last() == sorted@[p - 1]);
            }
            assert(insert_stable(t, e) =~= t.push(e));
            assert(sorted@.insert(p as int, e) =~= t.push(e) + sorted@.skip(p as int));
        }
        sorted.insert(p, e);
        i += 1;
    }
    proof {
        assert(input.take(input.len() as int) =~= input);
    }
    *raw = sorted;
}

/// The events are in order.
pub open spec fn events_in_order(s: Seq<RawEvent>) -> bool {
    forall|i: int, j: int| 0 <= i < j < s.len() ==> event_le(s[i], s[j])
}

proof fn lemma_insert_stable(s: Seq<RawEvent>, e: RawEvent)
    requires
        events_in_order(s),
    ensures
        events_in_order(insert_stable(s, e)),
        insert_stable(s, e).len() == s.len() + 1,
        forall|k: int|
            0 <= k < insert_stable(s, e).len() ==> (#[trigger] insert_stable(s, e)[k]) == e
                || s.contains(insert_stable(s, e)[k]),
    decreases s.len(),
{
    if s.len() > 0 && !event_le(s.last(), e) {
        let d = s.drop_last();
        assert(events_in_order(d)) by {
            assert forall|i: int, j: int| 0 <= i < j < d.len() implies event_le(d[i], d[j]) by {
                assert(d[i] == s[i] && d[j] == s[j]);
            }
        }
        lemma_insert_stable(d, e);
        let r = insert_stable(d, e);
        let last = s.last();
        assert forall|k: int| 0 <= k < r.len() implies event_le(#[trigger] r[k], last) by {
            if r[k] != e {
                let j = choose|j: int| 0 <= j < d.len() && d[j] == r[k];
                assert(s[j] == d[j]);
                assert(event_le(s[j], s[s.len() - 1]));
            }
        }
        let t = r.push(last);
        assert forall|k: int| 0 <= k < t.len() implies (#[trigger] t[k]) == e || s.contains(t[k]) by {
            if k < r.len() {
                if r[k] != e {
                    let j = choose|j: int| 0 <= j < d.len() && d[j] == r[k];
                    assert(s[j] == d[j]);
                }
            } else {
                assert(s[s.len() - 1] == last);
            }
        }
    } else if s.len() > 0 {
        let t = s.push(e);
        assert forall|i: int, j: int| 0 <= i < j < t.len() implies event_le(t[i], t[j]) by {
            if j == s.len() {
                assert(event_le(s[i], s[s.len() - 1]) || i == s.len() - 1);
            }
        }
        assert forall|k: int| 0 <= k < t.len() implies (#[trigger] t[k]) == e || s.contains(t[k]) by {
            if k < s.len() {
                assert(s[k] == t[k]);
            }
        }
    }
}

/// Law: the events of a MIDI track come out in order of tick, and at one tick by
/// priority, with none added or dropped.
pub proof fn sorted_events_are_in_order(s: Seq<RawEvent>)
    ensures
        events_in_order(stable_sort(s)),
        stable_sort(s).len() == s.len(),
    decreases s.len(),
{
    if s.len() > 0 {
        sorted_events_are_in_order(s.drop_last());
        lemma_insert_stable(stable_sort(s.drop_last()), s.last());
    }
}

/// A track event as plain values.
#[derive(Debug, Clone, Copy, PartialEq, Eq, Structural)]
pub enum MidiKind {
    /// Microseconds per quarter note.
    Tempo(u32),
    ProgramChange(u8),
    /// Key and velocity.
    NoteOn(u8, u8),
    /// Key and velocity.
    NoteOff(u8, u8),
    EndOfTrack,
}

/// An event of the track: ticks since the previous event, the channel of a channel
/// message, and what it is.
#[derive(Debug, Clone, Copy, PartialEq, Eq, Structural)]
pub struct TrackItem {
    pub delta: u32,
    pub channel: u8,
    pub kind: MidiKind,
}

pub open spec fn item_kind(k: RawKind) -> MidiKind {
    match k {
        RawKind::Tempo(t) => MidiKind::Tempo(t),
        RawKind::ProgramChange(p) => MidiKind::ProgramChange(p),
        RawKind::NoteOn(n) => MidiKind::NoteOn(n, 80),
        RawKind::NoteOff(n) => MidiKind::NoteOff(n, 0),
    }
}

/// The track of ordered events: each event with its distance from the previous one,
/// then the end of the track.
pub open spec fn track_items_of(evs: Seq<RawEvent>) -> Seq<TrackItem> {
    Seq::new(
        evs.len(),
        |i: int|
            TrackItem {
                delta: (evs[i].tick - (if i == 0 {
                    0
                } else {
                    evs[i - 1].tick as int
                })) as u32,
                channel: 0,
                kind: item_kind(evs[i].kind),
            },
    ).push(TrackItem { delta: 0, channel: 0, kind: MidiKind::EndOfTrack })
}

/// The single track of a score's MIDI file.
pub open spec fn track_items_spec(score: Score) -> Seq<TrackItem> {
    track_items_of(stable_sort(score_raw_events(score.measures@)))
}

fn build_track_events(raw: &[RawEvent]) -> (track: Vec<TrackItem>)
    requires
        events_in_order(raw@),
    ensures
        track@ == track_items_of(raw@),
{
    let mut track: Vec<TrackItem> = Vec::new();
    let mut last_tick: u32 = 0;
    let mut i: usize = 0;
    while i < raw.len()
        invariant
            i <= raw@.len(),
            events_in_order(raw@),
            last_tick == (if i == 0 {
                0
            } else {
                raw@[i - 1].tick
            }),
            track@ == track_items_of(raw@).take(i as int),
        decreases raw@.len() - i,
    {
        let event = raw[i];
        proof {
            if i > 0 {
                assert(event_le(raw@[i - 1], raw@[i as int]));
            }
        }
        let delta = event.tick - last_tick;
        let kind = match event.kind {
            RawKind::Tempo(t) => MidiKind::Tempo(t),
            RawKind::ProgramChange(p) => MidiKind::ProgramChange(p),
            RawKind::NoteOn(n) => MidiKind::NoteOn(n, VELOCITY),
            RawKind::NoteOff(n) => MidiKind::NoteOff(n, 0),
        };
        track.push(TrackItem { delta, channel: CHANNEL, kind });
        proof {
            assert(track@ =~= track_items_of(raw@).take(i + 1));
        }
        last_tick = event.tick;
        i += 1;
    }
    track.push(TrackItem { delta: 0, channel: CHANNEL, kind: MidiKind::EndOfTrack });
    proof {
        assert(track@ =~= track_items_of(raw@));
    }
    track
}

/// The events of a score's MIDI track, as plain values; see `track_items_spec`.
pub fn midi_track_items(score: &Score) -> (items: Vec<TrackItem>)
    requires
        midi_ready(*score),
    ensures
        items@ == track_items_spec(*score),
{
    let mut raw = collect_raw_events(score);
    sort_raw_events(&mut raw);
    proof {
        sorted_events_are_in_order(score_raw_events(score.measures@));
    }
    build_track_events(raw.as_slice())
}

#[verifier::external_type_specification]
#[verifier::external_body]
pub struct ExTrackEvent<'a>(TrackEvent<'a>);

#[verifier::external_type_specification]
#[verifier::external_body]
pub struct ExIoError(std::io::Error);

/// A track item as midly holds it: each number kept to the bits of its field (the delta
/// to 28, a tempo to 24, a channel to 4, a key, velocity or program to 7), as midly's
/// `From` conversions into `u28`, `u24`, `u4` and `u7` mask them; a meta event (tempo,
/// end of track) has no channel, taken as 0.
pub open spec fn stored(item: TrackItem) -> TrackItem {
    TrackItem {
        delta: (item.delta % 0x1000_0000) as u32,
        channel: match item.kind {
            MidiKind::Tempo(_) | MidiKind::EndOfTrack => 0,
            _ => (item.channel % 16) as u8,
        },
        kind: match item.kind {
            MidiKind::Tempo(t) => MidiKind::Tempo((t % 0x100_0000) as u32),
            MidiKind::ProgramChange(p) => MidiKind::ProgramChange((p % 128) as u8),
            MidiKind::NoteOn(k, v) => MidiKind::NoteOn((k % 128) as u8, (v % 128) as u8),
            MidiKind::NoteOff(k, v) => MidiKind::NoteOff((k % 128) as u8, (v % 128) as u8),
            MidiKind::EndOfTrack => MidiKind::EndOfTrack,
        },
    }
}

/// The events of a midly track, as plain values.
pub uninterp spec fn track_contents(track: Vec<TrackEvent<'static>>) -> Seq<TrackItem>;

/// An empty midly track.
#[verifier::external_body]
fn new_track() -> (t: Vec<TrackEvent<'static>>)
    ensures
        track_contents(t) == Seq::<TrackItem>::empty(),
{
    Vec::new()
}

/// Pushes midly's tempo meta event (`MetaMessage::Tempo`).
#[verifier::external_body]
fn push_tempo(track: &mut Vec<TrackEvent<'static>>, delta: u32, micros: u32)
    ensures
        track_contents(*final(track)) == track_contents(*old(track)).push(
            stored(TrackItem { delta, channel: 0, kind: MidiKind::Tempo(micros) }),
        ),
{
    track.push(TrackEvent { delta: u28::from(delta), kind: TrackEventKind::Meta(MetaMessage::Tempo(u24::from(micros))) });
}

/// Pushes midly's end-of-track meta event.
#[verifier::external_body]
fn push_end_of_track(track: &mut Vec<TrackEvent<'static>>, delta: u32)
    ensures
        track_contents(*final(track)) == track_contents(*old(track)).push(
            stored(TrackItem { delta, channel: 0, kind: MidiKind::EndOfTrack }),
        ),
{
    track.push(TrackEvent { delta: u28::from(delta), kind: TrackEventKind::Meta(MetaMessage::EndOfTrack) });
}

/// Pushes midly's program change on a channel.
#[verifier::external_body]
fn push_program_change(track: &mut Vec<TrackEvent<'static>>, delta: u32, channel: u8, program: u8)
    ensures
        track_contents(*final(track)) == track_contents(*old(track)).push(
            stored(TrackItem { delta, channel, kind: MidiKind::ProgramChange(program) }),
        ),
{
    let message = MidiMessage::ProgramChange { program: u7::from(program) };
    track.push(TrackEvent { delta: u28::from(delta), kind: TrackEventKind::Midi { channel: u4::from(channel), message } });
}

/// Pushes midly's note-on on a channel.
#[verifier::external_body]
fn push_note_on(track: &mut Vec<TrackEvent<'static>>, delta: u32, channel: u8, key: u8, vel: u8)
    ensures
        track_contents(*final(track)) == track_contents(*old(track)).push(
            stored(TrackItem { delta, channel, kind: MidiKind::NoteOn(key, vel) }),
        ),
{
    let message = MidiMessage::NoteOn { key: u7::from(key), vel: u7::from(vel) };
    track.push(TrackEvent { delta: u28::from(delta), kind: TrackEventKind::Midi { channel: u4::from(channel), message } });
}

/// Pushes midly's note-off on a channel.
#[verifier::external_body]
fn push_note_off(track: &mut Vec<TrackEvent<'static>>, delta: u32, channel: u8, key: u8, vel: u8)
    ensures
        track_contents(*final(track)) == track_contents(*old(track)).push(
            stored(TrackItem { delta, channel, kind: MidiKind::NoteOff(key, vel) }),
        ),
{
    let message = MidiMessage::NoteOff { key: u7::from(key), vel: u7::from(vel) };
    track.push(TrackEvent { delta: u28::from(delta), kind: TrackEventKind::Midi { channel: u4::from(channel), message } });
}

/// Appends the midly event of a track item.
fn raw_event_to_track_event(track: &mut Vec<TrackEvent<'static>>, item: TrackItem)
    ensures
        track_contents(*final(track)) == track_contents(*old(track)).push(stored(item)),
{
    match item.kind {
        MidiKind::Tempo(t) => push_tempo(track, item.delta, t),
        MidiKind::EndOfTrack => push_end_of_track(track, item.delta),
        MidiKind::ProgramChange(p) => push_program_change(track, item.delta, item.channel, p),
        MidiKind::NoteOn(k, v) => push_note_on(track, item.delta, item.channel, k, v),
        MidiKind::NoteOff(k, v) => push_note_off(track, item.delta, item.channel, k, v),
    }
}

/// The items as midly holds them.
pub open spec fn stored_items(items: Seq<TrackItem>) -> Seq<TrackItem> {
    Seq::new(items.len(), |i: int| stored(items[i]))
}

/// The midly track of the items, in order.
fn build_midly_track(items: &[TrackItem]) -> (t: Vec<TrackEvent<'static>>)
    ensures
        track_contents(t) == stored_items(items@),
{
    let mut t = new_track();
    let mut i: usize = 0;
    while i < items.len()
        invariant
            i <= items@.len(),
            track_contents(t) == stored_items(items@.take(i as int)),
        decreases items@.len() - i,
    {
        raw_event_to_track_event(&mut t, items[i]);
        proof {
            assert(stored_items(items@.take(i + 1)) == stored_items(items@.take(i as int)).push(
                stored(items@[i as int]),
            ));
        }
        i += 1;
    }
    proof {
        assert(items@.take(i as int) == items@);
    }
    t
}

/// The bytes midly writes for a single-track file of these events at this resolution.
pub uninterp spec fn smf_encoding(items: Seq<TrackItem>, ticks_per_quarter: u16) -> Seq<u8>;

/// The file header that every standard MIDI file starts with: `MThd`.
pub open spec fn smf_magic() -> Seq<u8> {
    seq![77u8, 84u8, 104u8, 100u8]
}

/// midly's `Smf::write_std` of a single-track file (`Format::SingleTrack`, metrical timing
/// `u15::from(ticks_per_quarter)`) into a byte vector. On success the bytes are taken to be
/// a function of the track's events and the resolution, and they start with the 14-byte
/// header chunk, whose first four bytes are `MThd` (midly's `write_header`), then the
/// 8-byte `MTrk` chunk header, then at least two bytes per event. Writing into a `Vec`
/// fails only when the track chunk's length does not fit in 32 bits (`check_len`); an
/// event of this track takes at most 10 bytes (a delta of up to 4 bytes and a message of
/// up to 6), so a track of at most `u32::MAX / 10` events is written.
#[verifier::external_body]
fn write_smf(track: Vec<TrackEvent<'static>>, ticks_per_quarter: u16) -> (r: Result<Vec<u8>, std::io::Error>)
    ensures
        r matches Ok(b) ==> b@ == smf_encoding(track_contents(track), ticks_per_quarter) && b@.len() >= 22
            + track_contents(track).len() && b@.take(4) == smf_magic(),
        10 * track_contents(track).len() <= u32::MAX ==> r is Ok,
{
    let header = Header::new(Format::SingleTrack, Timing::Metrical(u15::from(ticks_per_quarter)));
    let smf = Smf { header, tracks: vec![track] };
    let mut buf = Vec::new();
    smf.write_std(&mut buf)?;
    Ok(buf)
}

pub open spec fn midi_write_failure_message() -> Seq<char> {
    "failed to write MIDI data"@
}

/// The standard MIDI file of a score: a single piano track of the score's notes, chords
/// and tempo changes, at 480 ticks per quarter note.
pub fn write_midi(score: &Score) -> (r: Result<Vec<u8>, JianPuError>)
    requires
        midi_ready(*score),
    ensures
        match r {
            Ok(bytes) => bytes@ == smf_encoding(stored_items(track_items_spec(*score)), TPQ)
                && bytes@.take(4) == smf_magic() && bytes@.len() >= 22 + track_items_spec(*score).len(),
            Err(e) => e.span == (Span { start: 0, end: 0 }) && e.message@
                == midi_write_failure_message() && e.path.is_none() && e.kind == ErrorKind::General,
        },
        10 * track_items_spec(*score).len() <= u32::MAX ==> r is Ok,
{
    let items = midi_track_items(score);
    let track = build_midly_track(items.as_slice());
    match write_smf(track, TPQ) {
        Ok(bytes) => Ok(bytes),
        Err(_) => Err(JianPuError::new(Span::new(0, 0), String::from_str("failed to write MIDI data"))),
    }
}

} // verus!
