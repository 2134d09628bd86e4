use jianpu::ast::grouped::{NoteEvent, PartRow, Score};
use jianpu::ast::parsed::{
    Accidental, JianPuPitch, KeyChange, Note, NoteName, ParsedChordNote, ParsedDocument,
    ParsedLyrics, ParsedMetadata, ParsedNote, ParsedRest, ParsedScore, ParsedTimedTrack,
    ParsedTrack, PartDecl, PartKind, ScoreEvent, Syllable, TriadQuality,
};
use jianpu::compiler::compile;
use jianpu::compiler::types::{Decoration, ElementContent, SlurSpan};
use jianpu::error::{ErrorKind, JianPuError, Span, Spanned};
use jianpu::grouper::group;
use jianpu::grouping::validate_measure_grouping;

fn pitch(d: u32) -> JianPuPitch {
    match d {
        1 => JianPuPitch::One,
        2 => JianPuPitch::Two,
        3 => JianPuPitch::Three,
        4 => JianPuPitch::Four,
        5 => JianPuPitch::Five,
        6 => JianPuPitch::Six,
        _ => JianPuPitch::Seven,
    }
}

fn set_duration(e: &mut ScoreEvent, f: impl Fn(u32) -> u32, dot: bool) {
    match e {
        ScoreEvent::Note(n) => {
            n.duration = f(n.duration);
            n.dotted |= dot;
        }
        ScoreEvent::Rest(r) => {
            r.duration = f(r.duration);
            r.dotted |= dot;
        }
        ScoreEvent::Chord(c) => {
            c.duration = f(c.duration);
            c.dotted |= dot;
        }
        _ => {}
    }
}

/// Events of one part, bar by bar, from a compact notation: `1`-`7` notes (or chord
/// degrees in a chord part), `0` rests, `_` eighth, `=` sixteenth, `.` dotted, `-` a beat
/// of extension, `~` a tie, `(` and `)` slur groups that may span bars.
fn bars_events(bars: &[&str], chord_part: bool) -> Vec<Vec<Spanned<ScoreEvent>>> {
    let mut out: Vec<Vec<Spanned<ScoreEvent>>> = Vec::new();
    let mut depth: u8 = 0;
    let mut offset: usize = 100;
    let mut last: Option<(usize, usize)> = None;
    let mut dashes: u32 = 0;
    for (b, bar) in bars.iter().enumerate() {
        out.push(Vec::new());
        for (i, ch) in bar.char_indices() {
            let at = offset + i;
            let span = Span::new(at, at + 1);
            match ch {
                '(' => depth += 1,
                ')' => {
                    if let Some((lb, li)) = last {
                        match &mut out[lb][li].value {
                            ScoreEvent::Note(n) => {
                                if dashes == 0 {
                                    n.group_continuation -= 1;
                                } else {
                                    n.slur_group_close_at_duration = Some(4 * dashes);
                                }
                            }
                            ScoreEvent::Chord(c) => {
                                if dashes == 0 {
                                    c.group_continuation -= 1;
                                } else {
                                    c.slur_group_close_at_duration = Some(4 * dashes);
                                }
                            }
                            ScoreEvent::Rest(r) => r.group_continuation -= 1,
                            _ => {}
                        }
                    }
                    depth -= 1;
                }
                '0' => {
                    out[b].push(Spanned::new(
                        ScoreEvent::Rest(ParsedRest {
                            duration: 4,
                            dotted: false,
                            group_membership: depth,
                            group_continuation: depth,
                        }),
                        span,
                    ));
                    last = Some((b, out[b].len() - 1));
                    dashes = 0;
                }
                '1'..='7' => {
                    let d = ch.to_digit(10).unwrap();
                    let value = if chord_part {
                        ScoreEvent::Chord(ParsedChordNote {
                            degree: pitch(d),
                            accidental: Accidental::Natural,
                            triad: TriadQuality::Major,
                            extension: None,
                            bass: None,
                            duration: 4,
                            tie: false,
                            tie_to_next_span: None,
                            group_membership: depth,
                            group_continuation: depth,
                            dotted: false,
                            slur_group_close_at_duration: None,
                        })
                    } else {
                        ScoreEvent::Note(ParsedNote {
                            pitch: pitch(d),
                            octave: 0,
                            duration: 4,
                            tie: false,
                            tie_to_next_span: None,
                            group_membership: depth,
                            group_continuation: depth,
                            dotted: false,
                            slur_group_close_at_duration: None,
                        })
                    };
                    out[b].push(Spanned::new(value, span));
                    last = Some((b, out[b].len() - 1));
                    dashes = 0;
                }
                '_' => {
                    let (lb, li) = last.unwrap();
                    set_duration(&mut out[lb][li].value, |d| d / 2, false);
                }
                '=' => {
                    let (lb, li) = last.unwrap();
                    set_duration(&mut out[lb][li].value, |_| 1, false);
                }
                '.' => {
                    let (lb, li) = last.unwrap();
                    set_duration(&mut out[lb][li].value, |d| d * 3 / 2, true);
                }
                '-' => {
                    let glued = i > 0 && !bar[..i].ends_with(' ');
                    match last {
                        Some((lb, li)) if glued && dashes == 0 && lb == b => {
                            set_duration(&mut out[lb][li].value, |d| d + 4, false);
                        }
                        _ => {
                            out[b].push(Spanned::new(ScoreEvent::Extension, span));
                            dashes += 1;
                        }
                    }
                }
                '~' => out[b].push(Spanned::new(ScoreEvent::TieMarker, span)),
                _ => {}
            }
        }
        offset += bar.len() + 1;
    }
    for bar in out.iter_mut() {
        for e in bar.iter_mut() {
            match &mut e.value {
                ScoreEvent::Note(n) => n.tie = n.group_continuation > 0,
                ScoreEvent::Chord(c) => c.tie = c.group_continuation > 0,
                _ => {}
            }
        }
    }
    out
}

fn flat(bars: &[&str], chord_part: bool) -> Vec<Spanned<ScoreEvent>> {
    bars_events(bars, chord_part).into_iter().flatten().collect()
}

fn weight(e: &ScoreEvent) -> u32 {
    match e {
        ScoreEvent::Note(n) => n.duration,
        ScoreEvent::Rest(r) => r.duration,
        ScoreEvent::Chord(c) => c.duration,
        ScoreEvent::Extension => 4,
        _ => 0,
    }
}

/// A part's event stream: each bar shorter than a 4/4 bar gets a time signature of its
/// own length, as the bar lines of the source would make it a measure of its own.
fn part_stream(bars: &[&str], chord_part: bool) -> Vec<Spanned<ScoreEvent>> {
    let mut out = Vec::new();
    for bar in bars_events(bars, chord_part) {
        let total: u32 = bar.iter().map(|e| weight(&e.value)).sum();
        let (numerator, denominator) = if total < 16 { (total as u8, 16u8) } else { (4, 4) };
        out.push(Spanned::new(ScoreEvent::TimeSignatureChange { numerator, denominator }, Span::new(0, 1)));
        out.extend(bar);
    }
    out
}

fn lyrics_of(lines: &[&str]) -> Vec<Syllable> {
    let mut out: Vec<Syllable> = Vec::new();
    for line in lines {
        for word in line.split_whitespace() {
            if word == "-" {
                if let Some(last) = out.last_mut() {
                    last.held = true;
                }
            } else if word != "_" {
                out.push(Syllable { text: word.to_string(), held: false });
            }
        }
    }
    out
}

struct PartSpec<'a> {
    name: &'a str,
    kind: PartKind,
    bars: Vec<&'a str>,
    lyrics: Option<Vec<&'a str>>,
    ditto: Vec<bool>,
}

fn part<'a>(name: &'a str, kind: PartKind, bars: Vec<&'a str>) -> PartSpec<'a> {
    PartSpec { name, kind, bars, lyrics: None, ditto: Vec::new() }
}

fn with_lyrics<'a>(name: &'a str, bars: Vec<&'a str>, lyrics: Vec<&'a str>) -> PartSpec<'a> {
    PartSpec { name, kind: PartKind::NotesWithLyrics, bars, lyrics: Some(lyrics), ditto: Vec::new() }
}

fn key(name: NoteName, octave: u8) -> KeyChange {
    KeyChange { note: Note { name, octave, accidental: Accidental::Natural } }
}

fn ev(v: ScoreEvent) -> Spanned<ScoreEvent> {
    Spanned::new(v, Span::new(0, 1))
}

/// The directive line `(time=4/4 key=<key> bpm=<bpm>)`.
fn dirs(k: NoteName, bpm: u32) -> Vec<Spanned<ScoreEvent>> {
    vec![
        ev(ScoreEvent::TimeSignatureChange { numerator: 4, denominator: 4 }),
        ev(ScoreEvent::KeyChange(key(k, 4))),
        ev(ScoreEvent::BpmChange(bpm)),
    ]
}

fn std_dirs() -> Vec<Spanned<ScoreEvent>> {
    dirs(NoteName::C, 120)
}

fn doc(parts: Vec<PartSpec>, directives: Vec<Vec<Spanned<ScoreEvent>>>) -> ParsedDocument {
    let measures = parts.first().map(|p| p.bars.len()).unwrap_or(0);
    let mut per_measure = directives;
    while per_measure.len() < measures {
        per_measure.push(Vec::new());
    }
    let declarations = parts
        .iter()
        .map(|p| PartDecl { abbreviation: p.name.to_string(), display_name: p.name.to_string(), kind: p.kind })
        .collect();
    let tracks = parts
        .iter()
        .map(|p| {
            ParsedTrack::Timed(ParsedTimedTrack {
                abbreviation: p.name.to_string(),
                display_name: p.name.to_string(),
                kind: p.kind,
                score: ParsedScore { events: part_stream(&p.bars, p.kind == PartKind::Chord) },
                lyrics: p.lyrics.as_ref().map(|l| ParsedLyrics { syllables: lyrics_of(l) }),
                ditto_measures: p.ditto.clone(),
                lyrics_ditto_measures: Vec::new(),
            })
        })
        .collect();
    ParsedDocument {
        filename: "test.jianpu".to_string(),
        metadata: ParsedMetadata {
            title: "t".to_string(),
            subtitle: None,
            author: "a".to_string(),
            row_height: None,
            max_columns: None,
            label_width: None,
            note_number_width: None,
        },
        declarations,
        tracks,
        directive_events_per_measure: per_measure,
    }
}

fn group_ok(d: ParsedDocument) -> Score {
    match group(d) {
        Ok(s) => s,
        Err(e) => panic!("group failed: {}", e.message),
    }
}

fn group_err(d: ParsedDocument) -> JianPuError {
    match group(d) {
        Err(e) => e,
        Ok(_) => panic!("expected group() to return Err, but it returned Ok"),
    }
}

fn melody(bars: Vec<&str>) -> Score {
    group_ok(doc(vec![part("S", PartKind::Notes, bars)], vec![std_dirs()]))
}

fn first_part_notes(score: &Score, measure_idx: usize) -> &Vec<NoteEvent> {
    &score.measures[measure_idx].parts[0].slice().notes.events
}

fn validate_bar(bar: &str) -> Result<(), JianPuError> {
    let events = flat(&[bar], false);
    validate_measure_grouping(&events, 4, 4)
}

// ── grouping ────────────────────────────────────────────────────────────────

#[test]
fn chord_half_bar_boundary_validation_matches_notes() {
    let events = flat(&["1. 2. 3_ 4_"], true);
    assert!(validate_measure_grouping(&events, 4, 4).is_err());
}

#[test]
fn rejects_half_bar_crossing() {
    let err = validate_bar("1. 2. 3_ 4_").unwrap_err();
    assert!(err.message.contains("half-bar boundary"));
}

#[test]
fn rejects_half_bar_crossing_on_half_note() {
    let err = validate_bar("1 2- 0_ 0_").unwrap_err();
    assert!(err.message.contains("half-bar boundary"));
}

#[test]
fn accepts_half_bar_split_with_beam_group() {
    assert!(validate_bar("1. (2_ 2_) 3_ 4_ 0_").is_ok());
}

#[test]
fn rejects_dotted_eighth_without_tail_group() {
    let err = validate_bar("1_. 2_ 3_ 4_ 5_ 6_ 7_ 0=").unwrap_err();
    assert!(err.message.contains("dotted eighth"));
}

#[test]
fn accepts_dotted_eighth_with_sixteenth_tail() {
    assert!(validate_bar("1_. 2= 3_ 4_ 5_ 6_ 7_ 1_").is_ok());
}

#[test]
fn rejects_dotted_eighth_rest_without_tail_group() {
    let err = validate_bar("0_. 1_ 2_ 3_ 4_ 5_ 6_ 0=").unwrap_err();
    assert!(err.message.contains("dotted eighth"));
}

#[test]
fn accepts_extension_notes_that_start_on_beat_three() {
    assert!(validate_bar("(6- 7-)").is_ok());
}

#[test]
fn skips_validation_for_non_four_four() {
    let events = flat(&["1. 2. 3_ 4_"], false);
    assert!(validate_measure_grouping(&events, 3, 4).is_ok());
}

#[test]
fn allows_half_bar_crossing_inside_beam_group() {
    let bars = bars_events(&["5_ 5_ 5_ 5= 5= 5_ 3_ 2_ (3_", "3_) (1_1-) 0_ 1= 1="], false);
    validate_measure_grouping(&bars[1], 4, 4).expect("grouped crossing should be allowed");
}

#[test]
fn half_bar_error_has_exact_message_and_span() {
    let err = validate_bar("1. 2. 3_ 4_").unwrap_err();
    assert_eq!(
        err.message,
        "note/rest crosses the half-bar boundary (beat 2→3); use a beam group or tie to show the split"
    );
    assert_eq!((err.span.start, err.span.end), (103, 104));
}

// ── grouper ─────────────────────────────────────────────────────────────────

fn lyric_melody(bars: Vec<&str>, lyrics: Vec<&str>) -> Score {
    group_ok(doc(vec![with_lyrics("Melody", bars, lyrics)], vec![std_dirs()]))
}

fn check_groups_four_four_into_single_measure() {
    let score = lyric_melody(vec!["1 2 3 4"], vec!["a b c d"]);
    assert_eq!(score.measures.len(), 1);
    assert_eq!(first_part_notes(&score, 0).len(), 4);
}

#[test]
fn grouper_groups_four_four_into_single_measure() {
    check_groups_four_four_into_single_measure();
}

#[test]
fn tests_groups_four_four_into_single_measure() {
    check_groups_four_four_into_single_measure();
}

fn check_splits_into_two_measures_at_bar_boundary() {
    let score = lyric_melody(vec!["1 2 3 4", "5 6 7 1"], vec!["a b c d", "e f g h"]);
    assert_eq!(score.measures.len(), 2);
}

#[test]
fn grouper_splits_into_two_measures_at_bar_boundary() {
    check_splits_into_two_measures_at_bar_boundary();
}

#[test]
fn tests_splits_into_two_measures_at_bar_boundary() {
    check_splits_into_two_measures_at_bar_boundary();
}

fn check_extension_adds_to_previous_note_duration() {
    let score = lyric_melody(vec!["1- 3 4"], vec!["a - b"]);
    match &first_part_notes(&score, 0)[0] {
        NoteEvent::Note(n) => assert_eq!(n.duration, 8),
        NoteEvent::Rest(_) | NoteEvent::Chord(_) => panic!("expected Note"),
    }
}

#[test]
fn grouper_extension_adds_to_previous_note_duration() {
    check_extension_adds_to_previous_note_duration();
}

#[test]
fn tests_extension_adds_to_previous_note_duration() {
    check_extension_adds_to_previous_note_duration();
}

fn check_rejects_standalone_dash_after_rest() {
    let err = group_err(doc(vec![with_lyrics("Melody", vec!["0 - - -"], vec!["_"])], vec![std_dirs()]));
    assert_eq!(err.kind, ErrorKind::DashAfterRest);
}

#[test]
fn grouper_rejects_standalone_dash_after_rest() {
    check_rejects_standalone_dash_after_rest();
}

#[test]
fn tests_rejects_standalone_dash_after_rest() {
    check_rejects_standalone_dash_after_rest();
}

fn check_first_measure_has_bpm_some() {
    let score = lyric_melody(vec!["1 2 3 4"], vec!["a b c d"]);
    assert_eq!(score.measures[0].bpm, Some(120));
}

#[test]
fn grouper_first_measure_has_bpm_some() {
    check_first_measure_has_bpm_some();
}

#[test]
fn tests_first_measure_has_bpm_some() {
    check_first_measure_has_bpm_some();
}

fn bpm_change_doc() -> ParsedDocument {
    doc(
        vec![with_lyrics("Melody", vec!["1 2 3 4", "5 6 7 1"], vec!["a b c d", "e f g h"])],
        vec![std_dirs(), vec![ev(ScoreEvent::BpmChange(90))]],
    )
}

fn check_bpm_change_sets_some_on_next_measure() {
    let score = group_ok(bpm_change_doc());
    assert_eq!(score.measures[0].bpm, Some(120));
    assert_eq!(score.measures[1].bpm, Some(90));
}

#[test]
fn grouper_bpm_change_sets_some_on_next_measure() {
    check_bpm_change_sets_some_on_next_measure();
}

#[test]
fn tests_bpm_change_sets_some_on_next_measure() {
    check_bpm_change_sets_some_on_next_measure();
}

fn check_unchanged_bpm_is_none_on_second_measure() {
    let score = lyric_melody(vec!["1 2 3 4", "5 6 7 1"], vec!["a b c d", "e f g h"]);
    assert_eq!(score.measures[0].bpm, Some(120));
    assert_eq!(score.measures[1].bpm, None);
}

#[test]
fn grouper_unchanged_bpm_is_none_on_second_measure() {
    check_unchanged_bpm_is_none_on_second_measure();
}

#[test]
fn tests_unchanged_bpm_is_none_on_second_measure() {
    check_unchanged_bpm_is_none_on_second_measure();
}

fn check_key_change_propagates() {
    let score = group_ok(doc(
        vec![with_lyrics("Melody", vec!["1 2 3 4"], vec!["a b c d"])],
        vec![dirs(NoteName::G, 120)],
    ));
    assert_eq!(score.measures[0].key.as_ref().unwrap().note.name, NoteName::G);
}

#[test]
fn grouper_key_change_propagates() {
    check_key_change_propagates();
}

#[test]
fn tests_key_change_propagates() {
    check_key_change_propagates();
}

fn check_row_height_defaults_to_24() {
    let score = lyric_melody(vec!["1 2 3 4"], vec!["a b c d"]);
    assert_eq!(score.metadata.row_height, 24);
}

#[test]
fn grouper_row_height_defaults_to_24() {
    check_row_height_defaults_to_24();
}

#[test]
fn tests_row_height_defaults_to_24() {
    check_row_height_defaults_to_24();
}

fn check_max_columns_defaults_to_28() {
    let score = lyric_melody(vec!["1 2 3 4"], vec!["a b c d"]);
    assert_eq!(score.metadata.max_columns, 28);
}

#[test]
fn grouper_max_columns_defaults_to_28() {
    check_max_columns_defaults_to_28();
}

#[test]
fn tests_max_columns_defaults_to_28() {
    check_max_columns_defaults_to_28();
}

fn check_half_beat_notes_accumulate_correctly() {
    let score = lyric_melody(vec!["1_ 2_ 3_ 4_ 5_ 6_ 7_ 1_"], vec!["a b c d e f g h"]);
    assert_eq!(score.measures.len(), 1);
}

#[test]
fn grouper_half_beat_notes_accumulate_correctly() {
    check_half_beat_notes_accumulate_correctly();
}

#[test]
fn tests_half_beat_notes_accumulate_correctly() {
    check_half_beat_notes_accumulate_correctly();
}

fn check_overflow_note_errors() {
    // Without the parser's beat check, the overfull bar is refused by grouping itself.
    let err = group_err(doc(
        vec![with_lyrics("Melody", vec!["1_ 1_ 1_ 1_ 1_ 1_ 1_ 1"], vec!["a b c d e f g h"])],
        vec![std_dirs()],
    ));
    assert_eq!(
        err.message,
        "note duration 4 overflows the current measure (capacity 16 quarter-beats, 18 used)"
    );
}

#[test]
fn grouper_overflow_note_errors() {
    check_overflow_note_errors();
}

#[test]
fn tests_overflow_note_errors() {
    check_overflow_note_errors();
}

fn check_bpm_change_creates_new_measure() {
    let score = group_ok(bpm_change_doc());
    assert_eq!(score.measures.len(), 2);
    assert_eq!(score.measures[0].bpm, Some(120));
    assert_eq!(first_part_notes(&score, 0).len(), 4);
    assert_eq!(score.measures[1].bpm, Some(90));
    assert_eq!(first_part_notes(&score, 1).len(), 4);
}

#[test]
fn grouper_bpm_change_creates_new_measure() {
    check_bpm_change_creates_new_measure();
}

#[test]
fn tests_bpm_change_creates_new_measure() {
    check_bpm_change_creates_new_measure();
}

fn check_two_part_score_has_two_part_slices_per_measure() {
    let score = group_ok(doc(
        vec![
            part("Soprano", PartKind::Notes, vec!["1 2 3 4"]),
            part("Alto", PartKind::Notes, vec!["5 6 7 1"]),
        ],
        vec![std_dirs()],
    ));
    assert_eq!(score.measures.len(), 1);
    assert_eq!(score.measures[0].parts.len(), 2);
    assert_eq!(score.measures[0].parts[0].name(), Some(&"Soprano".to_string()));
    assert_eq!(score.measures[0].parts[1].name(), Some(&"Alto".to_string()));
}

#[test]
fn grouper_two_part_score_has_two_part_slices_per_measure() {
    check_two_part_score_has_two_part_slices_per_measure();
}

#[test]
fn tests_two_part_score_has_two_part_slices_per_measure() {
    check_two_part_score_has_two_part_slices_per_measure();
}

fn label(text: &str) -> Spanned<ScoreEvent> {
    ev(ScoreEvent::LabelChange(text.to_string()))
}

fn check_label_directive_propagates_to_measure() {
    let mut d = std_dirs();
    d.push(label("Verse 1"));
    let score = group_ok(doc(vec![part("Melody", PartKind::Notes, vec!["1 2 3 4"])], vec![d]));
    assert_eq!(score.measures[0].label, Some("Verse 1".to_string()));
}

#[test]
fn grouper_label_directive_propagates_to_measure() {
    check_label_directive_propagates_to_measure();
}

#[test]
fn tests_label_directive_propagates_to_measure() {
    check_label_directive_propagates_to_measure();
}

fn check_label_is_none_when_not_declared() {
    let score = group_ok(doc(vec![part("Melody", PartKind::Notes, vec!["1 2 3 4"])], vec![std_dirs()]));
    assert_eq!(score.measures[0].label, None);
}

#[test]
fn grouper_label_is_none_when_not_declared() {
    check_label_is_none_when_not_declared();
}

#[test]
fn tests_label_is_none_when_not_declared() {
    check_label_is_none_when_not_declared();
}

fn check_label_does_not_persist_to_next_measure() {
    let mut d = std_dirs();
    d.push(label("Verse 1"));
    let score = group_ok(doc(vec![part("Melody", PartKind::Notes, vec!["1 2 3 4", "5 6 7 1"])], vec![d]));
    assert_eq!(score.measures[0].label, Some("Verse 1".to_string()));
    assert_eq!(score.measures[1].label, None);
}

#[test]
fn grouper_label_does_not_persist_to_next_measure() {
    check_label_does_not_persist_to_next_measure();
}

#[test]
fn tests_label_does_not_persist_to_next_measure() {
    check_label_does_not_persist_to_next_measure();
}

fn check_label_on_second_measure_not_first() {
    let score = group_ok(doc(
        vec![part("Melody", PartKind::Notes, vec!["1 2 3 4", "5 6 7 1"])],
        vec![std_dirs(), vec![label("Chorus")]],
    ));
    assert_eq!(score.measures[0].label, None);
    assert_eq!(score.measures[1].label, Some("Chorus".to_string()));
}

#[test]
fn grouper_label_on_second_measure_not_first() {
    check_label_on_second_measure_not_first();
}

#[test]
fn tests_label_on_second_measure_not_first() {
    check_label_on_second_measure_not_first();
}

fn check_lyrics_distributed_per_measure() {
    let score = lyric_melody(vec!["1 2 3 4", "5 6 7 1"], vec!["a b c d", "e f g h"]);
    assert_eq!(score.measures.len(), 2);
    let m0 = score.measures[0].parts[0].slice().lyrics.as_ref().unwrap();
    let m1 = score.measures[1].parts[0].slice().lyrics.as_ref().unwrap();
    assert_eq!(m0.syllables.len(), 4);
    assert_eq!(m1.syllables.len(), 4);
}

#[test]
fn grouper_lyrics_distributed_per_measure() {
    check_lyrics_distributed_per_measure();
}

#[test]
fn tests_lyrics_distributed_per_measure() {
    check_lyrics_distributed_per_measure();
}

fn check_standalone_tie_marker_after_extension_that_flushes_measure() {
    let score = melody(vec!["(6---", "7) 0 0 0"]);
    match first_part_notes(&score, 0).last().unwrap() {
        NoteEvent::Note(n) => assert!(n.tie, "note 6 in measure 0 should be tied"),
        NoteEvent::Rest(_) | NoteEvent::Chord(_) => panic!("expected Note"),
    }
}

#[test]
fn grouper_standalone_tie_marker_after_extension_that_flushes_measure() {
    check_standalone_tie_marker_after_extension_that_flushes_measure();
}

#[test]
fn tests_standalone_tie_marker_after_extension_that_flushes_measure() {
    check_standalone_tie_marker_after_extension_that_flushes_measure();
}

fn check_standalone_tie_marker_sets_tie_on_preceding_note() {
    let score = melody(vec!["(6-7) 0"]);
    let notes = first_part_notes(&score, 0);
    match &notes[0] {
        NoteEvent::Note(n) => {
            assert_eq!(n.duration, 8, "note 6 should be extended to 2 beats");
            assert!(n.tie, "note 6 should have tie=true");
        }
        NoteEvent::Rest(_) | NoteEvent::Chord(_) => panic!("expected Note"),
    }
    match &notes[1] {
        NoteEvent::Note(n) => assert_eq!(n.pitch, JianPuPitch::Seven),
        NoteEvent::Rest(_) | NoteEvent::Chord(_) => panic!("expected Note"),
    }
}

#[test]
fn grouper_standalone_tie_marker_sets_tie_on_preceding_note() {
    check_standalone_tie_marker_sets_tie_on_preceding_note();
}

#[test]
fn tests_standalone_tie_marker_sets_tie_on_preceding_note() {
    check_standalone_tie_marker_sets_tie_on_preceding_note();
}

fn check_chord_extend_with_no_preceding_event_reports_token_span() {
    let err = group_err(doc(
        vec![part("c", PartKind::Chord, vec!["- 1 - -"]), part("n", PartKind::Notes, vec!["1 2 3 4"])],
        vec![std_dirs()],
    ));
    assert!(err.span.start > 0 || err.span.end > 0);
    assert!(err.message.contains("chord extension"));
}

#[test]
fn grouper_chord_extend_with_no_preceding_event_reports_token_span() {
    check_chord_extend_with_no_preceding_event_reports_token_span();
}

#[test]
fn tests_chord_extend_with_no_preceding_event_reports_token_span() {
    check_chord_extend_with_no_preceding_event_reports_token_span();
}

fn check_chord_part_produces_one_chord_event_per_measure() {
    let score = group_ok(doc(
        vec![part("chord", PartKind::Chord, vec!["1 - - -"]), part("Melody", PartKind::Notes, vec!["1---"])],
        vec![std_dirs()],
    ));
    let measure = &score.measures[0];
    let chord_row = measure.parts.iter().find(|r| r.slice().kind == PartKind::Chord).unwrap();
    let slice = chord_row.slice();
    assert_eq!(slice.notes.events.len(), 1);
    match &slice.notes.events[0] {
        NoteEvent::Chord(c) => assert_eq!(c.duration, 16),
        NoteEvent::Note(_) | NoteEvent::Rest(_) => panic!("expected Chord event"),
    }
}

#[test]
fn grouper_chord_part_produces_one_chord_event_per_measure() {
    check_chord_part_produces_one_chord_event_per_measure();
}

#[test]
fn tests_chord_part_produces_one_chord_event_per_measure() {
    check_chord_part_produces_one_chord_event_per_measure();
}

#[test]
fn measure_span_covers_first_note_byte_offset() {
    let score = melody(vec!["1 2 3 4"]);
    assert_eq!(score.measures[0].source_span.start, 100);
    assert_eq!(score.measures[0].source_span.end, 107);
}

#[test]
fn second_measure_span_covers_its_first_note() {
    let score = melody(vec!["1 2 3 4", "5 6 7 1"]);
    assert_eq!(score.measures[1].source_span.start, 108);
}

#[test]
fn tie_marker_without_note_is_an_error() {
    let err = group_err(doc(vec![part("S", PartKind::Notes, vec!["~1 2 3 4"])], vec![std_dirs()]));
    assert_eq!(err.message, "tie `~` without a preceding note");
}

#[test]
fn extension_without_note_in_notes_part_is_an_error() {
    let err = group_err(doc(vec![part("S", PartKind::Notes, vec!["- 1 2 3"])], vec![std_dirs()]));
    assert!(err.message.starts_with("extension `-` without a preceding note or rest"));
}

#[test]
fn grouping_keeps_every_event() {
    let score = melody(vec!["1_ 2_ 3 4 5", "6 7 0 1", "2"]);
    let total: usize = score.measures.iter().map(|m| m.parts[0].slice().notes.events.len()).sum();
    assert_eq!(total, 10);
    assert!(score.measures.iter().all(|m| !m.parts[0].slice().notes.events.is_empty()));
}

#[test]
fn tie_across_bar_is_carried_to_the_tied_note() {
    let score = melody(vec!["1 2 3 4~", "4 5 6 7"]);
    match first_part_notes(&score, 0).last().unwrap() {
        NoteEvent::Note(n) => assert!(n.tie),
        _ => panic!("expected Note"),
    }
}

// ── combiner ────────────────────────────────────────────────────────────────

fn two_part(soprano: &str, alto: &str) -> ParsedDocument {
    doc(
        vec![part("Soprano", PartKind::Notes, vec![soprano]), part("Alto", PartKind::Notes, vec![alto])],
        vec![std_dirs()],
    )
}

#[test]
fn combines_two_parts_into_measures() {
    let measures = group_ok(two_part("1 2 3 4", "5 6 7 1")).measures;
    assert_eq!(measures.len(), 1);
    assert_eq!(measures[0].parts.len(), 2);
}

#[test]
fn directives_come_from_first_part() {
    let measures = group_ok(two_part("1 2 3 4", "5 6 7 1")).measures;
    assert_eq!(measures[0].bpm, Some(120));
    assert!(measures[0].time_signature.is_some());
}

#[test]
fn rejects_parts_with_different_measure_counts() {
    // Without the parser, "5 6 7 1 5" in a 4/4 bar spills into a second measure.
    let err = group_err(two_part("1 2 3 4", "5 6 7 1 5"));
    assert_eq!(
        err.message,
        "part Some(\"Alto\") has 2 measures but the first part has 1; all parts must have the same number of measures"
    );
}

#[test]
fn lyrics_skip_tie_continuations() {
    let score = lyric_melody(vec!["1 2 3 (4", "4) 5 6 7"], vec!["ha ta ba na", "sa da ko"]);
    let m1 = score.measures[1].parts[0].slice().lyrics.as_ref().unwrap();
    let texts: Vec<&str> = m1.syllables.iter().map(|s| s.text.as_str()).collect();
    assert_eq!(texts, vec!["sa", "da", "ko"]);
}

// ── compiler ────────────────────────────────────────────────────────────────

fn row_elements(score: &Score, block: usize, row: usize) -> Vec<(u32, String)> {
    let result = compile(score);
    result.blocks[block].rows[row]
        .elements
        .iter()
        .map(|e| {
            let name = match &e.content {
                ElementContent::NoteHead { .. } => "head".to_string(),
                ElementContent::Rest { .. } => "rest".to_string(),
                ElementContent::ChordSymbol(s) => format!("chord:{s}"),
                ElementContent::Underline { level, .. } => format!("underline{level}"),
                ElementContent::BarLine => "bar".to_string(),
                ElementContent::NoteDash => "dash".to_string(),
                ElementContent::Lyric(s) => format!("lyric:{s}"),
            };
            (e.column, name)
        })
        .collect()
}

fn has_span(spans: &[SlurSpan], from: (usize, u32), to: (usize, u32)) -> bool {
    spans.iter().any(|s| {
        s.part_index == 0
            && s.from_measure == from.0
            && s.from_column == from.1
            && s.to_measure == to.0
            && s.to_column == to.1
    })
}

#[test]
fn single_quarter_note_produces_one_note_head_element() {
    let score = melody(vec!["1"]);
    let result = compile(&score);
    let row = &result.blocks[0].rows[0];
    let heads = row.elements.iter().filter(|e| matches!(e.content, ElementContent::NoteHead { .. })).count();
    assert_eq!(heads, 1);
}

#[test]
fn bar_line_is_last_element_in_row() {
    let score = melody(vec!["1"]);
    let result = compile(&score);
    let last = result.blocks[0].rows[0].elements.last().unwrap();
    assert!(matches!(last.content, ElementContent::BarLine));
}

#[test]
fn bpm_decoration_on_first_measure() {
    let score = group_ok(doc(vec![part("S", PartKind::Notes, vec!["1"])], vec![dirs(NoteName::C, 100)]));
    let result = compile(&score);
    assert!(result.blocks[0].decorations.iter().any(|d| matches!(d, Decoration::Bpm(100))));
}

#[test]
fn two_measures_produce_two_blocks() {
    let score = melody(vec!["1", "2"]);
    assert_eq!(compile(&score).blocks.len(), 2);
}

#[test]
fn eighth_notes_produce_underline_elements() {
    let score = melody(vec!["2_ 2_ 0 0 0"]);
    let els = row_elements(&score, 0, 0);
    assert!(els.iter().any(|(_, n)| n.starts_with("underline")), "expected at least one underline");
}

#[test]
fn time_signature_appears_as_decoration() {
    let score = melody(vec!["1"]);
    let result = compile(&score);
    assert!(result.blocks[0]
        .decorations
        .iter()
        .any(|d| matches!(d, Decoration::TimeSignature { numerator: 4, denominator: 4 })));
}

#[test]
fn ditto_rows_are_skipped() {
    let score = group_ok(doc(
        vec![part("S", PartKind::Notes, vec!["1", "2"]), part("A", PartKind::Notes, vec!["3", "4"])],
        vec![std_dirs()],
    ));
    let result = compile(&score);
    assert_eq!(result.blocks.len(), 2);
    assert_eq!(result.blocks[0].rows.len(), 2);
}

#[test]
fn bar_number_decoration_without_label() {
    let score = melody(vec!["1", "2"]);
    let result = compile(&score);
    let bar1 = result.blocks[0].decorations.iter().find(|d| matches!(d, Decoration::BarNumber(_)));
    assert!(matches!(bar1, Some(Decoration::BarNumber(1))));
    let bar2 = result.blocks[1].decorations.iter().find(|d| matches!(d, Decoration::BarNumber(_)));
    assert!(matches!(bar2, Some(Decoration::BarNumber(2))));
}

#[test]
fn section_label_measure_has_no_bar_number() {
    let mut d = std_dirs();
    d.push(label("Verse 1"));
    let score = group_ok(doc(vec![part("S", PartKind::Notes, vec!["1"])], vec![d]));
    let result = compile(&score);
    assert!(!result.blocks[0].decorations.iter().any(|d| matches!(d, Decoration::BarNumber(_))));
    assert!(result.blocks[0].decorations.iter().any(|d| matches!(d, Decoration::SectionLabel(_))));
}

#[test]
fn rest_produces_rest_element() {
    let score = melody(vec!["0"]);
    let els = row_elements(&score, 0, 0);
    assert_eq!(els.iter().filter(|(_, n)| n == "rest").count(), 1);
}

#[test]
fn bar_line_column_equals_total_duration() {
    let score = melody(vec!["1 2 3 4"]);
    let els = row_elements(&score, 0, 0);
    let bar = els.iter().find(|(_, n)| n == "bar").unwrap();
    assert_eq!(bar.0, 16, "bar line should be at column 16 for four quarter notes");
}

#[test]
fn all_parts_ditto_except_first_produces_all_label() {
    let mut alto = part("A", PartKind::Notes, vec!["1 2 3 4"]);
    alto.ditto = vec![true];
    let mut tenor = part("T", PartKind::Notes, vec!["1 2 3 4"]);
    tenor.ditto = vec![true];
    let score = group_ok(doc(vec![part("S", PartKind::Notes, vec!["1 2 3 4"]), alto, tenor], vec![std_dirs()]));
    let result = compile(&score);
    assert_eq!(result.blocks[0].rows.len(), 1, "all ditto parts should collapse to one row");
    assert_eq!(result.blocks[0].rows[0].label, "[ALL]");
}

#[test]
fn extended_note_produces_note_dash_at_each_extra_beat() {
    let score = melody(vec!["1- 2-"]);
    let els = row_elements(&score, 0, 0);
    let dashes: Vec<u32> = els.iter().filter(|(_, n)| n == "dash").map(|(c, _)| *c).collect();
    assert_eq!(dashes, vec![4, 12]);
}

#[test]
fn note_head_column_is_zero_indexed() {
    let score = melody(vec!["1"]);
    let els = row_elements(&score, 0, 0);
    let head = els.iter().find(|(_, n)| n == "head").unwrap();
    assert_eq!(head.0, 0);
}

#[test]
fn cross_measure_tie_does_not_consume_lyric_slot_for_continuation_note() {
    let score = lyric_melody(vec!["1 2 3 (4", "4) 5 6 7"], vec!["ha ta ba na", "sa da ko"]);
    let els = row_elements(&score, 1, 0);
    let lyrics: Vec<(u32, String)> =
        els.into_iter().filter(|(_, n)| n.starts_with("lyric:")).map(|(c, n)| (c, n[6..].to_string())).collect();
    assert_eq!(lyrics, vec![(4, "sa".to_string()), (8, "da".to_string()), (12, "ko".to_string())]);
}

#[test]
fn same_measure_slur_emits_slur_span() {
    let score = melody(vec!["(4 5) 0 0"]);
    let result = compile(&score);
    assert!(has_span(&result.slur_spans, (0, 0), (0, 4)), "got: {:?}", result.slur_spans);
}

#[test]
fn cross_measure_slur_emits_single_slur_span() {
    let score = melody(vec!["1 2 3 (4", "5) 6 7 1"]);
    let result = compile(&score);
    assert!(has_span(&result.slur_spans, (0, 12), (1, 0)), "got: {:?}", result.slur_spans);
    assert!(result.slur_spans.iter().all(|s| s.from_column != 16 && s.to_column != 16));
}

#[test]
fn cross_measure_tie_emits_single_slur_span() {
    let score = melody(vec!["1 2 3 (4", "4) 5 6 7"]);
    let result = compile(&score);
    assert!(has_span(&result.slur_spans, (0, 12), (1, 0)), "got: {:?}", result.slur_spans);
    assert_eq!(result.slur_spans.len(), 1);
}

#[test]
fn cross_measure_slur_closing_on_extension_dash() {
    let score = melody(vec!["1 2 3 (4", "5 -) - -"]);
    let result = compile(&score);
    assert!(has_span(&result.slur_spans, (0, 12), (1, 4)), "got: {:?}", result.slur_spans);
    assert!(result.slur_spans.iter().all(|s| s.to_column != 16));
}

#[test]
fn three_measure_slur_emits_single_slur_span() {
    let score = melody(vec!["(1 2 3 4", "5 6 7 1", "2) 3 4 5"]);
    let result = compile(&score);
    assert!(has_span(&result.slur_spans, (0, 0), (2, 0)), "got: {:?}", result.slur_spans);
}

#[test]
fn three_measure_slur_with_single_note_middle_measure() {
    let score = melody(vec!["1 2 3 (4", "5 6 7 1", "2) 3 4 5"]);
    let result = compile(&score);
    assert!(has_span(&result.slur_spans, (0, 12), (2, 0)), "got: {:?}", result.slur_spans);
}

#[test]
fn sixteenths_get_a_second_underline_level() {
    let score = melody(vec!["1= 1= 1= 1= 2 3 4"]);
    let els = row_elements(&score, 0, 0);
    assert!(els.contains(&(0, "underline0".to_string())));
    assert!(els.contains(&(0, "underline1".to_string())));
}

#[test]
fn chord_symbol_text_is_rendered() {
    let score = group_ok(doc(vec![part("c", PartKind::Chord, vec!["1 - - -"])], vec![std_dirs()]));
    let els = row_elements(&score, 0, 0);
    assert_eq!(els[0], (0, "chord:1".to_string()));
    assert_eq!(els.last().unwrap(), &(16, "bar".to_string()));
}

#[test]
fn ditto_part_name_joins_row_above() {
    let mut alto = part("A", PartKind::Notes, vec!["1 2 3 4"]);
    alto.ditto = vec![true];
    let score = group_ok(doc(
        vec![part("S", PartKind::Notes, vec!["1 2 3 4"]), alto, part("T", PartKind::Notes, vec!["5 6 7 1"])],
        vec![std_dirs()],
    ));
    let result = compile(&score);
    assert_eq!(result.blocks[0].rows.len(), 2);
    assert_eq!(result.blocks[0].rows[0].label, "S, A");
    assert_eq!(result.blocks[0].rows[1].label, "T");
}
