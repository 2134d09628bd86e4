use jianpu::error::{Span, Spanned};
use jianpu::generator::ast::grouped::{GroupedNote, GroupedRest, Measure, NoteEvent, TimeSignature};
use jianpu::generator::ast::parsed::{
    Accidental, JianPuPitch, KeyChange, Note, NoteName, ParsedDocument, ParsedMetadata, ParsedNote,
    ParsedRest, ScoreEvent, Syllable,
};
use jianpu::generator::grouper::group;
use jianpu::generator::layout::measure_column_width;
use jianpu::generator::parser::metadata_parser::parse_metadata;
use jianpu::generator::parser::section_splitter::{split_sections, SectionKind};

// ---- metadata ----

#[test]
fn parses_title_and_author() {
    let content = "title = \"hello world\"\nauthor = \"foo\"\n";
    let meta = parse_metadata(content, 0).unwrap();
    assert_eq!(meta.title, "hello world");
    assert_eq!(meta.author, "foo");
    assert_eq!(meta.cell_size, None);
}

#[test]
fn parses_optional_cell_size() {
    let content = "title = \"t\"\nauthor = \"a\"\ncell_size = 16\n";
    let meta = parse_metadata(content, 0).unwrap();
    assert_eq!(meta.cell_size, Some(16));
}

#[test]
fn rejects_missing_title() {
    let content = "author = \"foo\"\n";
    assert!(parse_metadata(content, 0).is_err());
}

#[test]
fn rejects_missing_author() {
    let content = "title = \"foo\"\n";
    assert!(parse_metadata(content, 0).is_err());
}

#[test]
fn rejects_unknown_field() {
    let content = "title = \"t\"\nauthor = \"a\"\nfoo = \"bar\"\n";
    assert!(parse_metadata(content, 0).is_err());
}

#[test]
fn rejects_invalid_cell_size() {
    let content = "title = \"t\"\nauthor = \"a\"\ncell_size = abc\n";
    assert!(parse_metadata(content, 0).is_err());
}

#[test]
fn metadata_errors_name_the_line_and_its_span() {
    let content = "title = \"t\"\n\nfoo = \"bar\"\n";
    let e = parse_metadata(content, 100).err().unwrap();
    assert_eq!(e.message, "unknown metadata field: foo");
    // "title = \"t\"\n" is 12 bytes, the blank line 1: the third line starts at 113.
    assert_eq!((e.span.start, e.span.end), (113, 124));

    let e = parse_metadata("title\n", 5).err().unwrap();
    assert_eq!(e.message, "expected key = value, got: title");
    assert_eq!((e.span.start, e.span.end), (5, 10));
}

#[test]
fn missing_fields_are_reported_at_the_section_start() {
    let e = parse_metadata("author = a\n", 7).err().unwrap();
    assert_eq!(e.message, "missing required field: title");
    assert_eq!((e.span.start, e.span.end), (7, 7));
    let e = parse_metadata("title = a\n", 7).err().unwrap();
    assert_eq!(e.message, "missing required field: author");
}

#[test]
fn cell_size_must_be_positive() {
    let e = parse_metadata("title = t\nauthor = a\ncell_size = 0\n", 0).err().unwrap();
    assert_eq!(e.message, "cell_size must be greater than zero");
    let e = parse_metadata("title = t\nauthor = a\ncell_size = -3\n", 0).err().unwrap();
    assert_eq!(e.message, "cell_size must be a positive integer, got: -3");
    let e = parse_metadata("title = t\nauthor = a\ncell_size = 4294967296\n", 0).err().unwrap();
    assert_eq!(e.message, "cell_size must be a positive integer, got: 4294967296");
    let m = parse_metadata("title = t\nauthor = a\ncell_size = +4294967295\n", 0).unwrap();
    assert_eq!(m.cell_size, Some(4294967295));
}

#[test]
fn values_lose_whitespace_and_quotes_and_later_lines_win() {
    let content = "  title\t=  \"\"My \"Song\"\"  \r\nauthor=x\r\ntitle = \"Other\"";
    let m = parse_metadata(content, 0).unwrap();
    assert_eq!(m.title, "Other");
    assert_eq!(m.author, "x");
    let m = parse_metadata("title=\"\"My \"Song\"\"\nauthor=\u{3000}作者\u{3000}\n", 0).unwrap();
    assert_eq!(m.title, "My \"Song");
    assert_eq!(m.author, "作者");
}

// ---- sections ----

#[test]
fn splits_three_sections() {
    let input = r#"[metadata]
title = "hi"

[score]
1 2 3

[lyrics]
你好
"#;
    let sections = split_sections(input).unwrap();
    assert_eq!(sections.len(), 3);
    assert_eq!(sections[0].kind, SectionKind::Metadata);
    assert_eq!(sections[0].content.trim(), "title = \"hi\"");
    assert_eq!(sections[1].kind, SectionKind::Score);
    assert_eq!(sections[1].content.trim(), "1 2 3");
    assert_eq!(sections[2].kind, SectionKind::Lyrics);
    assert_eq!(sections[2].content.trim(), "你好");
}

#[test]
fn rejects_unknown_section() {
    let input = r#"[unknown]
foo
"#;
    assert!(split_sections(input).is_err());
}

#[test]
fn content_offset_points_past_header_line() {
    let input = r#"[metadata]
title = "hi"
"#;
    let sections = split_sections(input).unwrap();
    // "[metadata]\n" is 11 bytes
    assert_eq!(sections[0].content_offset, 11);
}

#[test]
fn handles_header_with_no_content() {
    let input = "[metadata]\ntitle = \"hi\"\n\n[score]\n";
    let sections = split_sections(input).unwrap();
    assert_eq!(sections.len(), 2);
    assert_eq!(sections[1].kind, SectionKind::Score);
    assert_eq!(sections[1].content.trim(), "");
}

#[test]
fn handles_consecutive_headers() {
    // [score] immediately after [metadata] with no content in between
    let input = "[metadata]\n[score]\n1 2 3\n[lyrics]\nfoo\n";
    let sections = split_sections(input).unwrap();
    assert_eq!(sections.len(), 3);
    assert_eq!(sections[0].kind, SectionKind::Metadata);
    assert_eq!(sections[0].content.trim(), "");
    assert_eq!(sections[1].kind, SectionKind::Score);
    assert_eq!(sections[1].content.trim(), "1 2 3");
}

#[test]
fn section_offsets_count_utf8_bytes_and_drop_text_before_the_first_header() {
    let input = "stray\n[lyrics]\n你好\n[score]\n1\n";
    let sections = split_sections(input).unwrap();
    assert_eq!(sections.len(), 2);
    assert_eq!(sections[0].content, "你好\n");
    assert_eq!(sections[0].content_offset, 15);
    // "你好\n" takes 7 bytes, "[score]\n" 8.
    assert_eq!(sections[1].content_offset, 30);
    assert_eq!(sections[1].content, "1\n");
}

#[test]
fn unknown_section_error_names_it() {
    let e = split_sections("[metadata]\nx\n[chords]\n").err().unwrap();
    assert_eq!(e.message, "unknown section: [chords]");
    assert_eq!((e.span.start, e.span.end), (13, 21));
    assert!(split_sections("[]\n").is_err());
    let s = split_sections("[\n]\n[score]").unwrap();
    assert_eq!(s.len(), 1);
    assert_eq!(s[0].content, "");
}

// ---- grouping ----

fn span() -> Span {
    Span::new(0, 0)
}

fn ev(value: ScoreEvent) -> Spanned<ScoreEvent> {
    Spanned::new(value, span())
}

fn pitch(d: u8) -> JianPuPitch {
    match d {
        1 => JianPuPitch::One,
        2 => JianPuPitch::Two,
        3 => JianPuPitch::Three,
        4 => JianPuPitch::Four,
        5 => JianPuPitch::Five,
        6 => JianPuPitch::Six,
        _ => JianPuPitch::Seven,
    }
}

fn note(d: u8, duration: u32) -> Spanned<ScoreEvent> {
    ev(ScoreEvent::Note(ParsedNote { pitch: pitch(d), octave: 0, duration, tie: false }))
}

fn four_four() -> Spanned<ScoreEvent> {
    ev(ScoreEvent::TimeSignatureChange { numerator: 4, denominator: 4 })
}

fn doc(events: Vec<Spanned<ScoreEvent>>, cell_size: Option<u32>) -> ParsedDocument {
    ParsedDocument {
        filename: "test.jianpu".to_string(),
        metadata: ParsedMetadata { title: "t".to_string(), author: "a".to_string(), cell_size },
        score_events: events,
        lyrics: vec![Syllable { text: "a".to_string(), held: false }],
    }
}

fn quarter_notes(digits: &[u8]) -> Vec<Spanned<ScoreEvent>> {
    let mut v = vec![four_four()];
    for d in digits {
        v.push(note(*d, 4));
    }
    v
}

#[test]
fn groups_four_four_into_single_measure() {
    let score = group(doc(quarter_notes(&[1, 2, 3, 4]), None)).unwrap();
    assert_eq!(score.measures.len(), 1);
    assert_eq!(score.measures[0].notes.len(), 4);
}

#[test]
fn splits_into_two_measures_at_bar_boundary() {
    let score = group(doc(quarter_notes(&[1, 2, 3, 4, 5, 6, 7, 1]), None)).unwrap();
    assert_eq!(score.measures.len(), 2);
}

#[test]
fn extension_adds_to_previous_note_duration() {
    let events = vec![
        four_four(),
        note(1, 4),
        ev(ScoreEvent::Extension),
        note(3, 4),
        note(4, 4),
    ];
    let score = group(doc(events, None)).unwrap();
    match &score.measures[0].notes[0] {
        NoteEvent::Note(n) => assert_eq!(n.duration, 8),
        _ => panic!("expected Note"),
    }
}

#[test]
fn default_bpm_is_120() {
    let score = group(doc(quarter_notes(&[1, 2, 3, 4]), None)).unwrap();
    assert_eq!(score.measures[0].bpm, 120);
}

#[test]
fn bpm_change_propagates_to_next_measure() {
    let mut events = quarter_notes(&[1, 2, 3, 4]);
    events.push(ev(ScoreEvent::BpmChange(90)));
    for d in [5u8, 6, 7, 1] {
        events.push(note(d, 4));
    }
    let score = group(doc(events, None)).unwrap();
    assert_eq!(score.measures[0].bpm, 120);
    assert_eq!(score.measures[1].bpm, 90);
}

#[test]
fn key_change_propagates() {
    let mut events = vec![four_four()];
    events.push(ev(ScoreEvent::KeyChange(KeyChange {
        note: Note { name: NoteName::G, octave: 4, accidental: Accidental::Natural },
    })));
    for d in [1u8, 2, 3, 4] {
        events.push(note(d, 4));
    }
    let score = group(doc(events, None)).unwrap();
    assert_eq!(score.measures[0].key.note.name, NoteName::G);
}

#[test]
fn cell_size_defaults_to_24() {
    let score = group(doc(quarter_notes(&[1, 2, 3, 4]), None)).unwrap();
    assert_eq!(score.metadata.cell_size, 24);
    let score = group(doc(quarter_notes(&[1]), Some(16))).unwrap();
    assert_eq!(score.metadata.cell_size, 16);
    assert_eq!(score.metadata.title, "t");
    assert_eq!(score.lyrics.len(), 1);
}

#[test]
fn half_beat_notes_accumulate_correctly() {
    let mut events = vec![four_four()];
    for d in [1u8, 2, 3, 4, 5, 6, 7, 1] {
        events.push(note(d, 2));
    }
    let score = group(doc(events, None)).unwrap();
    assert_eq!(score.measures.len(), 1);
}

#[test]
fn extension_without_note_is_an_error() {
    let events = vec![four_four(), Spanned::new(ScoreEvent::Extension, Span::new(4, 5))];
    let e = group(doc(events, None)).err().unwrap();
    assert_eq!(e.message, "extension `-` without a preceding note or rest");
    assert_eq!((e.span.start, e.span.end), (4, 5));
    // An extension right after a full measure closed has nothing to extend either.
    let mut events = quarter_notes(&[1, 2, 3, 4]);
    events.push(ev(ScoreEvent::Extension));
    assert!(group(doc(events, None)).is_err());
}

#[test]
fn time_signature_change_closes_a_partial_measure() {
    let events = vec![
        four_four(),
        note(1, 4),
        ev(ScoreEvent::Rest(ParsedRest { duration: 2 })),
        ev(ScoreEvent::TimeSignatureChange { numerator: 3, denominator: 4 }),
        note(2, 4),
        note(3, 4),
        note(4, 4),
        note(5, 4),
    ];
    let score = group(doc(events, None)).unwrap();
    assert_eq!(score.measures.len(), 3);
    assert_eq!(score.measures[0].notes.len(), 2);
    assert_eq!(score.measures[0].notes[1], NoteEvent::Rest(GroupedRest { duration: 2 }));
    assert_eq!(score.measures[0].time_signature, TimeSignature { numerator: 4, denominator: 4 });
    assert_eq!(score.measures[1].notes.len(), 3);
    assert_eq!(score.measures[1].time_signature, TimeSignature { numerator: 3, denominator: 4 });
    assert_eq!(score.measures[2].notes.len(), 1);
}

#[test]
fn grouping_keeps_every_beat_on_an_example() {
    // 3 + 4 + 4 (extension) + 2 + 4 quarter-beats in 2/4 (capacity 8).
    let events = vec![
        ev(ScoreEvent::TimeSignatureChange { numerator: 2, denominator: 4 }),
        note(1, 3),
        note(2, 4),
        ev(ScoreEvent::Extension),
        ev(ScoreEvent::Rest(ParsedRest { duration: 2 })),
        note(3, 4),
    ];
    let score = group(doc(events, None)).unwrap();
    let total: u32 = score.measures.iter().map(|m| m.notes.iter().map(|n| match n {
        NoteEvent::Note(g) => g.duration,
        NoteEvent::Rest(r) => r.duration,
    }).sum::<u32>()).sum();
    assert_eq!(total, 17);
    assert!(score.measures.iter().all(|m| !m.notes.is_empty()));
    assert_eq!(score.measures.len(), 2);
    assert_eq!(
        score.measures[0].notes[1],
        NoteEvent::Note(GroupedNote { pitch: JianPuPitch::Two, octave: 0, duration: 8, tie: false })
    );
}

#[test]
fn measure_width_counts_quarter_beats_and_the_bar_line() {
    let m = Measure {
        time_signature: TimeSignature { numerator: 4, denominator: 4 },
        bpm: 120,
        key: KeyChange { note: Note { name: NoteName::C, octave: 4, accidental: Accidental::Natural } },
        notes: vec![
            NoteEvent::Note(GroupedNote { pitch: JianPuPitch::One, octave: 0, duration: 4, tie: false }),
            NoteEvent::Rest(GroupedRest { duration: 2 }),
        ],
    };
    assert_eq!(measure_column_width(&m), 7);
}

#[test]
fn each_section_content_starts_right_after_its_header_in_bytes() {
    let input = "[metadata]\ntitle: 歌\nauthor: 人\n[score]\n1 2 3 4\n[lyrics]\n你 好\n";
    let sections = split_sections(input).unwrap();
    assert_eq!(sections.len(), 3);
    for (s, name) in sections.iter().zip(["[metadata]\n", "[score]\n", "[lyrics]\n"]) {
        let start = s.content_offset;
        assert!(input[..start].ends_with(name));
        assert_eq!(&input[start..start + s.content.len()], s.content);
    }
}

// ---- layout ----

use jianpu::generator::ast::grouped::Score as GeneratorScore;
use jianpu::generator::layout::layout;
use jianpu::generator::layout::types::{GridContent, GridElement};

const A4_WIDTH: f32 = 595.0;
const A4_HEIGHT: f32 = 842.0;

fn make_score(events: Vec<Spanned<ScoreEvent>>, lyrics: &[&str]) -> GeneratorScore {
    let mut d = doc(events, None);
    d.lyrics = lyrics.iter().map(|t| Syllable { text: t.to_string(), held: false }).collect();
    group(d).unwrap()
}

fn layout_a4(score: &GeneratorScore) -> Vec<jianpu::generator::layout::types::Page> {
    let cell = score.metadata.cell_size as f32;
    let columns_per_page = (A4_WIDTH / cell) as u32;
    let row_groups_per_page = ((A4_HEIGHT / cell) as u32) / 4;
    layout(score, columns_per_page, row_groups_per_page)
}

fn all_elements(pages: &[jianpu::generator::layout::types::Page]) -> Vec<&GridElement> {
    pages[0].row_groups.iter().flat_map(|rg| rg.elements.iter()).collect()
}

#[test]
fn produces_at_least_one_page() {
    let score = make_score(quarter_notes(&[1, 2, 3, 4]), &["a", "b", "c", "d"]);
    let pages = layout_a4(&score);
    assert!(!pages.is_empty());
}

#[test]
fn note_heads_are_present() {
    let score = make_score(quarter_notes(&[1, 2, 3, 4]), &["a", "b", "c", "d"]);
    let pages = layout_a4(&score);
    let heads = all_elements(&pages).into_iter().filter(|e| matches!(e.content, GridContent::NoteHead { .. })).count();
    assert_eq!(heads, 4);
}

#[test]
fn lyrics_are_present() {
    let score = make_score(quarter_notes(&[1, 2, 3, 4]), &["a", "b", "c", "d"]);
    let pages = layout_a4(&score);
    let lyrics = all_elements(&pages).into_iter().filter(|e| matches!(e.content, GridContent::Lyric { .. })).count();
    assert_eq!(lyrics, 4);
}

#[test]
fn half_beat_note_has_duration_underline() {
    let events = vec![four_four(), note(1, 2), note(2, 4), note(3, 4), note(4, 2)];
    let score = make_score(events, &["a", "b", "c", "d"]);
    let pages = layout_a4(&score);
    let underlines = all_elements(&pages)
        .into_iter()
        .filter(|e| matches!(e.content, GridContent::DurationUnderlines { count: 1 }))
        .count();
    assert_eq!(underlines, 2);
}

#[test]
fn a_measure_that_does_not_fit_starts_a_new_line_and_pages_fill_up() {
    // Two measures of 17 columns each (16 quarter-beats and a bar line) on lines of 20
    // columns, one line per page: each measure on a page of its own.
    let score = make_score(quarter_notes(&[1, 2, 3, 4, 5, 6, 7, 1]), &["你", "b"]);
    let pages = layout(&score, 20, 1);
    assert_eq!(pages.len(), 2);
    let first = &pages[0].row_groups[0].elements;
    let bar = first.iter().find(|e| matches!(e.content, GridContent::BarLine)).unwrap();
    assert_eq!((bar.position.column, bar.position.row), (16, 1));
    match &first.iter().find(|e| matches!(e.content, GridContent::Lyric { .. })).unwrap().content {
        GridContent::Lyric { text, is_cjk } => assert!(text == "你" && *is_cjk),
        _ => unreachable!(),
    }
    assert!(layout(&make_score(vec![four_four()], &[]), 20, 1)[0].row_groups.is_empty());
}

#[test]
fn a_leading_dangling_extension_is_reported_before_a_later_zero_denominator() {
    let events = vec![ev(ScoreEvent::Extension), ev(ScoreEvent::TimeSignatureChange { numerator: 4, denominator: 0 })];
    let e = group(doc(events, None)).err().unwrap();
    assert_eq!(e.message, "extension `-` without a preceding note or rest");
}

#[test]
fn a_single_very_long_note_is_grouped() {
    let score = group(doc(vec![note(1, u32::MAX - 10)], None)).unwrap();
    assert_eq!(score.measures.len(), 1);
    match score.measures[0].notes[0] {
        NoteEvent::Note(n) => assert_eq!(n.duration, u32::MAX - 10),
        _ => panic!("expected a note"),
    }
}
