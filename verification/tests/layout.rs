use jianpu::ast::grouped::{GroupedNote, GroupedRest, MultiPartMeasure, NoteEvent, Notes, PartRow, PartSlice, TimeSignature};
use jianpu::ast::parsed::{JianPuPitch, PartKind};
use jianpu::compiler::types::{ColumnElement, Decoration, ElementContent, MeasureBlock, MeasureRow, RowId};
use jianpu::compiler::BeamEntry;
use jianpu::compositor::types::{FontFamily, GlyphFontFamilies};
use jianpu::compositor::{has_directive, infer_row_height, is_cjk, system_row_height};
use jianpu::error::Span;
use jianpu::generator::ast::parsed::JianPuPitch as GenPitch;
use jianpu::generator::renderer::{escape_xml, pitch_to_digit};
use jianpu::grid_layout::click_targets::targets_on_page;
use jianpu::grid_layout::layout::has_any_decoration;
use jianpu::layout::layout_engine::{line_has_any_directive_labels, measure_ditto_pattern, measure_has_directive_labels};
use jianpu::layout::types::{GridContent, GridElement, UnderlineSpan};
use jianpu::layout::{
    compute_underline_levels, extend_note_chains, flush_beam_buffer, flush_chain, measure_beat_width,
    measure_column_width, part_row_height, SlurKey,
};

fn note(d: u32) -> NoteEvent {
    NoteEvent::Note(GroupedNote {
        pitch: JianPuPitch::One,
        octave: 0,
        duration: d,
        tie: false,
        group_membership: 0,
        group_continuation: 0,
        dotted: false,
        slur_group_close_at_duration: None,
    })
}

fn rest(d: u32) -> NoteEvent {
    NoteEvent::Rest(GroupedRest { duration: d, dotted: false, group_membership: 0, group_continuation: 0 })
}

fn slice(kind: PartKind, events: Vec<NoteEvent>) -> PartSlice {
    PartSlice { name: Some("S".to_string()), kind, notes: Notes { events }, lyrics: None }
}

fn measure(parts: Vec<PartRow>, bpm: Option<u32>) -> MultiPartMeasure {
    MultiPartMeasure {
        time_signature: None,
        bpm,
        key: None,
        label: None,
        parts,
        source_span: Span::new(0, 0),
    }
}

#[test]
fn part_heights_and_widths() {
    assert_eq!(part_row_height(&PartRow::Timed(slice(PartKind::Chord, vec![]))), 2);
    assert_eq!(part_row_height(&PartRow::Timed(slice(PartKind::Notes, vec![]))), 3);
    assert_eq!(part_row_height(&PartRow::Timed(slice(PartKind::NotesWithLyrics, vec![]))), 4);
    assert_eq!(part_row_height(&PartRow::Ditto(slice(PartKind::Notes, vec![]))), 0);
    assert_eq!(measure_beat_width(&slice(PartKind::Notes, vec![note(4), rest(2), note(1)])), 7);
    let m = measure(
        vec![
            PartRow::Timed(slice(PartKind::Notes, vec![note(4), note(4)])),
            PartRow::Timed(slice(PartKind::Notes, vec![note(4), note(4), note(4)])),
        ],
        None,
    );
    assert_eq!(measure_column_width(&m), 13);
    assert_eq!(measure_column_width(&measure(vec![], None)), 1);
}

#[test]
fn underline_levels_span_the_group_and_each_run_of_sixteenths() {
    let buf = vec![
        BeamEntry { column: 0, underline_count: 2, duration: 1 },
        BeamEntry { column: 1, underline_count: 2, duration: 1 },
        BeamEntry { column: 2, underline_count: 1, duration: 2 },
        BeamEntry { column: 4, underline_count: 2, duration: 1 },
    ];
    let levels = compute_underline_levels(&buf);
    assert_eq!(
        levels,
        vec![
            UnderlineSpan { from_column: 0, to_column: 5, last_head_column: 4 },
            UnderlineSpan { from_column: 0, to_column: 2, last_head_column: 1 },
            UnderlineSpan { from_column: 4, to_column: 5, last_head_column: 4 },
        ]
    );
    let mut buffer = buf.clone();
    let mut elements: Vec<GridElement> = Vec::new();
    flush_beam_buffer(&mut buffer, 10, &mut elements);
    assert!(buffer.is_empty());
    assert_eq!(elements.len(), 1);
    assert_eq!((elements[0].position.column, elements[0].position.row), (0, 12));
    match &elements[0].content {
        GridContent::DurationUnderlines { levels: l } => assert_eq!(l.len(), 3),
        _ => panic!("expected underlines"),
    }
    flush_beam_buffer(&mut buffer, 10, &mut elements);
    assert_eq!(elements.len(), 1);
}

fn arcs(elements: &[GridElement]) -> Vec<(u32, u32)> {
    elements
        .iter()
        .map(|e| match e.content {
            GridContent::TieOrSlurCurve { from_column, to_column } => (from_column, to_column),
            _ => panic!("expected an arc"),
        })
        .collect()
}

#[test]
fn chains_make_a_slur_on_a_key_change_and_ties_between_equal_keys() {
    let c = SlurKey::Pitch(JianPuPitch::One);
    let d = SlurKey::Pitch(JianPuPitch::Two);
    let mut elements = Vec::new();
    flush_chain(&[(0, c), (4, c), (8, d)], 1, &mut elements);
    assert_eq!(arcs(&elements), vec![(0, 8), (0, 4)]);
    let mut elements = Vec::new();
    flush_chain(&[(0, c), (4, c)], 1, &mut elements);
    assert_eq!(arcs(&elements), vec![(0, 4)]);
    let mut elements = Vec::new();
    flush_chain(&[(0, c)], 1, &mut elements);
    assert!(elements.is_empty());

    // A group of depth 1 opened at column 0 and closed at column 4.
    let mut chains: Vec<Vec<(u32, SlurKey)>> = Vec::new();
    let mut elements = Vec::new();
    extend_note_chains(&mut chains, 1, 1, 0, 0, &c, &mut elements);
    assert_eq!(chains, vec![vec![(0, c)]]);
    extend_note_chains(&mut chains, 1, 0, 0, 4, &d, &mut elements);
    assert_eq!(chains, vec![Vec::<(u32, SlurKey)>::new()]);
    assert_eq!(arcs(&elements), vec![(0, 4)]);
}

#[test]
fn directive_labels_and_ditto_patterns() {
    let notes = || PartRow::Timed(slice(PartKind::Notes, vec![note(4), note(4)]));
    let ditto = || PartRow::Ditto(slice(PartKind::Notes, vec![note(8)]));
    let plain = measure(vec![notes(), ditto()], None);
    let with_bpm = measure(vec![notes(), ditto()], Some(90));
    assert!(!measure_has_directive_labels(&plain));
    assert!(measure_has_directive_labels(&with_bpm));
    let mut with_ts = measure(vec![notes()], None);
    with_ts.time_signature = Some(TimeSignature { numerator: 3, denominator: 4 });
    assert!(measure_has_directive_labels(&with_ts));
    assert_eq!(measure_ditto_pattern(&plain), vec![false, true]);

    // Widths are 9 columns each.
    let line = vec![measure(vec![notes(), ditto()], None), measure(vec![notes(), ditto()], Some(90))];
    assert!(line_has_any_directive_labels(&line, 0, 20, 0));
    assert!(!line_has_any_directive_labels(&line, 0, 8, 0));
    assert!(!line_has_any_directive_labels(&line, 5, 20, 0));
    let other = vec![measure(vec![notes(), ditto()], None), measure(vec![notes(), notes()], Some(90))];
    assert!(!line_has_any_directive_labels(&other, 0, 40, 0));
}

fn row(elements: Vec<ElementContent>) -> MeasureRow {
    MeasureRow {
        id: RowId("S".to_string()),
        label: "S".to_string(),
        elements: elements.into_iter().enumerate().map(|(i, content)| ColumnElement { column: i as u32, content }).collect(),
    }
}

#[test]
fn compositor_row_heights_and_directives() {
    let head = || ElementContent::NoteHead { pitch: JianPuPitch::One, octave: 0, dotted: false };
    assert_eq!(infer_row_height(&row(vec![head(), ElementContent::Lyric("a".to_string())])), 4);
    assert_eq!(infer_row_height(&row(vec![ElementContent::ChordSymbol("C".to_string())])), 2);
    assert_eq!(infer_row_height(&row(vec![ElementContent::Rest { dotted: false }])), 3);
    let block = MeasureBlock {
        rows: vec![row(vec![head()]), row(vec![ElementContent::Lyric("a".to_string())])],
        decorations: vec![Decoration::SectionLabel("A".to_string())],
    };
    assert_eq!(system_row_height(&block), 7);
    assert!(!has_directive(&block));
    assert!(has_any_decoration(&block));
    let tempo = MeasureBlock { rows: vec![], decorations: vec![Decoration::Bpm(80)] };
    assert!(has_directive(&tempo));
    assert!(!has_any_decoration(&MeasureBlock { rows: vec![], decorations: vec![] }));
    assert!(is_cjk("la 你"));
    assert!(!is_cjk("la"));
}

#[test]
fn glyph_fonts_default_to_monospace() {
    let g = GlyphFontFamilies::default();
    assert_eq!(g.notes, FontFamily::Monospace);
    assert_eq!(g.chords, FontFamily::Monospace);
    assert_eq!(g.note_dash, FontFamily::Monospace);
    assert_eq!(FontFamily::default(), FontFamily::SansSerif);
}

#[test]
fn renderer_digits_and_xml_escapes() {
    assert_eq!(pitch_to_digit(&GenPitch::Five), '5');
    assert_eq!(escape_xml("a<b & \"c\">"), "a&lt;b &amp; &quot;c&quot;&gt;");
    assert_eq!(escape_xml("&amp;"), "&amp;amp;");
}

#[test]
fn targets_are_picked_by_page() {
    let targets = vec![(0usize, "a".to_string()), (1, "b".to_string()), (0, "c".to_string())];
    assert_eq!(targets_on_page(&targets, 0), vec!["a".to_string(), "c".to_string()]);
    assert!(targets_on_page(&targets, 2).is_empty());
}

#[test]
fn bar_number_variant_exists() {
    let c = GridContent::BarNumber { number: 5 };
    match c {
        GridContent::BarNumber { number } => assert_eq!(number, 5),
        _ => panic!("unexpected variant"),
    }
}
