use jianpu::selection_range::resolve_selection_range_response;
use jianpu::selection_range::types::{
    ClickableElementId, LyricCellOut, LyricSpanOut, NoteCellOut, NoteSpanOut,
    ResolveSelectionRangeResponse,
};

fn note_span(part: usize, note_id: usize, measure: usize) -> NoteSpanOut {
    NoteSpanOut { source_part_index: part, note_id, measure_index: measure, start: 0, end: 0 }
}

fn lyric_span(part: usize, note_id: usize, verse: usize, measure: usize) -> LyricSpanOut {
    LyricSpanOut { source_part_index: part, note_id, verse, measure_index: measure, start: 0, end: 0 }
}

fn note(part: usize, note_id: usize) -> ClickableElementId {
    ClickableElementId::Note { source_part_index: part, note_id }
}

fn lyric(part: usize, note_id: usize, verse: usize) -> ClickableElementId {
    ClickableElementId::Lyric { source_part_index: part, note_id, verse }
}

fn label(part: usize, verse: usize, start: usize, end: usize) -> ClickableElementId {
    ClickableElementId::LyricLabel {
        source_part_index: part,
        verse,
        measure_index_start: start,
        measure_index_end: end,
    }
}

fn note_cell(part: usize, note_id: usize) -> NoteCellOut {
    NoteCellOut { source_part_index: part, note_id }
}

fn lyric_cell(part: usize, note_id: usize, verse: usize) -> LyricCellOut {
    LyricCellOut { source_part_index: part, note_id, verse }
}

/// Part 0 has notes 0, 1, 2 in measures 0, 1, 2, each with a verse-0 syllable;
/// part 1 has note 3 in measure 1 and no lyrics.
fn fixture() -> (Vec<NoteSpanOut>, Vec<LyricSpanOut>) {
    (
        vec![note_span(0, 0, 0), note_span(0, 1, 1), note_span(0, 2, 2), note_span(1, 3, 1)],
        vec![lyric_span(0, 0, 0, 0), lyric_span(0, 1, 0, 1), lyric_span(0, 2, 0, 2)],
    )
}

fn assert_note_lyric_range(
    anchor: &ClickableElementId,
    current: &ClickableElementId,
    expected_note_cells: &[NoteCellOut],
    expected_lyric_cells: &[LyricCellOut],
) {
    let (note_spans, lyric_spans) = fixture();
    let response = resolve_selection_range_response(&note_spans, &lyric_spans, anchor, current);
    match response {
        ResolveSelectionRangeResponse::Resolved { note_cells, lyric_cells } => {
            assert_eq!(note_cells, expected_note_cells);
            assert_eq!(lyric_cells, expected_lyric_cells);
        }
        ResolveSelectionRangeResponse::Unresolved => panic!("expected Ok, got Err"),
    }
}

#[test]
fn same_part_note_lyric_range_note_anchor() {
    assert_note_lyric_range(
        &note(0, 0),
        &lyric(0, 2, 0),
        &[note_cell(0, 0), note_cell(0, 1), note_cell(0, 2)],
        &[lyric_cell(0, 0, 0), lyric_cell(0, 1, 0), lyric_cell(0, 2, 0)],
    );
}

#[test]
fn same_part_note_lyric_range_lyric_anchor() {
    assert_note_lyric_range(
        &lyric(0, 0, 0),
        &note(0, 2),
        &[note_cell(0, 0), note_cell(0, 1), note_cell(0, 2)],
        &[lyric_cell(0, 0, 0), lyric_cell(0, 1, 0), lyric_cell(0, 2, 0)],
    );
}

#[test]
fn same_part_note_lyric_range_uses_note_id_not_measure_index() {
    let note_spans = vec![note_span(0, 0, 0), note_span(0, 1, 1), note_span(0, 5, 1), note_span(0, 2, 2)];
    let mut lyric_spans = vec![lyric_span(0, 0, 0, 0), lyric_span(0, 1, 0, 1)];
    lyric_spans.push(lyric_span(0, 1, 1, 1));
    lyric_spans.push(lyric_span(0, 5, 0, 1));

    let anchor = note(0, 0);
    let current = lyric(0, 1, 0);
    let response = resolve_selection_range_response(&note_spans, &lyric_spans, &anchor, &current);

    match response {
        ResolveSelectionRangeResponse::Resolved { note_cells, lyric_cells } => {
            assert_eq!(note_cells, vec![note_cell(0, 0), note_cell(0, 1)]);
            assert_eq!(lyric_cells, vec![lyric_cell(0, 0, 0), lyric_cell(0, 1, 0)]);
        }
        ResolveSelectionRangeResponse::Unresolved => panic!("expected Ok, got Err"),
    }
}

#[test]
fn cross_part_note_lyric_range() {
    assert_note_lyric_range(
        &note(1, 3),
        &lyric(0, 0, 0),
        &[note_cell(0, 0), note_cell(0, 1), note_cell(1, 3)],
        &[lyric_cell(0, 0, 0), lyric_cell(0, 1, 0)],
    );
}

#[test]
fn cross_part_note_lyric_range_excludes_other_verses() {
    let (mut note_spans, mut lyric_spans) = fixture();
    note_spans.push(note_span(1, 4, 1));
    lyric_spans.push(lyric_span(1, 4, 1, 1));

    let anchor = note(1, 3);
    let current = lyric(0, 0, 0);
    let response = resolve_selection_range_response(&note_spans, &lyric_spans, &anchor, &current);

    match response {
        ResolveSelectionRangeResponse::Resolved { lyric_cells, .. } => {
            assert_eq!(lyric_cells, vec![lyric_cell(0, 0, 0), lyric_cell(0, 1, 0)]);
        }
        ResolveSelectionRangeResponse::Unresolved => panic!("expected Ok, got Err"),
    }
}

#[test]
fn cross_part_with_a_missing_endpoint_is_unresolved() {
    let (note_spans, lyric_spans) = fixture();
    let r = resolve_selection_range_response(&note_spans, &lyric_spans, &note(1, 9), &lyric(0, 0, 0));
    assert_eq!(r, ResolveSelectionRangeResponse::Unresolved);
    // A pair that no rule takes.
    let r = resolve_selection_range_response(&note_spans, &lyric_spans, &note(0, 0), &note(0, 1));
    assert_eq!(r, ResolveSelectionRangeResponse::Unresolved);
}

#[test]
fn lyric_label_ranges_select_lyrics_only() {
    let (note_spans, lyric_spans) = fixture();
    let r = resolve_selection_range_response(&note_spans, &lyric_spans, &label(0, 0, 1, 2), &label(0, 0, 0, 0));
    assert_eq!(
        r,
        ResolveSelectionRangeResponse::Resolved {
            note_cells: vec![],
            lyric_cells: vec![lyric_cell(0, 0, 0), lyric_cell(0, 1, 0), lyric_cell(0, 2, 0)],
        }
    );
    // Labels of different verses are not resolved.
    let r = resolve_selection_range_response(&note_spans, &lyric_spans, &label(0, 0, 1, 2), &label(0, 1, 0, 0));
    assert_eq!(r, ResolveSelectionRangeResponse::Unresolved);
    // A syllable and a label: the syllable's measure joins the label's span.
    let r = resolve_selection_range_response(&note_spans, &lyric_spans, &lyric(0, 2, 0), &label(0, 0, 1, 1));
    assert_eq!(
        r,
        ResolveSelectionRangeResponse::Resolved {
            note_cells: vec![],
            lyric_cells: vec![lyric_cell(0, 1, 0), lyric_cell(0, 2, 0)],
        }
    );
}

#[test]
fn lyric_lyric_ranges() {
    let note_spans = vec![];
    let lyric_spans = vec![
        lyric_span(0, 0, 0, 0),
        lyric_span(0, 1, 0, 0),
        lyric_span(0, 0, 1, 0),
        lyric_span(0, 1, 1, 0),
        lyric_span(0, 2, 1, 1),
        lyric_span(1, 7, 0, 1),
    ];
    let cells = |r: ResolveSelectionRangeResponse| match r {
        ResolveSelectionRangeResponse::Resolved { note_cells, lyric_cells } => {
            assert!(note_cells.is_empty());
            lyric_cells
        }
        ResolveSelectionRangeResponse::Unresolved => panic!("unresolved"),
    };
    // Same part, same verse: by note id.
    assert_eq!(
        cells(resolve_selection_range_response(&note_spans, &lyric_spans, &lyric(0, 1, 1), &lyric(0, 2, 1))),
        vec![lyric_cell(0, 1, 1), lyric_cell(0, 2, 1)]
    );
    // Same part, two verses: by note id and verse.
    assert_eq!(
        cells(resolve_selection_range_response(&note_spans, &lyric_spans, &lyric(0, 1, 0), &lyric(0, 0, 1))),
        vec![lyric_cell(0, 0, 0), lyric_cell(0, 1, 0), lyric_cell(0, 0, 1), lyric_cell(0, 1, 1)]
    );
    // Across parts: by part, verse and measure.
    assert_eq!(
        cells(resolve_selection_range_response(&note_spans, &lyric_spans, &lyric(1, 7, 0), &lyric(0, 0, 0))),
        vec![lyric_cell(0, 0, 0), lyric_cell(0, 1, 0), lyric_cell(1, 7, 0)]
    );
}
