use jianpu::lyric_spans::{group_selected_lyrics_into_contiguous_runs, LyricCell, LyricSelectionRun, LyricSourceSpan};
use jianpu::note_spans::{group_selected_notes_into_contiguous_runs, NoteCell, NoteSelectionRun, NoteSourceSpan};

fn ns(part: usize, id: usize, measure: usize, range: Option<(usize, usize)>) -> NoteSourceSpan {
    NoteSourceSpan {
        source_part_index: part,
        note_id: id,
        measure_index: measure,
        start: range.map(|r| r.0),
        end: range.map(|r| r.1),
    }
}

fn nc(part: usize, id: usize) -> NoteCell {
    NoteCell { source_part_index: part, note_id: id }
}

fn nrun(part: usize, measure: usize, start: usize, end: usize) -> NoteSelectionRun {
    NoteSelectionRun { source_part_index: part, measure_index: measure, start_byte: start, end_byte: end }
}

#[test]
fn selected_notes_merge_per_part_and_measure_in_order() {
    let spans = vec![
        ns(1, 0, 0, Some((50, 51))),
        ns(0, 0, 0, Some((10, 11))),
        ns(0, 1, 0, Some((12, 13))),
        ns(0, 2, 1, Some((20, 21))),
        ns(0, 3, 1, None),
        ns(0, 4, 1, Some((24, 25))),
        ns(1, 1, 0, Some((40, 42))),
    ];
    let cells = [nc(0, 1), nc(0, 0), nc(0, 4), nc(0, 3), nc(1, 0), nc(1, 1)];
    let runs = group_selected_notes_into_contiguous_runs(&cells, &spans);
    assert_eq!(runs, vec![nrun(0, 0, 10, 13), nrun(0, 1, 24, 25), nrun(1, 0, 40, 51)]);
}

#[test]
fn unselected_or_unmapped_notes_make_no_run() {
    let spans = vec![ns(0, 0, 0, None), ns(0, 1, 0, Some((3, 4)))];
    assert!(group_selected_notes_into_contiguous_runs(&[nc(0, 0)], &spans).is_empty());
    assert!(group_selected_notes_into_contiguous_runs(&[], &spans).is_empty());
    assert_eq!(group_selected_notes_into_contiguous_runs(&[nc(0, 1)], &spans), vec![nrun(0, 0, 3, 4)]);
}

fn ls(part: usize, id: usize, verse: usize, measure: usize, start: usize, end: usize) -> LyricSourceSpan {
    LyricSourceSpan { source_part_index: part, note_id: id, verse, measure_index: measure, start, end }
}

fn lc(part: usize, id: usize, verse: usize) -> LyricCell {
    LyricCell { source_part_index: part, note_id: id, verse }
}

fn lrun(part: usize, measure: usize, start: usize, end: usize) -> LyricSelectionRun {
    LyricSelectionRun { source_part_index: part, measure_index: measure, start_byte: start, end_byte: end }
}

#[test]
fn selected_lyrics_keep_verses_apart() {
    let spans = vec![
        ls(0, 0, 0, 0, 100, 101),
        ls(0, 1, 0, 0, 102, 103),
        ls(0, 0, 1, 0, 30, 31),
        ls(0, 1, 1, 0, 32, 34),
        ls(0, 2, 0, 1, 104, 105),
        ls(1, 0, 0, 0, 5, 6),
    ];
    let cells = [lc(0, 0, 0), lc(0, 1, 0), lc(0, 1, 1), lc(0, 0, 1), lc(0, 2, 0), lc(1, 0, 0)];
    let runs = group_selected_lyrics_into_contiguous_runs(&cells, &spans);
    // Part 0 measure 0: verse 1 (30..34) comes before verse 0 (100..103) by start byte.
    assert_eq!(
        runs,
        vec![lrun(0, 0, 30, 34), lrun(0, 0, 100, 103), lrun(0, 1, 104, 105), lrun(1, 0, 5, 6)]
    );
}

#[test]
fn lyric_runs_need_a_selected_cell_of_the_same_verse() {
    let spans = vec![ls(0, 0, 0, 0, 1, 2), ls(0, 0, 1, 0, 3, 4)];
    let runs = group_selected_lyrics_into_contiguous_runs(&[lc(0, 0, 1)], &spans);
    assert_eq!(runs, vec![lrun(0, 0, 3, 4)]);
    assert!(group_selected_lyrics_into_contiguous_runs(&[lc(0, 0, 2)], &spans).is_empty());
}
