use vstd::prelude::*;

verus! {

/// Source byte range of one sounded event (note/chord/percussion hit) or rest, keyed by
/// the part it belongs to and the id its note carries in the compiled score.
#[derive(Debug, Clone, Copy, PartialEq, Eq, Structural)]
pub struct NoteSourceSpan {
    /// Index into `MultiPartMeasure::parts` for this event's part.
    pub source_part_index: usize,
    /// The note id; a tie continuation shares the id of the note it continues.
    pub note_id: usize,
    /// Index into `Score.measures`.
    pub measure_index: usize,
    /// Inclusive start byte of this event's token in the source text.
    pub start: Option<usize>,
    /// Exclusive end byte of this event's token in the source text.
    pub end: Option<usize>,
}

/// The source byte span of every note/chord/percussion/rest event, in score order.
pub struct NoteSpansResult {
    pub spans: Vec<NoteSourceSpan>,
}

/// One selected `(source_part_index, note_id)` cell.
#[derive(Debug, Clone, Copy, PartialEq, Eq, Hash, Structural)]
pub struct NoteCell {
    pub source_part_index: usize,
    pub note_id: usize,
}

/// One contiguous selected byte range within a single part's single measure.
#[derive(Debug, Clone, Copy, PartialEq, Eq, Structural)]
pub struct NoteSelectionRun {
    pub source_part_index: usize,
    pub measure_index: usize,
    pub start_byte: usize,
    pub end_byte: usize,
}

/// The cell that a span belongs to.
pub open spec fn cell_of(s: NoteSourceSpan) -> NoteCell {
    NoteCell { source_part_index: s.source_part_index, note_id: s.note_id }
}

/// A span takes part in the selection: its cell is selected and it has a byte range.
pub open spec fn selected_span(cells: Seq<NoteCell>, s: NoteSourceSpan) -> bool {
    &&& cells.contains(cell_of(s))
    &&& s.start is Some
    &&& s.end is Some
}

/// The byte range that the selected spans among the first `n`, in part `part` and
/// measure `measure`, cover together: the least start and the greatest end.
pub open spec fn selected_range(
    cells: Seq<NoteCell>,
    spans: Seq<NoteSourceSpan>,
    part: usize,
    measure: usize,
    n: int,
) -> Option<(usize, usize)>
    decreases n,
{
    if n <= 0 {
        None
    } else {
        let prev = selected_range(cells, spans, part, measure, n - 1);
        let s = spans[n - 1];
        if selected_span(cells, s) && s.source_part_index == part && s.measure_index == measure {
            let (a, b) = (s.start->0, s.end->0);
            match prev {
                None => Some((a, b)),
                Some((x, y)) => Some(
                    (if a < x { a } else { x }, if b > y { b } else { y }),
                ),
            }
        } else {
            prev
        }
    }
}

/// Runs ordered by part, then measure.
pub open spec fn run_before(a: NoteSelectionRun, b: NoteSelectionRun) -> bool {
    a.source_part_index < b.source_part_index || (a.source_part_index == b.source_part_index
        && a.measure_index < b.measure_index)
}

/// `runs` is the selection that the first `n` spans make: one run per (part, measure)
/// that holds a selected span, covering the byte ranges of its selected spans, the runs
/// ordered by part, then measure.
pub open spec fn note_selection(
    runs: Seq<NoteSelectionRun>,
    cells: Seq<NoteCell>,
    spans: Seq<NoteSourceSpan>,
    n: int,
) -> bool {
    &&& forall|i: int, j: int| 0 <= i < j < runs.len() ==> run_before(runs[i], runs[j])
    &&& forall|i: int|
        0 <= i < runs.len() ==> selected_range(
            cells,
            spans,
            (#[trigger] runs[i]).source_part_index,
            runs[i].measure_index,
            n,
        ) == Some((runs[i].start_byte, runs[i].end_byte))
    &&& forall|j: int|
        0 <= j < n && selected_span(cells, #[trigger] spans[j]) ==> exists|i: int|
            0 <= i < runs.len() && (#[trigger] runs[i]).source_part_index
                == spans[j].source_part_index && runs[i].measure_index == spans[j].measure_index
}

proof fn lemma_range_has_witness(
    cells: Seq<NoteCell>,
    spans: Seq<NoteSourceSpan>,
    part: usize,
    measure: usize,
    n: int,
)
    requires
        0 <= n <= spans.len(),
        selected_range(cells, spans, part, measure, n) is Some,
    ensures
        exists|j: int|
            0 <= j < n && selected_span(cells, #[trigger] spans[j]) && spans[j].source_part_index
                == part && spans[j].measure_index == measure,
    decreases n,
{
    let s = spans[n - 1];
    if !(selected_span(cells, s) && s.source_part_index == part && s.measure_index == measure) {
        lemma_range_has_witness(cells, spans, part, measure, n - 1);
    }
}

proof fn lemma_range_covers(
    cells: Seq<NoteCell>,
    spans: Seq<NoteSourceSpan>,
    part: usize,
    measure: usize,
    n: int,
    j: int,
)
    requires
        0 <= j < n <= spans.len(),
        selected_span(cells, spans[j]),
        spans[j].source_part_index == part,
        spans[j].measure_index == measure,
    ensures
        selected_range(cells, spans, part, measure, n) matches Some((a, b)) && a <= spans[j].start->0
            && spans[j].end->0 <= b,
    decreases n,
{
    if j < n - 1 {
        lemma_range_covers(cells, spans, part, measure, n - 1, j);
    }
}

/// Each selected span lies within the run of its part and measure: the run starts at
/// or before it and ends at or after it.
pub proof fn selected_notes_lie_within_their_run(
    runs: Seq<NoteSelectionRun>,
    cells: Seq<NoteCell>,
    spans: Seq<NoteSourceSpan>,
    j: int,
)
    requires
        note_selection(runs, cells, spans, spans.len() as int),
        0 <= j < spans.len(),
        selected_span(cells, spans[j]),
    ensures
        exists|i: int|
            0 <= i < runs.len() && (#[trigger] runs[i]).source_part_index == spans[j].source_part_index
                && runs[i].measure_index == spans[j].measure_index && runs[i].start_byte
                <= spans[j].start->0 && spans[j].end->0 <= runs[i].end_byte,
{
    let i = choose|i: int|
        0 <= i < runs.len() && (#[trigger] runs[i]).source_part_index == spans[j].source_part_index
            && runs[i].measure_index == spans[j].measure_index;
    lemma_range_covers(cells, spans, spans[j].source_part_index, spans[j].measure_index, spans.len() as int, j);
    assert(selected_range(cells, spans, runs[i].source_part_index, runs[i].measure_index, spans.len() as int)
        == Some((runs[i].start_byte, runs[i].end_byte)));
}

fn contains_cell(cells: &[NoteCell], c: NoteCell) -> (b: bool)
    ensures
        b == cells@.contains(c),
{
    let mut i: usize = 0;
    while i < cells.len()
        invariant
            i <= cells@.len(),
            forall|k: int| 0 <= k < i ==> cells@[k] != c,
        decreases cells@.len() - i,
    {
        if cells[i] == c {
            return true;
        }
        i += 1;
    }
    false
}

/// Groups a range-selected set of `(source_part_index, note_id)` cells into contiguous
/// per-`(part, measure)` source byte runs: each run spans from the least start to the
/// greatest end of its selected spans; a span without a byte range is skipped. Output
/// is sorted by `(source_part_index, measure_index)`.
pub fn group_selected_notes_into_contiguous_runs(
    selected_cells: &[NoteCell],
    note_spans: &[NoteSourceSpan],
) -> (runs: Vec<NoteSelectionRun>)
    ensures
        note_selection(runs@, selected_cells@, note_spans@, note_spans@.len() as int),
{
    let ghost cells = selected_cells@;
    let ghost spans = note_spans@;
    let mut runs: Vec<NoteSelectionRun> = Vec::new();
    let mut n: usize = 0;
    while n < note_spans.len()
        invariant
            n <= spans.len(),
            cells == selected_cells@,
            spans == note_spans@,
            note_selection(runs@, cells, spans, n as int),
        decreases spans.len() - n,
    {
        let span = note_spans[n];
        let part = span.source_part_index;
        let measure = span.measure_index;
        let ghost old_runs = runs@;
        assert(spans[n as int] == span);
        let chosen = contains_cell(selected_cells, NoteCell { source_part_index: part, note_id: span.note_id });
        if chosen && span.start.is_some() && span.end.is_some() {
            let start = span.start.unwrap();
            let end = span.end.unwrap();
            let mut p: usize = 0;
            while p < runs.len() && (runs[p].source_part_index < part || (runs[p].source_part_index
                == part && runs[p].measure_index < measure))
                invariant
                    p <= runs@.len(),
                    runs@ == old_runs,
                    forall|k: int|
                        0 <= k < p ==> (#[trigger] runs@[k]).source_part_index < part || (
                        runs@[k].source_part_index == part && runs@[k].measure_index < measure),
                decreases runs@.len() - p,
            {
                p += 1;
            }
            if p < runs.len() && runs[p].source_part_index == part && runs[p].measure_index == measure {
                let r = runs[p];
                let merged = NoteSelectionRun {
                    source_part_index: part,
                    measure_index: measure,
                    start_byte: if start < r.start_byte { start } else { r.start_byte },
                    end_byte: if end > r.end_byte { end } else { r.end_byte },
                };
                runs.set(p, merged);
                proof {
                    assert forall|i: int, k: int|
                        0 <= i < k < runs@.len() implies run_before(runs@[i], runs@[k]) by {
                        assert(run_before(old_runs[i], old_runs[k]));
                    }
                    assert(selected_range(cells, spans, part, measure, n as int) == Some(
                        (r.start_byte, r.end_byte),
                    ));
                    assert forall|i: int|
                        0 <= i < runs@.len() implies selected_range(
                        cells,
                        spans,
                        (#[trigger] runs@[i]).source_part_index,
                        runs@[i].measure_index,
                        n + 1,
                    ) == Some((runs@[i].start_byte, runs@[i].end_byte)) by {
                        assert(spans[n as int] == span);
                        assert(selected_range(
                            cells,
                            spans,
                            old_runs[i].source_part_index,
                            old_runs[i].measure_index,
                            n as int,
                        ) == Some((old_runs[i].start_byte, old_runs[i].end_byte)));
                        if i < p {
                            assert(run_before(old_runs[i], old_runs[p as int]));
                        } else if i > p {
                            assert(run_before(old_runs[p as int], old_runs[i]));
                        }
                    }
                    assert forall|j: int|
                        0 <= j < n + 1 && selected_span(cells, #[trigger] spans[j]) implies exists|i: int|
                        0 <= i < runs@.len() && (#[trigger] runs@[i]).source_part_index
                            == spans[j].source_part_index && runs@[i].measure_index
                            == spans[j].measure_index by {
                        if j < n {
                            let i = choose|i: int|
                                0 <= i < old_runs.len() && (#[trigger] old_runs[i]).source_part_index
                                    == spans[j].source_part_index && old_runs[i].measure_index
                                    == spans[j].measure_index;
                            assert(runs@[i].source_part_index == old_runs[i].source_part_index);
                        } else {
                            assert(runs@[p as int].source_part_index == part);
                        }
                    }
                }
            } else {
                let fresh = NoteSelectionRun {
                    source_part_index: part,
                    measure_index: measure,
                    start_byte: start,
                    end_byte: end,
                };
                proof {
                    if selected_range(cells, spans, part, measure, n as int) is Some {
                        lemma_range_has_witness(cells, spans, part, measure, n as int);
                        let j = choose|j: int|
                            0 <= j < n && selected_span(cells, #[trigger] spans[j])
                                && spans[j].source_part_index == part && spans[j].measure_index
                                == measure;
                        let i = choose|i: int|
                            0 <= i < old_runs.len() && (#[trigger] old_runs[i]).source_part_index
                                == spans[j].source_part_index && old_runs[i].measure_index
                                == spans[j].measure_index;
                        if i < p {
                            assert(run_before(old_runs[i], fresh));
                        } else if i > p {
                            assert(run_before(old_runs[p as int], old_runs[i]));
                        }
                    }
                }
                runs.insert(p, fresh);
                proof {
                    assert forall|i: int, k: int|
                        0 <= i < k < runs@.len() implies run_before(runs@[i], runs@[k]) by {
                        if k < p {
                        } else if k == p {
                        } else if i < p {
                            if p < old_runs.len() {
                                assert(run_before(fresh, old_runs[p as int]));
                            }
                            assert(runs@[k] == old_runs[k - 1]);
                        } else if i == p {
                            assert(runs@[k] == old_runs[k - 1]);
                            if k - 1 > p {
                                assert(run_before(old_runs[p as int], old_runs[k - 1]));
                            }
                        } else {
                            assert(runs@[i] == old_runs[i - 1]);
                            assert(runs@[k] == old_runs[k - 1]);
                        }
                    }
                    assert forall|i: int|
                        0 <= i < runs@.len() implies selected_range(
                        cells,
                        spans,
                        (#[trigger] runs@[i]).source_part_index,
                        runs@[i].measure_index,
                        n + 1,
                    ) == Some((runs@[i].start_byte, runs@[i].end_byte)) by {
                        if i < p {
                            assert(runs@[i] == old_runs[i]);
                            assert(selected_range(
                                cells,
                                spans,
                                old_runs[i].source_part_index,
                                old_runs[i].measure_index,
                                n as int,
                            ) == Some((old_runs[i].start_byte, old_runs[i].end_byte)));
                        } else if i > p {
                            assert(runs@[i] == old_runs[i - 1]);
                            assert(selected_range(
                                cells,
                                spans,
                                old_runs[i - 1].source_part_index,
                                old_runs[i - 1].measure_index,
                                n as int,
                            ) == Some((old_runs[i - 1].start_byte, old_runs[i - 1].end_byte)));
                            if p < old_runs.len() {
                                assert(run_before(fresh, old_runs[p as int]));
                                if i - 1 > p {
                                    assert(run_before(old_runs[p as int], old_runs[i - 1]));
                                }
                            }
                        }
                    }
                    assert forall|j: int|
                        0 <= j < n + 1 && selected_span(cells, #[trigger] spans[j]) implies exists|i: int|
                        0 <= i < runs@.len() && (#[trigger] runs@[i]).source_part_index
                            == spans[j].source_part_index && runs@[i].measure_index
                            == spans[j].measure_index by {
                        if j < n {
                            let i = choose|i: int|
                                0 <= i < old_runs.len() && (#[trigger] old_runs[i]).source_part_index
                                    == spans[j].source_part_index && old_runs[i].measure_index
                                    == spans[j].measure_index;
                            if i < p {
                                assert(runs@[i] == old_runs[i]);
                            } else {
                                assert(runs@[i + 1] == old_runs[i]);
                            }
                        } else {
                            assert(runs@[p as int] == fresh);
                        }
                    }
                }
            }
        } else {
            proof {
                assert(!selected_span(cells, spans[n as int]));
                assert forall|i: int|
                    0 <= i < runs@.len() implies selected_range(
                    cells,
                    spans,
                    (#[trigger] runs@[i]).source_part_index,
                    runs@[i].measure_index,
                    n + 1,
                ) == Some((runs@[i].start_byte, runs@[i].end_byte)) by {}
                assert forall|j: int|
                    0 <= j < n + 1 && selected_span(cells, #[trigger] spans[j]) implies exists|i: int|
                    0 <= i < runs@.len() && (#[trigger] runs@[i]).source_part_index
                        == spans[j].source_part_index && runs@[i].measure_index
                        == spans[j].measure_index by {
                    assert(j < n);
                }
            }
        }
        n += 1;
    }
    runs
}

} // verus!
