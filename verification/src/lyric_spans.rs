use vstd::prelude::*;

verus! {

/// Source byte range of one lyric syllable, keyed by its part, the id of the note it
/// is sung on, and its verse.
#[derive(Debug, Clone, Copy, PartialEq, Eq, Structural)]
pub struct LyricSourceSpan {
    /// Index into `MultiPartMeasure::parts` for this syllable's part.
    pub source_part_index: usize,
    /// The id of the syllable's underlying note.
    pub note_id: usize,
    /// 0-indexed verse this syllable belongs to.
    pub verse: usize,
    /// Index into `Score.measures`.
    pub measure_index: usize,
    /// Inclusive start byte of this syllable's own token in the source text.
    pub start: usize,
    /// Exclusive end byte of this syllable's own token in the source text.
    pub end: usize,
}

/// The source byte span of every lyric syllable, in score order.
pub struct LyricSpansResult {
    pub spans: Vec<LyricSourceSpan>,
}

/// One selected `(source_part_index, note_id, verse)` cell.
#[derive(Debug, Clone, Copy, PartialEq, Eq, Hash, Structural)]
pub struct LyricCell {
    pub source_part_index: usize,
    pub note_id: usize,
    pub verse: usize,
}

/// One contiguous selected byte range within a single verse line of a single part's
/// single measure.
#[derive(Debug, Clone, Copy, PartialEq, Eq, Structural)]
pub struct LyricSelectionRun {
    pub source_part_index: usize,
    pub measure_index: usize,
    pub start_byte: usize,
    pub end_byte: usize,
}

/// The cell that a syllable belongs to.
pub open spec fn lyric_cell_of(s: LyricSourceSpan) -> LyricCell {
    LyricCell { source_part_index: s.source_part_index, note_id: s.note_id, verse: s.verse }
}

/// The byte range that the selected syllables among the first `n` in one part, verse
/// and measure cover together: the least start and the greatest end.
pub open spec fn lyric_range(
    cells: Seq<LyricCell>,
    spans: Seq<LyricSourceSpan>,
    part: usize,
    verse: usize,
    measure: usize,
    n: int,
) -> Option<(usize, usize)>
    decreases n,
{
    if n <= 0 {
        None
    } else {
        let prev = lyric_range(cells, spans, part, verse, measure, n - 1);
        let s = spans[n - 1];
        if cells.contains(lyric_cell_of(s)) && s.source_part_index == part && s.verse == verse
            && s.measure_index == measure {
            match prev {
                None => Some((s.start, s.end)),
                Some((x, y)) => Some(
                    (if s.start < x { s.start } else { x }, if s.end > y { s.end } else { y }),
                ),
            }
        } else {
            prev
        }
    }
}

/// Runs ordered by part, then verse, then measure.
pub open spec fn key_before(va: usize, a: LyricSelectionRun, vb: usize, b: LyricSelectionRun) -> bool {
    ||| a.source_part_index < b.source_part_index
    ||| (a.source_part_index == b.source_part_index && va < vb)
    ||| (a.source_part_index == b.source_part_index && va == vb && a.measure_index < b.measure_index)
}

/// Runs ordered by part, then measure, then start byte, then verse.
pub open spec fn run_before(va: usize, a: LyricSelectionRun, vb: usize, b: LyricSelectionRun) -> bool {
    ||| a.source_part_index < b.source_part_index
    ||| (a.source_part_index == b.source_part_index && a.measure_index < b.measure_index)
    ||| (a.source_part_index == b.source_part_index && a.measure_index == b.measure_index
        && a.start_byte < b.start_byte)
    ||| (a.source_part_index == b.source_part_index && a.measure_index == b.measure_index
        && a.start_byte == b.start_byte && va < vb)
}

/// Each run, with the verse in `verses` at its position, covers the byte range of its
/// selected syllables among the first `n`.
pub open spec fn runs_cover(
    runs: Seq<LyricSelectionRun>,
    verses: Seq<usize>,
    cells: Seq<LyricCell>,
    spans: Seq<LyricSourceSpan>,
    n: int,
) -> bool {
    &&& verses.len() == runs.len()
    &&& forall|i: int|
        0 <= i < runs.len() ==> lyric_range(
            cells,
            spans,
            (#[trigger] runs[i]).source_part_index,
            verses[i],
            runs[i].measure_index,
            n,
        ) == Some((runs[i].start_byte, runs[i].end_byte))
    &&& forall|j: int|
        0 <= j < n && cells.contains(lyric_cell_of(#[trigger] spans[j])) ==> exists|i: int|
            0 <= i < runs.len() && (#[trigger] runs[i]).source_part_index
                == spans[j].source_part_index && verses[i] == spans[j].verse
                && runs[i].measure_index == spans[j].measure_index
}

/// `runs` is the selection that the first `n` syllables make: one run per (part, verse,
/// measure) that holds a selected syllable, covering their byte ranges, ordered by part,
/// then measure, then start byte (then verse, where all of these tie).
pub open spec fn lyric_selection(
    runs: Seq<LyricSelectionRun>,
    verses: Seq<usize>,
    cells: Seq<LyricCell>,
    spans: Seq<LyricSourceSpan>,
    n: int,
) -> bool {
    &&& runs_cover(runs, verses, cells, spans, n)
    &&& forall|i: int, j: int|
        0 <= i < j < runs.len() ==> run_before(verses[i], runs[i], verses[j], runs[j])
}

proof fn lemma_range_has_witness(
    cells: Seq<LyricCell>,
    spans: Seq<LyricSourceSpan>,
    part: usize,
    verse: usize,
    measure: usize,
    n: int,
)
    requires
        0 <= n <= spans.len(),
        lyric_range(cells, spans, part, verse, measure, n) is Some,
    ensures
        exists|j: int|
            0 <= j < n && cells.contains(lyric_cell_of(#[trigger] spans[j]))
                && spans[j].source_part_index == part && spans[j].verse == verse
                && spans[j].measure_index == measure,
    decreases n,
{
    let s = spans[n - 1];
    if !(cells.contains(lyric_cell_of(s)) && s.source_part_index == part && s.verse == verse
        && s.measure_index == measure) {
        lemma_range_has_witness(cells, spans, part, verse, measure, n - 1);
    }
}

proof fn lemma_range_covers(
    cells: Seq<LyricCell>,
    spans: Seq<LyricSourceSpan>,
    part: usize,
    verse: usize,
    measure: usize,
    n: int,
    j: int,
)
    requires
        0 <= j < n <= spans.len(),
        cells.contains(lyric_cell_of(spans[j])),
        spans[j].source_part_index == part,
        spans[j].verse == verse,
        spans[j].measure_index == measure,
    ensures
        lyric_range(cells, spans, part, verse, measure, n) matches Some((a, b)) && a <= spans[j].start
            && spans[j].end <= b,
    decreases n,
{
    if j < n - 1 {
        lemma_range_covers(cells, spans, part, verse, measure, n - 1, j);
    }
}

/// Each selected syllable lies within the run of its part, verse and measure.
pub proof fn selected_lyrics_lie_within_their_run(
    runs: Seq<LyricSelectionRun>,
    verses: Seq<usize>,
    cells: Seq<LyricCell>,
    spans: Seq<LyricSourceSpan>,
    j: int,
)
    requires
        lyric_selection(runs, verses, cells, spans, spans.len() as int),
        0 <= j < spans.len(),
        cells.contains(lyric_cell_of(spans[j])),
    ensures
        exists|i: int|
            0 <= i < runs.len() && (#[trigger] runs[i]).source_part_index == spans[j].source_part_index
                && verses[i] == spans[j].verse && runs[i].measure_index == spans[j].measure_index
                && runs[i].start_byte <= spans[j].start && spans[j].end <= runs[i].end_byte,
{
    let i = choose|i: int|
        0 <= i < runs.len() && (#[trigger] runs[i]).source_part_index == spans[j].source_part_index
            && verses[i] == spans[j].verse && runs[i].measure_index == spans[j].measure_index;
    lemma_range_covers(cells, spans, spans[j].source_part_index, spans[j].verse, spans[j].measure_index, spans.len() as int, j);
    assert(lyric_range(cells, spans, runs[i].source_part_index, verses[i], runs[i].measure_index, spans.len() as int)
        == Some((runs[i].start_byte, runs[i].end_byte)));
}

fn contains_cell(cells: &[LyricCell], c: LyricCell) -> (b: bool)
    ensures
        b == cells@.contains(c),
{
    let mut i: usize = 0;
    while i < cells.len()
        invariant
            i <= cells@.len(),
            forall|k: int| 0 <= k < i ==> cells@[k] != c,
        decreases cells@.len() - i,
    {
        if cells[i] == c {
            return true;
        }
        i += 1;
    }
    false
}

/// The runs of the selected syllables, one per (part, verse, measure), ordered by that
/// key.
fn collect_runs(selected_cells: &[LyricCell], lyric_spans: &[LyricSourceSpan]) -> (r: (
    Vec<LyricSelectionRun>,
    Vec<usize>,
))
    ensures
        runs_cover(r.0@, r.1@, selected_cells@, lyric_spans@, lyric_spans@.len() as int),
        forall|i: int, j: int|
            0 <= i < j < r.0@.len() ==> key_before(r.1@[i], r.0@[i], r.1@[j], r.0@[j]),
{
    let ghost cells = selected_cells@;
    let ghost spans = lyric_spans@;
    let mut runs: Vec<LyricSelectionRun> = Vec::new();
    let mut verses: Vec<usize> = Vec::new();
    let mut n: usize = 0;
    while n < lyric_spans.len()
        invariant
            n <= spans.len(),
            cells == selected_cells@,
            spans == lyric_spans@,
            runs_cover(runs@, verses@, cells, spans, n as int),
            forall|i: int, j: int|
                0 <= i < j < runs@.len() ==> key_before(verses@[i], runs@[i], verses@[j], runs@[j]),
        decreases spans.len() - n,
    {
        let span = lyric_spans[n];
        let part = span.source_part_index;
        let verse = span.verse;
        let measure = span.measure_index;
        let ghost old_runs = runs@;
        let ghost old_verses = verses@;
        assert(spans[n as int] == span);
        let fresh = LyricSelectionRun {
            source_part_index: part,
            measure_index: measure,
            start_byte: span.start,
            end_byte: span.end,
        };
        if contains_cell(selected_cells, LyricCell { source_part_index: part, note_id: span.note_id, verse }) {
            let mut p: usize = 0;
            while p < runs.len() && (runs[p].source_part_index < part || (runs[p].source_part_index
                == part && verses[p] < verse) || (runs[p].source_part_index == part && verses[p]
                == verse && runs[p].measure_index < measure))
                invariant
                    p <= runs@.len(),
                    runs@ == old_runs,
                    verses@ == old_verses,
                    old_verses.len() == old_runs.len(),
                    fresh.source_part_index == part,
                    fresh.measure_index == measure,
                    forall|k: int| 0 <= k < p ==> key_before(old_verses[k], #[trigger] old_runs[k], verse, fresh),
                decreases runs@.len() - p,
            {
                p += 1;
            }
            if p < runs.len() && runs[p].source_part_index == part && verses[p] == verse
                && runs[p].measure_index == measure {
                let r = runs[p];
                let merged = LyricSelectionRun {
                    source_part_index: part,
                    measure_index: measure,
                    start_byte: if span.start < r.start_byte { span.start } else { r.start_byte },
                    end_byte: if span.end > r.end_byte { span.end } else { r.end_byte },
                };
                runs.set(p, merged);
                proof {
                    assert forall|i: int, k: int|
                        0 <= i < k < runs@.len() implies key_before(verses@[i], runs@[i], verses@[k], runs@[k]) by {
                        assert(key_before(old_verses[i], old_runs[i], old_verses[k], old_runs[k]));
                    }
                    assert forall|i: int|
                        0 <= i < runs@.len() implies lyric_range(
                        cells,
                        spans,
                        (#[trigger] runs@[i]).source_part_index,
                        verses@[i],
                        runs@[i].measure_index,
                        n + 1,
                    ) == Some((runs@[i].start_byte, runs@[i].end_byte)) by {
                        assert(lyric_range(
                            cells,
                            spans,
                            old_runs[i].source_part_index,
                            old_verses[i],
                            old_runs[i].measure_index,
                            n as int,
                        ) == Some((old_runs[i].start_byte, old_runs[i].end_byte)));
                        if i < p {
                            assert(key_before(old_verses[i], old_runs[i], old_verses[p as int], old_runs[p as int]));
                        } else if i > p {
                            assert(key_before(old_verses[p as int], old_runs[p as int], old_verses[i], old_runs[i]));
                        }
                    }
                    assert forall|j: int|
                        0 <= j < n + 1 && cells.contains(lyric_cell_of(#[trigger] spans[j])) implies exists|i: int|
                        0 <= i < runs@.len() && (#[trigger] runs@[i]).source_part_index
                            == spans[j].source_part_index && verses@[i] == spans[j].verse
                            && runs@[i].measure_index == spans[j].measure_index by {
                        if j < n {
                            let i = choose|i: int|
                                0 <= i < old_runs.len() && (#[trigger] old_runs[i]).source_part_index
                                    == spans[j].source_part_index && old_verses[i] == spans[j].verse
                                    && old_runs[i].measure_index == spans[j].measure_index;
                            assert(runs@[i].source_part_index == old_runs[i].source_part_index);
                        } else {
                            assert(runs@[p as int].source_part_index == part);
                        }
                    }
                }
            } else {
                proof {
                    if lyric_range(cells, spans, part, verse, measure, n as int) is Some {
                        lemma_range_has_witness(cells, spans, part, verse, measure, n as int);
                        let j = choose|j: int|
                            0 <= j < n && cells.contains(lyric_cell_of(#[trigger] spans[j]))
                                && spans[j].source_part_index == part && spans[j].verse == verse
                                && spans[j].measure_index == measure;
                        let i = choose|i: int|
                            0 <= i < old_runs.len() && (#[trigger] old_runs[i]).source_part_index
                                == spans[j].source_part_index && old_verses[i] == spans[j].verse
                                && old_runs[i].measure_index == spans[j].measure_index;
                        if i < p {
                            assert(key_before(old_verses[i], old_runs[i], verse, fresh));
                        } else if i > p {
                            assert(key_before(old_verses[p as int], old_runs[p as int], old_verses[i], old_runs[i]));
                        }
                    }
                }
                runs.insert(p, fresh);
                verses.insert(p, verse);
                proof {
                    assert forall|i: int, k: int|
                        0 <= i < k < runs@.len() implies key_before(verses@[i], runs@[i], verses@[k], runs@[k]) by {
                        if k < p {
                        } else if k == p {
                        } else if i < p {
                            assert(runs@[k] == old_runs[k - 1] && verses@[k] == old_verses[k - 1]);
                            if p < old_runs.len() {
                                assert(key_before(verse, fresh, old_verses[p as int], old_runs[p as int]));
                                if k - 1 > p {
                                    assert(key_before(old_verses[p as int], old_runs[p as int], old_verses[k - 1], old_runs[k - 1]));
                                }
                            }
                        } else if i == p {
                            assert(runs@[k] == old_runs[k - 1] && verses@[k] == old_verses[k - 1]);
                            if k - 1 > p {
                                assert(key_before(old_verses[p as int], old_runs[p as int], old_verses[k - 1], old_runs[k - 1]));
                            }
                        } else {
                            assert(runs@[i] == old_runs[i - 1] && verses@[i] == old_verses[i - 1]);
                            assert(runs@[k] == old_runs[k - 1] && verses@[k] == old_verses[k - 1]);
                        }
                    }
                    assert forall|i: int|
                        0 <= i < runs@.len() implies lyric_range(
                        cells,
                        spans,
                        (#[trigger] runs@[i]).source_part_index,
                        verses@[i],
                        runs@[i].measure_index,
                        n + 1,
                    ) == Some((runs@[i].start_byte, runs@[i].end_byte)) by {
                        if i < p {
                            assert(runs@[i] == old_runs[i] && verses@[i] == old_verses[i]);
                            assert(lyric_range(
                                cells,
                                spans,
                                old_runs[i].source_part_index,
                                old_verses[i],
                                old_runs[i].measure_index,
                                n as int,
                            ) == Some((old_runs[i].start_byte, old_runs[i].end_byte)));
                        } else if i > p {
                            assert(runs@[i] == old_runs[i - 1] && verses@[i] == old_verses[i - 1]);
                            assert(lyric_range(
                                cells,
                                spans,
                                old_runs[i - 1].source_part_index,
                                old_verses[i - 1],
                                old_runs[i - 1].measure_index,
                                n as int,
                            ) == Some((old_runs[i - 1].start_byte, old_runs[i - 1].end_byte)));
                            if p < old_runs.len() {
                                assert(key_before(verse, fresh, old_verses[p as int], old_runs[p as int]));
                                if i - 1 > p {
                                    assert(key_before(old_verses[p as int], old_runs[p as int], old_verses[i - 1], old_runs[i - 1]));
                                }
                            }
                        }
                    }
                    assert forall|j: int|
                        0 <= j < n + 1 && cells.contains(lyric_cell_of(#[trigger] spans[j])) implies exists|i: int|
                        0 <= i < runs@.len() && (#[trigger] runs@[i]).source_part_index
                            == spans[j].source_part_index && verses@[i] == spans[j].verse
                            && runs@[i].measure_index == spans[j].measure_index by {
                        if j < n {
                            let i = choose|i: int|
                                0 <= i < old_runs.len() && (#[trigger] old_runs[i]).source_part_index
                                    == spans[j].source_part_index && old_verses[i] == spans[j].verse
                                    && old_runs[i].measure_index == spans[j].measure_index;
                            if i < p {
                                assert(runs@[i] == old_runs[i] && verses@[i] == old_verses[i]);
                            } else {
                                assert(runs@[i + 1] == old_runs[i] && verses@[i + 1] == old_verses[i]);
                            }
                        } else {
                            assert(runs@[p as int] == fresh && verses@[p as int] == verse);
                        }
                    }
                }
            }
        } else {
            proof {
                assert forall|i: int|
                    0 <= i < runs@.len() implies lyric_range(
                    cells,
                    spans,
                    (#[trigger] runs@[i]).source_part_index,
                    verses@[i],
                    runs@[i].measure_index,
                    n + 1,
                ) == Some((runs@[i].start_byte, runs@[i].end_byte)) by {}
                assert forall|j: int|
                    0 <= j < n + 1 && cells.contains(lyric_cell_of(#[trigger] spans[j])) implies exists|i: int|
                    0 <= i < runs@.len() && (#[trigger] runs@[i]).source_part_index
                        == spans[j].source_part_index && verses@[i] == spans[j].verse
                        && runs@[i].measure_index == spans[j].measure_index by {
                    assert(j < n);
                }
            }
        }
        n += 1;
    }
    (runs, verses)
}

/// Groups a range-selected set of `(source_part_index, note_id, verse)` cells into
/// contiguous per-`(part, verse, measure)` source byte runs: each run spans from the
/// least start to the greatest end of its selected syllables. Output is sorted by
/// `(source_part_index, measure_index, start_byte)`; runs of different verses that tie
/// on all three come in verse order.
/// The runs are in order, verse by verse as given.
#[verifier::opaque]
pub open spec fn sorted_runs(out: Seq<LyricSelectionRun>, ov: Seq<usize>) -> bool {
    forall|i: int, j: int| 0 <= i < j < out.len() ==> run_before(ov[i], out[i], ov[j], out[j])
}

/// Every placed run is one of the first `m` collected ones.
#[verifier::opaque]
pub open spec fn drawn_from(
    out: Seq<LyricSelectionRun>,
    ov: Seq<usize>,
    acc: Seq<LyricSelectionRun>,
    av: Seq<usize>,
    m: int,
) -> bool {
    forall|k: int|
        #![trigger out[k]]
        0 <= k < out.len() ==> exists|i: int| 0 <= i < m && (#[trigger] acc[i]) == out[k] && av[i] == ov[k]
}

/// Every one of the first `m` collected runs is placed.
#[verifier::opaque]
pub open spec fn all_placed(
    out: Seq<LyricSelectionRun>,
    ov: Seq<usize>,
    acc: Seq<LyricSelectionRun>,
    av: Seq<usize>,
    m: int,
) -> bool {
    forall|i: int|
        #![trigger acc[i]]
        0 <= i < m ==> exists|k: int| 0 <= k < out.len() && (#[trigger] out[k]) == acc[i] && ov[k] == av[i]
}

proof fn lemma_insert_keeps_order(out: Seq<LyricSelectionRun>, ov: Seq<usize>, p: int, x: LyricSelectionRun, v: usize)
    requires
        ov.len() == out.len(),
        0 <= p <= out.len(),
        sorted_runs(out, ov),
        forall|k: int| 0 <= k < p ==> run_before(ov[k], #[trigger] out[k], v, x),
        p < out.len() ==> run_before(v, x, ov[p], out[p]),
    ensures
        sorted_runs(out.insert(p, x), ov.insert(p, v)),
{
    reveal(sorted_runs);
    let no = out.insert(p, x);
    let nv = ov.insert(p, v);
    assert forall|i: int, k: int| 0 <= i < k < no.len() implies run_before(nv[i], no[i], nv[k], no[k]) by {
        if k < p {
        } else if k == p {
        } else if i < p {
            assert(no[k] == out[k - 1] && nv[k] == ov[k - 1]);
            if k - 1 > p {
                assert(run_before(ov[p], out[p], ov[k - 1], out[k - 1]));
            }
        } else if i == p {
            assert(no[k] == out[k - 1] && nv[k] == ov[k - 1]);
            if k - 1 > p {
                assert(run_before(ov[p], out[p], ov[k - 1], out[k - 1]));
            }
        } else {
            assert(no[i] == out[i - 1] && nv[i] == ov[i - 1]);
            assert(no[k] == out[k - 1] && nv[k] == ov[k - 1]);
        }
    }
}

proof fn lemma_insert_keeps_drawn(
    out: Seq<LyricSelectionRun>,
    ov: Seq<usize>,
    p: int,
    acc: Seq<LyricSelectionRun>,
    av: Seq<usize>,
    m: int,
)
    requires
        ov.len() == out.len(),
        0 <= p <= out.len(),
        0 <= m < acc.len() == av.len(),
        drawn_from(out, ov, acc, av, m),
    ensures
        drawn_from(out.insert(p, acc[m]), ov.insert(p, av[m]), acc, av, m + 1),
{
    reveal(drawn_from);
    let no = out.insert(p, acc[m]);
    let nv = ov.insert(p, av[m]);
    assert forall|k: int|
        #![trigger no[k]]
        0 <= k < no.len() implies exists|i: int| 0 <= i < m + 1 && (#[trigger] acc[i]) == no[k] && av[i] == nv[k] by {
        if k < p {
            assert(no[k] == out[k] && nv[k] == ov[k]);
            let i = choose|i: int| 0 <= i < m && (#[trigger] acc[i]) == out[k] && av[i] == ov[k];
            assert(0 <= i < m + 1 && acc[i] == no[k] && av[i] == nv[k]);
        } else if k == p {
            assert(acc[m] == no[k] && av[m] == nv[k]);
        } else {
            assert(no[k] == out[k - 1] && nv[k] == ov[k - 1]);
            let i = choose|i: int| 0 <= i < m && (#[trigger] acc[i]) == out[k - 1] && av[i] == ov[k - 1];
            assert(0 <= i < m + 1 && acc[i] == no[k] && av[i] == nv[k]);
        }
    }
}

proof fn lemma_insert_keeps_placed(
    out: Seq<LyricSelectionRun>,
    ov: Seq<usize>,
    p: int,
    acc: Seq<LyricSelectionRun>,
    av: Seq<usize>,
    m: int,
)
    requires
        ov.len() == out.len(),
        0 <= p <= out.len(),
        0 <= m < acc.len() == av.len(),
        all_placed(out, ov, acc, av, m),
    ensures
        all_placed(out.insert(p, acc[m]), ov.insert(p, av[m]), acc, av, m + 1),
{
    reveal(all_placed);
    let no = out.insert(p, acc[m]);
    let nv = ov.insert(p, av[m]);
    assert forall|i: int|
        #![trigger acc[i]]
        0 <= i < m + 1 implies exists|k: int| 0 <= k < no.len() && (#[trigger] no[k]) == acc[i] && nv[k] == av[i] by {
        if i < m {
            let k = choose|k: int| 0 <= k < out.len() && (#[trigger] out[k]) == acc[i] && ov[k] == av[i];
            if k < p {
                assert(no[k] == out[k] && nv[k] == ov[k]);
            } else {
                assert(no[k + 1] == out[k] && nv[k + 1] == ov[k]);
            }
        } else {
            assert(no[p] == acc[i] && nv[p] == av[i]);
        }
    }
}

/// A run placed before `acc[m]` differs from it: they come from different keys.
proof fn lemma_placed_differs(
    out: Seq<LyricSelectionRun>,
    ov: Seq<usize>,
    acc: Seq<LyricSelectionRun>,
    av: Seq<usize>,
    m: int,
    k: int,
)
    requires
        0 <= k < out.len() == ov.len(),
        0 <= m < acc.len() == av.len(),
        drawn_from(out, ov, acc, av, m),
        forall|i: int, j: int| 0 <= i < j < acc.len() ==> key_before(av[i], acc[i], av[j], acc[j]),
    ensures
        !(ov[k] == av[m] && out[k].source_part_index == acc[m].source_part_index
            && out[k].measure_index == acc[m].measure_index),
{
    reveal(drawn_from);
    let i = choose|i: int| 0 <= i < m && (#[trigger] acc[i]) == out[k] && av[i] == ov[k];
    assert(key_before(av[i], acc[i], av[m], acc[m]));
}

/// The placed runs, once all are placed, are the selection.
proof fn lemma_placed_is_selection(
    out: Seq<LyricSelectionRun>,
    ov: Seq<usize>,
    acc: Seq<LyricSelectionRun>,
    av: Seq<usize>,
    cells: Seq<LyricCell>,
    spans: Seq<LyricSourceSpan>,
)
    requires
        ov.len() == out.len(),
        runs_cover(acc, av, cells, spans, spans.len() as int),
        sorted_runs(out, ov),
        drawn_from(out, ov, acc, av, acc.len() as int),
        all_placed(out, ov, acc, av, acc.len() as int),
    ensures
        lyric_selection(out, ov, cells, spans, spans.len() as int),
{
    reveal(sorted_runs);
    reveal(drawn_from);
    reveal(all_placed);
    let total = spans.len() as int;
    assert forall|k: int|
        0 <= k < out.len() implies lyric_range(
        cells,
        spans,
        (#[trigger] out[k]).source_part_index,
        ov[k],
        out[k].measure_index,
        total,
    ) == Some((out[k].start_byte, out[k].end_byte)) by {
        let i = choose|i: int| 0 <= i < acc.len() && (#[trigger] acc[i]) == out[k] && av[i] == ov[k];
    }
    assert forall|j: int|
        0 <= j < total && cells.contains(lyric_cell_of(#[trigger] spans[j])) implies exists|k: int|
        0 <= k < out.len() && (#[trigger] out[k]).source_part_index == spans[j].source_part_index
            && ov[k] == spans[j].verse && out[k].measure_index == spans[j].measure_index by {
        let i = choose|i: int|
            0 <= i < acc.len() && (#[trigger] acc[i]).source_part_index == spans[j].source_part_index
                && av[i] == spans[j].verse && acc[i].measure_index == spans[j].measure_index;
        let k = choose|k: int| 0 <= k < out.len() && (#[trigger] out[k]) == acc[i] && ov[k] == av[i];
    }
}

/// Groups a range-selected set of `(source_part_index, note_id, verse)` cells into
/// contiguous per-`(part, verse, measure)` source byte runs: each run spans from the
/// least start to the greatest end of its selected syllables. Output is sorted by
/// `(source_part_index, measure_index, start_byte)`; runs of different verses that tie
/// on all three come in verse order.
pub fn group_selected_lyrics_into_contiguous_runs(
    selected_cells: &[LyricCell],
    lyric_spans: &[LyricSourceSpan],
) -> (runs: Vec<LyricSelectionRun>)
    ensures
        exists|verses: Seq<usize>|
            lyric_selection(runs@, verses, selected_cells@, lyric_spans@, lyric_spans@.len() as int),
{
    let (acc, acc_verses) = collect_runs(selected_cells, lyric_spans);
    let mut out: Vec<LyricSelectionRun> = Vec::new();
    let mut out_verses: Vec<usize> = Vec::new();
    proof {
        reveal(sorted_runs);
        reveal(drawn_from);
        reveal(all_placed);
    }
    let mut m: usize = 0;
    while m < acc.len()
        invariant
            m <= acc@.len(),
            acc_verses@.len() == acc@.len(),
            out_verses@.len() == out@.len(),
            forall|i: int, j: int|
                0 <= i < j < acc@.len() ==> key_before(acc_verses@[i], acc@[i], acc_verses@[j], acc@[j]),
            sorted_runs(out@, out_verses@),
            drawn_from(out@, out_verses@, acc@, acc_verses@, m as int),
            all_placed(out@, out_verses@, acc@, acc_verses@, m as int),
        decreases acc@.len() - m,
    {
        let x = acc[m];
        let v = acc_verses[m];
        let ghost old_out = out@;
        let ghost old_v = out_verses@;
        let mut p: usize = 0;
        while p < out.len() && (out[p].source_part_index < x.source_part_index || (
        out[p].source_part_index == x.source_part_index && out[p].measure_index < x.measure_index)
            || (out[p].source_part_index == x.source_part_index && out[p].measure_index
            == x.measure_index && out[p].start_byte < x.start_byte) || (out[p].source_part_index
            == x.source_part_index && out[p].measure_index == x.measure_index && out[p].start_byte
            == x.start_byte && out_verses[p] < v))
            invariant
                p <= out@.len(),
                out@ == old_out,
                out_verses@ == old_v,
                old_v.len() == old_out.len(),
                forall|k: int| 0 <= k < p ==> run_before(old_v[k], #[trigger] old_out[k], v, x),
            decreases out@.len() - p,
        {
            p += 1;
        }
        proof {
            if p < old_out.len() {
                lemma_placed_differs(old_out, old_v, acc@, acc_verses@, m as int, p as int);
            }
            lemma_insert_keeps_order(old_out, old_v, p as int, x, v);
            lemma_insert_keeps_drawn(old_out, old_v, p as int, acc@, acc_verses@, m as int);
            lemma_insert_keeps_placed(old_out, old_v, p as int, acc@, acc_verses@, m as int);
        }
        out.insert(p, x);
        out_verses.insert(p, v);
        m += 1;
    }
    proof {
        lemma_placed_is_selection(out@, out_verses@, acc@, acc_verses@, selected_cells@, lyric_spans@);
    }
    out
}

} // verus!
