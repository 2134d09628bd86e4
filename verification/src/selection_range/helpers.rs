use vstd::prelude::*;

use super::types::{LyricCellOut, LyricSpanOut, NoteCellOut, NoteSpanOut};

verus! {

/// One end of a range on the note row.
#[derive(Debug, Clone, Copy, PartialEq, Eq, Structural)]
pub struct NoteEndpoint {
    pub part: usize,
    pub note_id: usize,
}

/// One end of a range on a lyric row.
#[derive(Debug, Clone, Copy, PartialEq, Eq, Structural)]
pub struct LyricEndpoint {
    pub part: usize,
    pub note_id: usize,
    pub verse: usize,
}

/// A verse label's part, verse and measure span.
#[derive(Debug, Clone, Copy, PartialEq, Eq, Structural)]
pub struct VerseMeasureSpan {
    pub part: usize,
    pub verse: usize,
    pub start: usize,
    pub end: usize,
}

/// Inclusive bounds on part, verse, note id and measure.
#[derive(Debug, Clone, Copy, PartialEq, Eq, Structural)]
pub struct SpanBox {
    pub part_lo: usize,
    pub part_hi: usize,
    pub verse_lo: usize,
    pub verse_hi: usize,
    pub id_lo: usize,
    pub id_hi: usize,
    pub measure_lo: usize,
    pub measure_hi: usize,
}

pub open spec fn min_of(a: usize, b: usize) -> usize {
    if a < b { a } else { b }
}

pub open spec fn max_of(a: usize, b: usize) -> usize {
    if a > b { a } else { b }
}

pub fn min_usize(a: usize, b: usize) -> (r: usize)
    ensures
        r == min_of(a, b),
{
    if a < b { a } else { b }
}

pub fn max_usize(a: usize, b: usize) -> (r: usize)
    ensures
        r == max_of(a, b),
{
    if a > b { a } else { b }
}

/// A note span lies in the box (verses do not apply to notes).
pub open spec fn note_in_box(s: NoteSpanOut, b: SpanBox) -> bool {
    &&& b.part_lo <= s.source_part_index <= b.part_hi
    &&& b.id_lo <= s.note_id <= b.id_hi
    &&& b.measure_lo <= s.measure_index <= b.measure_hi
}

/// A lyric span lies in the box.
pub open spec fn lyric_in_box(s: LyricSpanOut, b: SpanBox) -> bool {
    &&& b.part_lo <= s.source_part_index <= b.part_hi
    &&& b.verse_lo <= s.verse <= b.verse_hi
    &&& b.id_lo <= s.note_id <= b.id_hi
    &&& b.measure_lo <= s.measure_index <= b.measure_hi
}

pub open spec fn note_cell(s: NoteSpanOut) -> NoteCellOut {
    NoteCellOut { source_part_index: s.source_part_index, note_id: s.note_id }
}

pub open spec fn lyric_cell(s: LyricSpanOut) -> LyricCellOut {
    LyricCellOut { source_part_index: s.source_part_index, note_id: s.note_id, verse: s.verse }
}

/// The cells of the note spans in the box, in span order.
pub open spec fn note_cells_in(spans: Seq<NoteSpanOut>, b: SpanBox) -> Seq<NoteCellOut>
    decreases spans.len(),
{
    if spans.len() == 0 {
        seq![]
    } else {
        note_cells_in(spans.drop_last(), b) + if note_in_box(spans.last(), b) {
            seq![note_cell(spans.last())]
        } else {
            seq![]
        }
    }
}

/// The cells of the lyric spans in the box, in span order.
pub open spec fn lyric_cells_in(spans: Seq<LyricSpanOut>, b: SpanBox) -> Seq<LyricCellOut>
    decreases spans.len(),
{
    if spans.len() == 0 {
        seq![]
    } else {
        lyric_cells_in(spans.drop_last(), b) + if lyric_in_box(spans.last(), b) {
            seq![lyric_cell(spans.last())]
        } else {
            seq![]
        }
    }
}

pub fn collect_note_cells(spans: &[NoteSpanOut], b: SpanBox) -> (v: Vec<NoteCellOut>)
    ensures
        v@ == note_cells_in(spans@, b),
{
    let mut v: Vec<NoteCellOut> = Vec::new();
    let mut i: usize = 0;
    while i < spans.len()
        invariant
            i <= spans@.len(),
            v@ == note_cells_in(spans@.take(i as int), b),
        decreases spans@.len() - i,
    {
        let s = spans[i];
        proof {
            assert(spans@.take(i + 1).drop_last() == spans@.take(i as int));
        }
        if b.part_lo <= s.source_part_index && s.source_part_index <= b.part_hi && b.id_lo <= s.note_id
            && s.note_id <= b.id_hi && b.measure_lo <= s.measure_index && s.measure_index <= b.measure_hi {
            v.push(NoteCellOut { source_part_index: s.source_part_index, note_id: s.note_id });
        } else {
            proof {
                assert(v@ + Seq::<NoteCellOut>::empty() == v@);
            }
        }
        i += 1;
    }
    proof {
        assert(spans@.take(i as int) == spans@);
    }
    v
}

pub fn collect_lyric_cells(spans: &[LyricSpanOut], b: SpanBox) -> (v: Vec<LyricCellOut>)
    ensures
        v@ == lyric_cells_in(spans@, b),
{
    let mut v: Vec<LyricCellOut> = Vec::new();
    let mut i: usize = 0;
    while i < spans.len()
        invariant
            i <= spans@.len(),
            v@ == lyric_cells_in(spans@.take(i as int), b),
        decreases spans@.len() - i,
    {
        let s = spans[i];
        proof {
            assert(spans@.take(i + 1).drop_last() == spans@.take(i as int));
        }
        if b.part_lo <= s.source_part_index && s.source_part_index <= b.part_hi && b.verse_lo
            <= s.verse && s.verse <= b.verse_hi && b.id_lo <= s.note_id && s.note_id <= b.id_hi
            && b.measure_lo <= s.measure_index && s.measure_index <= b.measure_hi {
            v.push(LyricCellOut { source_part_index: s.source_part_index, note_id: s.note_id, verse: s.verse });
        } else {
            proof {
                assert(v@ + Seq::<LyricCellOut>::empty() == v@);
            }
        }
        i += 1;
    }
    proof {
        assert(spans@.take(i as int) == spans@);
    }
    v
}

/// The measure of the first note span of `part` with id `note_id`.
pub open spec fn note_measure_of(spans: Seq<NoteSpanOut>, part: usize, note_id: usize) -> Option<usize>
    decreases spans.len(),
{
    if spans.len() == 0 {
        None
    } else if spans[0].source_part_index == part && spans[0].note_id == note_id {
        Some(spans[0].measure_index)
    } else {
        note_measure_of(spans.drop_first(), part, note_id)
    }
}

/// The measure of the first lyric span of `part`, `verse` with id `note_id`.
pub open spec fn lyric_measure_of(spans: Seq<LyricSpanOut>, part: usize, note_id: usize, verse: usize) -> Option<usize>
    decreases spans.len(),
{
    if spans.len() == 0 {
        None
    } else if spans[0].source_part_index == part && spans[0].note_id == note_id && spans[0].verse == verse {
        Some(spans[0].measure_index)
    } else {
        lyric_measure_of(spans.drop_first(), part, note_id, verse)
    }
}

pub fn note_measure_index(spans: &[NoteSpanOut], part: usize, note_id: usize) -> (r: Option<usize>)
    ensures
        r == note_measure_of(spans@, part, note_id),
{
    let mut i: usize = 0;
    proof {
        assert(spans@.skip(0) == spans@);
    }
    while i < spans.len()
        invariant
            i <= spans@.len(),
            note_measure_of(spans@, part, note_id) == note_measure_of(spans@.skip(i as int), part, note_id),
        decreases spans@.len() - i,
    {
        proof {
            assert(spans@.skip(i as int).drop_first() == spans@.skip(i + 1));
        }
        if spans[i].source_part_index == part && spans[i].note_id == note_id {
            return Some(spans[i].measure_index);
        }
        i += 1;
    }
    None
}

pub fn lyric_measure_index(spans: &[LyricSpanOut], part: usize, note_id: usize, verse: usize) -> (r: Option<usize>)
    ensures
        r == lyric_measure_of(spans@, part, note_id, verse),
{
    let mut i: usize = 0;
    proof {
        assert(spans@.skip(0) == spans@);
    }
    while i < spans.len()
        invariant
            i <= spans@.len(),
            lyric_measure_of(spans@, part, note_id, verse) == lyric_measure_of(spans@.skip(i as int), part, note_id, verse),
        decreases spans@.len() - i,
    {
        proof {
            assert(spans@.skip(i as int).drop_first() == spans@.skip(i + 1));
        }
        if spans[i].source_part_index == part && spans[i].note_id == note_id && spans[i].verse == verse {
            return Some(spans[i].measure_index);
        }
        i += 1;
    }
    None
}

} // verus!
