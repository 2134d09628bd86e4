use vstd::prelude::*;

use super::helpers::{
    collect_lyric_cells, collect_note_cells, lyric_cells_in, lyric_measure_index, lyric_measure_of,
    max_of, max_usize, min_of, min_usize, note_cells_in, note_measure_index, note_measure_of,
    LyricEndpoint, NoteEndpoint, SpanBox,
};
use super::types::{
    response_view, ClickableElementId, LyricCellOut, LyricSpanOut, NoteCellOut, NoteSpanOut,
    ResolveSelectionRangeResponse,
};

verus! {

/// The box that bounds nothing.
pub open spec fn full_box() -> SpanBox {
    SpanBox {
        part_lo: 0,
        part_hi: usize::MAX,
        verse_lo: 0,
        verse_hi: usize::MAX,
        id_lo: 0,
        id_hi: usize::MAX,
        measure_lo: 0,
        measure_hi: usize::MAX,
    }
}

pub fn full_span_box() -> (b: SpanBox)
    ensures
        b == full_box(),
{
    SpanBox {
        part_lo: 0,
        part_hi: usize::MAX,
        verse_lo: 0,
        verse_hi: usize::MAX,
        id_lo: 0,
        id_hi: usize::MAX,
        measure_lo: 0,
        measure_hi: usize::MAX,
    }
}

/// A same-part `Note ↔ Lyric` range: every note of the part, and every syllable of the
/// lyric endpoint's verse, whose note id lies between the two endpoints' note ids.
pub open spec fn same_part_outcome(
    note_spans: Seq<NoteSpanOut>,
    lyric_spans: Seq<LyricSpanOut>,
    part: usize,
    note_id: usize,
    lyric_note_id: usize,
    verse: usize,
) -> Option<(Seq<NoteCellOut>, Seq<LyricCellOut>)> {
    let lo = min_of(note_id, lyric_note_id);
    let hi = max_of(note_id, lyric_note_id);
    Some(
        (
            note_cells_in(note_spans, SpanBox { part_lo: part, part_hi: part, id_lo: lo, id_hi: hi, ..full_box() }),
            lyric_cells_in(
                lyric_spans,
                SpanBox {
                    part_lo: part,
                    part_hi: part,
                    verse_lo: verse,
                    verse_hi: verse,
                    id_lo: lo,
                    id_hi: hi,
                    ..full_box()
                },
            ),
        ),
    )
}

/// A cross-part `Note ↔ Lyric` range: the notes, and the syllables of the lyric
/// endpoint's verse, whose part lies between the two parts and whose measure lies
/// between the endpoints' measures; unresolved when either endpoint's span is missing.
pub open spec fn cross_part_outcome(
    note_spans: Seq<NoteSpanOut>,
    lyric_spans: Seq<LyricSpanOut>,
    note: NoteEndpoint,
    lyric: LyricEndpoint,
) -> Option<(Seq<NoteCellOut>, Seq<LyricCellOut>)> {
    match (note_measure_of(note_spans, note.part, note.note_id), lyric_measure_of(lyric_spans, lyric.part, lyric.note_id, lyric.verse)) {
        (Some(nm), Some(lm)) => {
            let b = SpanBox {
                part_lo: min_of(note.part, lyric.part),
                part_hi: max_of(note.part, lyric.part),
                measure_lo: min_of(nm, lm),
                measure_hi: max_of(nm, lm),
                ..full_box()
            };
            Some((note_cells_in(note_spans, b), lyric_cells_in(lyric_spans, SpanBox { verse_lo: lyric.verse, verse_hi: lyric.verse, ..b })))
        },
        _ => None,
    }
}

/// The outcome for a note endpoint and a lyric endpoint, in either order.
pub open spec fn pair_outcome(
    note_spans: Seq<NoteSpanOut>,
    lyric_spans: Seq<LyricSpanOut>,
    note: NoteEndpoint,
    lyric: LyricEndpoint,
) -> Option<(Seq<NoteCellOut>, Seq<LyricCellOut>)> {
    if note.part == lyric.part {
        same_part_outcome(note_spans, lyric_spans, note.part, note.note_id, lyric.note_id, lyric.verse)
    } else {
        cross_part_outcome(note_spans, lyric_spans, note, lyric)
    }
}

/// The `Note ↔ Lyric` rule: `None` for any other pair of elements.
pub open spec fn note_lyric_outcome(
    note_spans: Seq<NoteSpanOut>,
    lyric_spans: Seq<LyricSpanOut>,
    anchor: ClickableElementId,
    current: ClickableElementId,
) -> Option<Option<(Seq<NoteCellOut>, Seq<LyricCellOut>)>> {
    match (anchor, current) {
        (ClickableElementId::Note { source_part_index: np, note_id }, ClickableElementId::Lyric { source_part_index: lp, note_id: lid, verse }) => Some(
            pair_outcome(note_spans, lyric_spans, NoteEndpoint { part: np, note_id }, LyricEndpoint { part: lp, note_id: lid, verse }),
        ),
        (ClickableElementId::Lyric { source_part_index: lp, note_id: lid, verse }, ClickableElementId::Note { source_part_index: np, note_id }) => Some(
            pair_outcome(note_spans, lyric_spans, NoteEndpoint { part: np, note_id }, LyricEndpoint { part: lp, note_id: lid, verse }),
        ),
        _ => None,
    }
}

/// `Note ↔ Lyric` cross-row, both scopes: same part ranges by note id, different parts
/// by measure. `None` for any other pair of elements.
pub fn resolve(
    note_spans: &[NoteSpanOut],
    lyric_spans: &[LyricSpanOut],
    anchor: &ClickableElementId,
    current: &ClickableElementId,
) -> (r: Option<ResolveSelectionRangeResponse>)
    ensures
        match r {
            Some(resp) => note_lyric_outcome(note_spans@, lyric_spans@, *anchor, *current) == Some(response_view(resp)),
            None => note_lyric_outcome(note_spans@, lyric_spans@, *anchor, *current) is None,
        },
{
    match (*anchor, *current) {
        (ClickableElementId::Note { source_part_index: np, note_id }, ClickableElementId::Lyric { source_part_index: lp, note_id: lid, verse }) => Some(
            pair(note_spans, lyric_spans, NoteEndpoint { part: np, note_id }, LyricEndpoint { part: lp, note_id: lid, verse }),
        ),
        (ClickableElementId::Lyric { source_part_index: lp, note_id: lid, verse }, ClickableElementId::Note { source_part_index: np, note_id }) => Some(
            pair(note_spans, lyric_spans, NoteEndpoint { part: np, note_id }, LyricEndpoint { part: lp, note_id: lid, verse }),
        ),
        _ => None,
    }
}

fn pair(
    note_spans: &[NoteSpanOut],
    lyric_spans: &[LyricSpanOut],
    note: NoteEndpoint,
    lyric: LyricEndpoint,
) -> (r: ResolveSelectionRangeResponse)
    ensures
        response_view(r) == pair_outcome(note_spans@, lyric_spans@, note, lyric),
{
    if note.part == lyric.part {
        same_part(note_spans, lyric_spans, note.part, note.note_id, lyric.note_id, lyric.verse)
    } else {
        cross_part(note_spans, lyric_spans, note, lyric)
    }
}

/// Same-part `Note ↔ Lyric`: ranges both rows by the endpoints' note ids, the lyric row
/// within the lyric endpoint's verse.
fn same_part(
    note_spans: &[NoteSpanOut],
    lyric_spans: &[LyricSpanOut],
    part: usize,
    note_id: usize,
    lyric_note_id: usize,
    verse: usize,
) -> (r: ResolveSelectionRangeResponse)
    ensures
        response_view(r) == same_part_outcome(note_spans@, lyric_spans@, part, note_id, lyric_note_id, verse),
{
    let range_start = min_usize(note_id, lyric_note_id);
    let range_end = max_usize(note_id, lyric_note_id);
    let full = full_span_box();
    let note_cells = collect_note_cells(
        note_spans,
        SpanBox { part_lo: part, part_hi: part, id_lo: range_start, id_hi: range_end, ..full },
    );
    let lyric_cells = collect_lyric_cells(
        lyric_spans,
        SpanBox {
            part_lo: part,
            part_hi: part,
            verse_lo: verse,
            verse_hi: verse,
            id_lo: range_start,
            id_hi: range_end,
            ..full
        },
    );
    ResolveSelectionRangeResponse::Resolved { note_cells, lyric_cells }
}

/// Cross-part `Note ↔ Lyric`: ranges by part and by the endpoints' measures, the lyric
/// row within the lyric endpoint's verse; unresolved when an endpoint's span is missing.
fn cross_part(
    note_spans: &[NoteSpanOut],
    lyric_spans: &[LyricSpanOut],
    note: NoteEndpoint,
    lyric: LyricEndpoint,
) -> (r: ResolveSelectionRangeResponse)
    ensures
        response_view(r) == cross_part_outcome(note_spans@, lyric_spans@, note, lyric),
{
    let note_measure = note_measure_index(note_spans, note.part, note.note_id);
    let lyric_measure = lyric_measure_index(lyric_spans, lyric.part, lyric.note_id, lyric.verse);
    match (note_measure, lyric_measure) {
        (Some(nm), Some(lm)) => {
            let full = full_span_box();
            let b = SpanBox {
                part_lo: min_usize(note.part, lyric.part),
                part_hi: max_usize(note.part, lyric.part),
                measure_lo: min_usize(nm, lm),
                measure_hi: max_usize(nm, lm),
                ..full
            };
            let note_cells = collect_note_cells(note_spans, b);
            let lyric_cells = collect_lyric_cells(lyric_spans, SpanBox { verse_lo: lyric.verse, verse_hi: lyric.verse, ..b });
            ResolveSelectionRangeResponse::Resolved { note_cells, lyric_cells }
        },
        _ => ResolveSelectionRangeResponse::Unresolved,
    }
}

} // verus!
