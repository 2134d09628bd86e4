use vstd::prelude::*;

use super::helpers::{
    collect_lyric_cells, lyric_cells_in, lyric_measure_index, lyric_measure_of, max_of, max_usize,
    min_of, min_usize, LyricEndpoint, SpanBox,
};
use super::note_lyric::{full_box, full_span_box};
use super::types::{
    response_view, ClickableElementId, LyricCellOut, LyricSpanOut, NoteCellOut, NoteSpanOut,
    ResolveSelectionRangeResponse,
};

verus! {

/// `Lyric ↔ Lyric` within one part: the part's syllables whose verse and note id lie
/// between those of the two endpoints. No note cells.
pub open spec fn same_part_outcome(
    lyric_spans: Seq<LyricSpanOut>,
    part: usize,
    a: LyricEndpoint,
    c: LyricEndpoint,
) -> Option<(Seq<NoteCellOut>, Seq<LyricCellOut>)> {
    Some(
        (
            seq![],
            lyric_cells_in(
                lyric_spans,
                SpanBox {
                    part_lo: part,
                    part_hi: part,
                    verse_lo: min_of(a.verse, c.verse),
                    verse_hi: max_of(a.verse, c.verse),
                    id_lo: min_of(a.note_id, c.note_id),
                    id_hi: max_of(a.note_id, c.note_id),
                    ..full_box()
                },
            ),
        ),
    )
}

/// `Lyric ↔ Lyric` across parts: the syllables whose part, verse and measure lie
/// between those of the two endpoints; unresolved when an endpoint's span is missing.
pub open spec fn cross_part_outcome(
    lyric_spans: Seq<LyricSpanOut>,
    a: LyricEndpoint,
    c: LyricEndpoint,
) -> Option<(Seq<NoteCellOut>, Seq<LyricCellOut>)> {
    match (lyric_measure_of(lyric_spans, a.part, a.note_id, a.verse), lyric_measure_of(lyric_spans, c.part, c.note_id, c.verse)) {
        (Some(am), Some(cm)) => Some(
            (
                seq![],
                lyric_cells_in(
                    lyric_spans,
                    SpanBox {
                        part_lo: min_of(a.part, c.part),
                        part_hi: max_of(a.part, c.part),
                        verse_lo: min_of(a.verse, c.verse),
                        verse_hi: max_of(a.verse, c.verse),
                        measure_lo: min_of(am, cm),
                        measure_hi: max_of(am, cm),
                        ..full_box()
                    },
                ),
            ),
        ),
        _ => None,
    }
}

/// The `Lyric ↔ Lyric` rule: `None` for any other pair of elements.
pub open spec fn lyric_lyric_rule(
    lyric_spans: Seq<LyricSpanOut>,
    anchor: ClickableElementId,
    current: ClickableElementId,
) -> Option<Option<(Seq<NoteCellOut>, Seq<LyricCellOut>)>> {
    match (anchor, current) {
        (
            ClickableElementId::Lyric { source_part_index: ap, note_id: aid, verse: av },
            ClickableElementId::Lyric { source_part_index: cp, note_id: cid, verse: cv },
        ) => {
            let a = LyricEndpoint { part: ap, note_id: aid, verse: av };
            let c = LyricEndpoint { part: cp, note_id: cid, verse: cv };
            if ap == cp {
                Some(same_part_outcome(lyric_spans, ap, a, c))
            } else {
                Some(cross_part_outcome(lyric_spans, a, c))
            }
        },
        _ => None,
    }
}

/// `Lyric ↔ Lyric`: within one part by verse and note id (a single verse when both
/// share it), across parts by part, verse and measure. `None` for any other pair.
pub fn resolve(
    _note_spans: &[NoteSpanOut],
    lyric_spans: &[LyricSpanOut],
    anchor: &ClickableElementId,
    current: &ClickableElementId,
) -> (r: Option<ResolveSelectionRangeResponse>)
    ensures
        match r {
            Some(resp) => lyric_lyric_rule(lyric_spans@, *anchor, *current) == Some(response_view(resp)),
            None => lyric_lyric_rule(lyric_spans@, *anchor, *current) is None,
        },
{
    match (*anchor, *current) {
        (
            ClickableElementId::Lyric { source_part_index: ap, note_id: aid, verse: av },
            ClickableElementId::Lyric { source_part_index: cp, note_id: cid, verse: cv },
        ) => {
            let a = LyricEndpoint { part: ap, note_id: aid, verse: av };
            let c = LyricEndpoint { part: cp, note_id: cid, verse: cv };
            if ap == cp && av == cv {
                Some(same_part_same_verse(lyric_spans, ap, av, aid, cid))
            } else if ap == cp {
                Some(same_part_cross_verse(lyric_spans, ap, aid, av, cid, cv))
            } else {
                Some(cross_part(lyric_spans, a, c))
            }
        },
        _ => None,
    }
}

fn same_part_same_verse(
    lyric_spans: &[LyricSpanOut],
    part: usize,
    verse: usize,
    anchor_id: usize,
    current_id: usize,
) -> (r: ResolveSelectionRangeResponse)
    ensures
        response_view(r) == same_part_outcome(
            lyric_spans@,
            part,
            LyricEndpoint { part, note_id: anchor_id, verse },
            LyricEndpoint { part, note_id: current_id, verse },
        ),
{
    let full = full_span_box();
    let lyric_cells = collect_lyric_cells(
        lyric_spans,
        SpanBox {
            part_lo: part,
            part_hi: part,
            verse_lo: verse,
            verse_hi: verse,
            id_lo: min_usize(anchor_id, current_id),
            id_hi: max_usize(anchor_id, current_id),
            ..full
        },
    );
    let note_cells: Vec<NoteCellOut> = Vec::new();
    proof {
        assert(note_cells@ == Seq::<NoteCellOut>::empty());
    }
    ResolveSelectionRangeResponse::Resolved { note_cells, lyric_cells }
}

fn same_part_cross_verse(
    lyric_spans: &[LyricSpanOut],
    part: usize,
    anchor_id: usize,
    anchor_verse: usize,
    current_id: usize,
    current_verse: usize,
) -> (r: ResolveSelectionRangeResponse)
    ensures
        response_view(r) == same_part_outcome(
            lyric_spans@,
            part,
            LyricEndpoint { part, note_id: anchor_id, verse: anchor_verse },
            LyricEndpoint { part, note_id: current_id, verse: current_verse },
        ),
{
    let full = full_span_box();
    let lyric_cells = collect_lyric_cells(
        lyric_spans,
        SpanBox {
            part_lo: part,
            part_hi: part,
            verse_lo: min_usize(anchor_verse, current_verse),
            verse_hi: max_usize(anchor_verse, current_verse),
            id_lo: min_usize(anchor_id, current_id),
            id_hi: max_usize(anchor_id, current_id),
            ..full
        },
    );
    let note_cells: Vec<NoteCellOut> = Vec::new();
    proof {
        assert(note_cells@ == Seq::<NoteCellOut>::empty());
    }
    ResolveSelectionRangeResponse::Resolved { note_cells, lyric_cells }
}

fn cross_part(lyric_spans: &[LyricSpanOut], anchor: LyricEndpoint, current: LyricEndpoint) -> (r: ResolveSelectionRangeResponse)
    ensures
        response_view(r) == cross_part_outcome(lyric_spans@, anchor, current),
{
    let anchor_measure = lyric_measure_index(lyric_spans, anchor.part, anchor.note_id, anchor.verse);
    let current_measure = lyric_measure_index(lyric_spans, current.part, current.note_id, current.verse);
    match (anchor_measure, current_measure) {
        (Some(am), Some(cm)) => {
            let full = full_span_box();
            let lyric_cells = collect_lyric_cells(
                lyric_spans,
                SpanBox {
                    part_lo: min_usize(anchor.part, current.part),
                    part_hi: max_usize(anchor.part, current.part),
                    verse_lo: min_usize(anchor.verse, current.verse),
                    verse_hi: max_usize(anchor.verse, current.verse),
                    measure_lo: min_usize(am, cm),
                    measure_hi: max_usize(am, cm),
                    ..full
                },
            );
            let note_cells: Vec<NoteCellOut> = Vec::new();
            proof {
                assert(note_cells@ == Seq::<NoteCellOut>::empty());
            }
            ResolveSelectionRangeResponse::Resolved { note_cells, lyric_cells }
        },
        _ => ResolveSelectionRangeResponse::Unresolved,
    }
}

} // verus!
