use vstd::prelude::*;

use super::helpers::{
    collect_lyric_cells, lyric_cells_in, lyric_measure_index, lyric_measure_of, max_of, max_usize,
    min_of, min_usize, LyricEndpoint, SpanBox, VerseMeasureSpan,
};
use super::note_lyric::{full_box, full_span_box};
use super::types::{
    response_view, ClickableElementId, LyricCellOut, LyricSpanOut, NoteCellOut, NoteSpanOut,
    ResolveSelectionRangeResponse,
};

verus! {

/// `LyricLabel ↔ LyricLabel` (same verse): the syllables of that verse whose part lies
/// between the two labels' parts and whose measure lies between the least start and the
/// greatest end of the two labels' measure spans. No note cells.
pub open spec fn label_range_outcome(
    lyric_spans: Seq<LyricSpanOut>,
    anchor: VerseMeasureSpan,
    current: VerseMeasureSpan,
) -> Option<(Seq<NoteCellOut>, Seq<LyricCellOut>)> {
    Some(
        (
            seq![],
            lyric_cells_in(
                lyric_spans,
                SpanBox {
                    part_lo: min_of(anchor.part, current.part),
                    part_hi: max_of(anchor.part, current.part),
                    verse_lo: anchor.verse,
                    verse_hi: anchor.verse,
                    measure_lo: min_of(anchor.start, current.start),
                    measure_hi: max_of(anchor.end, current.end),
                    ..full_box()
                },
            ),
        ),
    )
}

/// `Lyric ↔ LyricLabel`: the syllables whose part, verse and measure lie between those
/// of the two sides (the lyric's own measure taken as a span of one); unresolved when
/// the lyric's span is missing. No note cells.
pub open spec fn lyric_label_outcome(
    lyric_spans: Seq<LyricSpanOut>,
    lyric: LyricEndpoint,
    label: VerseMeasureSpan,
) -> Option<(Seq<NoteCellOut>, Seq<LyricCellOut>)> {
    match lyric_measure_of(lyric_spans, lyric.part, lyric.note_id, lyric.verse) {
        None => None,
        Some(m) => Some(
            (
                seq![],
                lyric_cells_in(
                    lyric_spans,
                    SpanBox {
                        part_lo: min_of(lyric.part, label.part),
                        part_hi: max_of(lyric.part, label.part),
                        verse_lo: min_of(lyric.verse, label.verse),
                        verse_hi: max_of(lyric.verse, label.verse),
                        measure_lo: min_of(m, label.start),
                        measure_hi: max_of(m, label.end),
                        ..full_box()
                    },
                ),
            ),
        ),
    }
}

/// The lyric-label rules: `None` for any other pair of elements.
pub open spec fn lyric_label_rule(
    lyric_spans: Seq<LyricSpanOut>,
    anchor: ClickableElementId,
    current: ClickableElementId,
) -> Option<Option<(Seq<NoteCellOut>, Seq<LyricCellOut>)>> {
    match (anchor, current) {
        (
            ClickableElementId::LyricLabel { source_part_index: ap, verse: av, measure_index_start: as_, measure_index_end: ae },
            ClickableElementId::LyricLabel { source_part_index: cp, verse: cv, measure_index_start: cs, measure_index_end: ce },
        ) => if av == cv {
            Some(
                label_range_outcome(
                    lyric_spans,
                    VerseMeasureSpan { part: ap, verse: av, start: as_, end: ae },
                    VerseMeasureSpan { part: cp, verse: cv, start: cs, end: ce },
                ),
            )
        } else {
            None
        },
        (
            ClickableElementId::Lyric { source_part_index: lp, note_id, verse: lv },
            ClickableElementId::LyricLabel { source_part_index: bp, verse: bv, measure_index_start: bs, measure_index_end: be },
        ) => Some(
            lyric_label_outcome(
                lyric_spans,
                LyricEndpoint { part: lp, note_id, verse: lv },
                VerseMeasureSpan { part: bp, verse: bv, start: bs, end: be },
            ),
        ),
        (
            ClickableElementId::LyricLabel { source_part_index: bp, verse: bv, measure_index_start: bs, measure_index_end: be },
            ClickableElementId::Lyric { source_part_index: lp, note_id, verse: lv },
        ) => Some(
            lyric_label_outcome(
                lyric_spans,
                LyricEndpoint { part: lp, note_id, verse: lv },
                VerseMeasureSpan { part: bp, verse: bv, start: bs, end: be },
            ),
        ),
        _ => None,
    }
}

/// `LyricLabel ↔ LyricLabel` (same verse only) and `Lyric ↔ LyricLabel`; `None` for any
/// other pair of elements.
pub fn resolve(
    _note_spans: &[NoteSpanOut],
    lyric_spans: &[LyricSpanOut],
    anchor: &ClickableElementId,
    current: &ClickableElementId,
) -> (r: Option<ResolveSelectionRangeResponse>)
    ensures
        match r {
            Some(resp) => lyric_label_rule(lyric_spans@, *anchor, *current) == Some(response_view(resp)),
            None => lyric_label_rule(lyric_spans@, *anchor, *current) is None,
        },
{
    match (*anchor, *current) {
        (
            ClickableElementId::LyricLabel { source_part_index: ap, verse: av, measure_index_start: as_, measure_index_end: ae },
            ClickableElementId::LyricLabel { source_part_index: cp, verse: cv, measure_index_start: cs, measure_index_end: ce },
        ) => if av == cv {
            Some(
                lyric_label_range(
                    lyric_spans,
                    VerseMeasureSpan { part: ap, verse: av, start: as_, end: ae },
                    VerseMeasureSpan { part: cp, verse: cv, start: cs, end: ce },
                ),
            )
        } else {
            None
        },
        (
            ClickableElementId::Lyric { source_part_index: lp, note_id, verse: lv },
            ClickableElementId::LyricLabel { source_part_index: bp, verse: bv, measure_index_start: bs, measure_index_end: be },
        ) => Some(
            lyric_lyric_label_range(
                lyric_spans,
                LyricEndpoint { part: lp, note_id, verse: lv },
                VerseMeasureSpan { part: bp, verse: bv, start: bs, end: be },
            ),
        ),
        (
            ClickableElementId::LyricLabel { source_part_index: bp, verse: bv, measure_index_start: bs, measure_index_end: be },
            ClickableElementId::Lyric { source_part_index: lp, note_id, verse: lv },
        ) => Some(
            lyric_lyric_label_range(
                lyric_spans,
                LyricEndpoint { part: lp, note_id, verse: lv },
                VerseMeasureSpan { part: bp, verse: bv, start: bs, end: be },
            ),
        ),
        _ => None,
    }
}

fn lyric_label_range(
    lyric_spans: &[LyricSpanOut],
    anchor: VerseMeasureSpan,
    current: VerseMeasureSpan,
) -> (r: ResolveSelectionRangeResponse)
    ensures
        response_view(r) == label_range_outcome(lyric_spans@, anchor, current),
{
    let full = full_span_box();
    let lyric_cells = collect_lyric_cells(
        lyric_spans,
        SpanBox {
            part_lo: min_usize(anchor.part, current.part),
            part_hi: max_usize(anchor.part, current.part),
            verse_lo: anchor.verse,
            verse_hi: anchor.verse,
            measure_lo: min_usize(anchor.start, current.start),
            measure_hi: max_usize(anchor.end, current.end),
            ..full
        },
    );
    let note_cells: Vec<NoteCellOut> = Vec::new();
    proof {
        assert(note_cells@ == Seq::<NoteCellOut>::empty());
    }
    ResolveSelectionRangeResponse::Resolved { note_cells, lyric_cells }
}

fn lyric_lyric_label_range(
    lyric_spans: &[LyricSpanOut],
    lyric: LyricEndpoint,
    label: VerseMeasureSpan,
) -> (r: ResolveSelectionRangeResponse)
    ensures
        response_view(r) == lyric_label_outcome(lyric_spans@, lyric, label),
{
    let lyric_measure = match lyric_measure_index(lyric_spans, lyric.part, lyric.note_id, lyric.verse) {
        Some(m) => m,
        None => {
            return ResolveSelectionRangeResponse::Unresolved;
        },
    };
    let full = full_span_box();
    let lyric_cells = collect_lyric_cells(
        lyric_spans,
        SpanBox {
            part_lo: min_usize(lyric.part, label.part),
            part_hi: max_usize(lyric.part, label.part),
            verse_lo: min_usize(lyric.verse, label.verse),
            verse_hi: max_usize(lyric.verse, label.verse),
            measure_lo: min_usize(lyric_measure, label.start),
            measure_hi: max_usize(lyric_measure, label.end),
            ..full
        },
    );
    let note_cells: Vec<NoteCellOut> = Vec::new();
    proof {
        assert(note_cells@ == Seq::<NoteCellOut>::empty());
    }
    ResolveSelectionRangeResponse::Resolved { note_cells, lyric_cells }
}

} // verus!
