//! Resolving a range selection between two clicked elements into the note and lyric
//! cells it covers.
pub mod helpers;
pub mod lyric_label;
pub mod lyric_lyric;
pub mod note_lyric;
pub mod types;

use vstd::prelude::*;

use lyric_label::lyric_label_rule;
use lyric_lyric::lyric_lyric_rule;
use note_lyric::note_lyric_outcome;
use types::{
    response_view, ClickableElementId, LyricCellOut, LyricSpanOut, NoteCellOut, NoteSpanOut,
    ResolveSelectionRangeResponse,
};

verus! {

/// The cells a range between two clicked elements covers: by the `Note ↔ Lyric` rule,
/// else the lyric-label rules, else the `Lyric ↔ Lyric` rule; `None` (unresolved) for a
/// pair that no rule takes, or where a rule cannot find an endpoint's span.
pub open spec fn selection_outcome(
    note_spans: Seq<NoteSpanOut>,
    lyric_spans: Seq<LyricSpanOut>,
    anchor: ClickableElementId,
    current: ClickableElementId,
) -> Option<(Seq<NoteCellOut>, Seq<LyricCellOut>)> {
    match note_lyric_outcome(note_spans, lyric_spans, anchor, current) {
        Some(o) => o,
        None => match lyric_label_rule(lyric_spans, anchor, current) {
            Some(o) => o,
            None => match lyric_lyric_rule(lyric_spans, anchor, current) {
                Some(o) => o,
                None => None,
            },
        },
    }
}

/// Resolve a range selection from `anchor` to `current` into the note and lyric cells
/// it covers.
pub fn resolve_selection_range_response(
    note_spans: &[NoteSpanOut],
    lyric_spans: &[LyricSpanOut],
    anchor: &ClickableElementId,
    current: &ClickableElementId,
) -> (r: ResolveSelectionRangeResponse)
    ensures
        response_view(r) == selection_outcome(note_spans@, lyric_spans@, *anchor, *current),
{
    if let Some(r) = note_lyric::resolve(note_spans, lyric_spans, anchor, current) {
        return r;
    }
    if let Some(r) = lyric_label::resolve(note_spans, lyric_spans, anchor, current) {
        return r;
    }
    if let Some(r) = lyric_lyric::resolve(note_spans, lyric_spans, anchor, current) {
        return r;
    }
    ResolveSelectionRangeResponse::Unresolved
}

/// A range selection does not depend on which end was clicked first: the range from
/// `anchor` to `current` covers the same cells as the range from `current` to `anchor`.
pub proof fn selection_is_symmetric(
    note_spans: Seq<NoteSpanOut>,
    lyric_spans: Seq<LyricSpanOut>,
    anchor: ClickableElementId,
    current: ClickableElementId,
)
    ensures
        selection_outcome(note_spans, lyric_spans, anchor, current) == selection_outcome(
            note_spans,
            lyric_spans,
            current,
            anchor,
        ),
{
}

} // verus!
