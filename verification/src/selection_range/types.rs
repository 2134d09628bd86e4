use vstd::prelude::*;

verus! {

/// The source span of one note event, by part, note id and measure.
#[derive(Debug, Clone, Copy, PartialEq, Eq, Structural)]
pub struct NoteSpanOut {
    pub source_part_index: usize,
    pub note_id: usize,
    pub measure_index: usize,
    pub start: usize,
    pub end: usize,
}

/// The source span of one lyric syllable, by part, note id, verse and measure.
#[derive(Debug, Clone, Copy, PartialEq, Eq, Structural)]
pub struct LyricSpanOut {
    pub source_part_index: usize,
    pub note_id: usize,
    pub verse: usize,
    pub measure_index: usize,
    pub start: usize,
    pub end: usize,
}

/// An element of the rendered score that a click can land on.
#[derive(Debug, Clone, Copy, PartialEq, Eq, Structural)]
pub enum ClickableElementId {
    Note { source_part_index: usize, note_id: usize },
    Lyric { source_part_index: usize, note_id: usize, verse: usize },
    LyricLabel {
        source_part_index: usize,
        verse: usize,
        measure_index_start: usize,
        measure_index_end: usize,
    },
}

/// A selected note cell.
#[derive(Debug, Clone, Copy, PartialEq, Eq, Structural)]
pub struct NoteCellOut {
    pub source_part_index: usize,
    pub note_id: usize,
}

/// A selected lyric cell.
#[derive(Debug, Clone, Copy, PartialEq, Eq, Structural)]
pub struct LyricCellOut {
    pub source_part_index: usize,
    pub note_id: usize,
    pub verse: usize,
}

/// The cells that a range selection covers (`Resolved`), or `Unresolved` where an
/// endpoint cannot be found.
#[derive(Debug, Clone, PartialEq, Eq)]
pub enum ResolveSelectionRangeResponse {
    Resolved { note_cells: Vec<NoteCellOut>, lyric_cells: Vec<LyricCellOut> },
    Unresolved,
}

/// A response as plain values: the note and lyric cells, or `None` when unresolved.
pub open spec fn response_view(r: ResolveSelectionRangeResponse) -> Option<(Seq<NoteCellOut>, Seq<LyricCellOut>)> {
    match r {
        ResolveSelectionRangeResponse::Resolved { note_cells, lyric_cells } => Some(
            (note_cells@, lyric_cells@),
        ),
        ResolveSelectionRangeResponse::Unresolved => None,
    }
}

} // verus!
