use vstd::prelude::*;

use crate::ast::parsed::JianPuPitch;

verus! {

/// The title block of a page.
#[derive(Debug, Clone)]
pub struct Header {
    pub title: String,
    pub subtitle: Option<String>,
    pub author: String,
}

/// The page number shown at the foot of a page, out of the total.
#[derive(Debug, Clone, Copy, PartialEq, Eq, Structural)]
pub struct Footer {
    pub page: u32,
    pub total: u32,
}

/// A cell of the layout grid.
#[derive(Debug, Clone, Copy, PartialEq, Eq, Structural)]
pub struct GridPosition {
    pub column: u32,
    pub row: u32,
}

#[derive(Debug, Clone, Copy, PartialEq, Eq, Structural)]
pub enum HorizontalAlignment {
    Left,
    Center,
    Right,
}

#[derive(Debug, Clone, Copy, PartialEq, Eq, Structural)]
pub enum VerticalAlignment {
    Top,
    Center,
    Bottom,
}

/// Something placed on the grid.
#[derive(Debug, Clone)]
pub struct GridElement {
    pub position: GridPosition,
    pub horizontal_alignment: HorizontalAlignment,
    pub vertical_alignment: VerticalAlignment,
    pub content: GridContent,
}

/// The column range covered by one underline level.
#[derive(Debug, Clone, Copy, PartialEq, Eq, Structural)]
pub struct UnderlineSpan {
    pub from_column: u32,
    /// Exclusive end (last note head column + last note duration).
    pub to_column: u32,
    /// Column of the last note head in this span.
    pub last_head_column: u32,
}

#[derive(Debug, Clone)]
pub enum GridContent {
    NoteHead { pitch: JianPuPitch, octave: i8 },
    Rest,
    Lyric { text: String, is_cjk: bool },
    TieOrSlurCurve { from_column: u32, to_column: u32 },
    /// Horizontal underlines for a beam group: `levels[0]` spans all its notes, each
    /// further entry one maximal run of notes with two underlines.
    DurationUnderlines { levels: Vec<UnderlineSpan> },
    /// Dots for a note one or more octaves below the default octave.
    LowerOctaveDots { count: u32 },
    BarLine { height_in_rows: u32 },
    Extension,
    TimeSignatureLabel { numerator: u8, denominator: u8 },
    BpmLabel { bpm: u32 },
    PartLabel { text: String },
    HorizontalBar { from_column: u32, to_column: u32 },
    BarNumber { number: u32 },
    SectionLabel { text: String },
}

/// Grid content as plain values.
pub enum GridContentView {
    NoteHead { pitch: JianPuPitch, octave: i8 },
    Rest,
    Lyric { text: Seq<char>, is_cjk: bool },
    TieOrSlurCurve { from_column: u32, to_column: u32 },
    DurationUnderlines { levels: Seq<UnderlineSpan> },
    LowerOctaveDots { count: u32 },
    BarLine { height_in_rows: u32 },
    Extension,
    TimeSignatureLabel { numerator: u8, denominator: u8 },
    BpmLabel { bpm: u32 },
    PartLabel { text: Seq<char> },
    HorizontalBar { from_column: u32, to_column: u32 },
    BarNumber { number: u32 },
    SectionLabel { text: Seq<char> },
}

pub open spec fn grid_content_view(c: GridContent) -> GridContentView {
    match c {
        GridContent::NoteHead { pitch, octave } => GridContentView::NoteHead { pitch, octave },
        GridContent::Rest => GridContentView::Rest,
        GridContent::Lyric { text, is_cjk } => GridContentView::Lyric { text: text@, is_cjk },
        GridContent::TieOrSlurCurve { from_column, to_column } => GridContentView::TieOrSlurCurve {
            from_column,
            to_column,
        },
        GridContent::DurationUnderlines { levels } => GridContentView::DurationUnderlines {
            levels: levels@,
        },
        GridContent::LowerOctaveDots { count } => GridContentView::LowerOctaveDots { count },
        GridContent::BarLine { height_in_rows } => GridContentView::BarLine { height_in_rows },
        GridContent::Extension => GridContentView::Extension,
        GridContent::TimeSignatureLabel { numerator, denominator } =>
            GridContentView::TimeSignatureLabel { numerator, denominator },
        GridContent::BpmLabel { bpm } => GridContentView::BpmLabel { bpm },
        GridContent::PartLabel { text } => GridContentView::PartLabel { text: text@ },
        GridContent::HorizontalBar { from_column, to_column } => GridContentView::HorizontalBar {
            from_column,
            to_column,
        },
        GridContent::BarNumber { number } => GridContentView::BarNumber { number },
        GridContent::SectionLabel { text } => GridContentView::SectionLabel { text: text@ },
    }
}

/// An element as plain values.
pub open spec fn grid_element_view(e: GridElement) -> (
    GridPosition,
    HorizontalAlignment,
    VerticalAlignment,
    GridContentView,
) {
    (e.position, e.horizontal_alignment, e.vertical_alignment, grid_content_view(e.content))
}

/// The plain values of a run of elements.
pub open spec fn grid_elements_view(s: Seq<GridElement>) -> Seq<
    (GridPosition, HorizontalAlignment, VerticalAlignment, GridContentView),
> {
    Seq::new(s.len(), |i: int| grid_element_view(s[i]))
}

} // verus!
