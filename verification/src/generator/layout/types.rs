use vstd::prelude::*;

use crate::generator::ast::parsed::JianPuPitch;

verus! {

/// The page number shown at the foot of a page, out of the total.
#[derive(Debug, Clone, Copy, PartialEq, Eq, Structural)]
pub struct Footer {
    pub page: u32,
    pub total: u32,
}

/// A cell of the layout grid.
#[derive(Debug, Clone, Copy, PartialEq, Eq, Structural)]
pub struct GridPosition {
    pub column: u32,
    pub row: u32,
}

#[derive(Debug, Clone, Copy, PartialEq, Eq, Structural)]
pub enum HorizontalAlignment {
    Left,
    Center,
    Right,
}

#[derive(Debug, Clone, Copy, PartialEq, Eq, Structural)]
pub enum VerticalAlignment {
    Top,
    Center,
    Bottom,
}

/// The column range covered by one underline level.
#[derive(Debug, Clone, Copy, PartialEq, Eq, Structural)]
pub struct UnderlineSpan {
    pub from_column: u32,
    pub to_column: u32,
}

/// What a grid cell shows.
pub enum GridContent {
    NoteHead { pitch: JianPuPitch, octave: i8 },
    Rest,
    Lyric { text: String, is_cjk: bool },
    TieOrSlurCurve { from_column: u32, to_column: u32 },
    /// Underlines under a short note: two for a quarter-beat, one for a half-beat.
    DurationUnderlines { count: u32 },
    /// Dots for a note one or more octaves below the default octave.
    LowerOctaveDots { count: u32 },
    BarLine,
    Extension,
}

/// A grid content as plain values.
pub enum ContentView {
    NoteHead { pitch: JianPuPitch, octave: i8 },
    Rest,
    Lyric { text: Seq<char>, is_cjk: bool },
    TieOrSlurCurve { from_column: u32, to_column: u32 },
    DurationUnderlines { count: u32 },
    LowerOctaveDots { count: u32 },
    BarLine,
    Extension,
}

pub open spec fn content_view(c: GridContent) -> ContentView {
    match c {
        GridContent::NoteHead { pitch, octave } => ContentView::NoteHead { pitch, octave },
        GridContent::Rest => ContentView::Rest,
        GridContent::Lyric { text, is_cjk } => ContentView::Lyric { text: text@, is_cjk },
        GridContent::TieOrSlurCurve { from_column, to_column } => ContentView::TieOrSlurCurve {
            from_column,
            to_column,
        },
        GridContent::DurationUnderlines { count } => ContentView::DurationUnderlines { count },
        GridContent::LowerOctaveDots { count } => ContentView::LowerOctaveDots { count },
        GridContent::BarLine => ContentView::BarLine,
        GridContent::Extension => ContentView::Extension,
    }
}

/// One element of the grid: where it stands, how it is aligned in its cell, and what it
/// shows.
pub struct GridElement {
    pub position: GridPosition,
    pub horizontal_alignment: HorizontalAlignment,
    pub vertical_alignment: VerticalAlignment,
    pub content: GridContent,
}

/// An element as plain values: column, row, alignments and content.
pub type ElementView = (int, int, HorizontalAlignment, VerticalAlignment, ContentView);

pub open spec fn element_view(e: GridElement) -> ElementView {
    (
        e.position.column as int,
        e.position.row as int,
        e.horizontal_alignment,
        e.vertical_alignment,
        content_view(e.content),
    )
}

pub open spec fn elements_view(es: Seq<GridElement>) -> Seq<ElementView> {
    es.map_values(|e: GridElement| element_view(e))
}

/// A band of rows that holds one line of music: its elements and its height in rows.
pub struct RowGroup {
    pub elements: Vec<GridElement>,
    pub height_in_rows: u32,
}

pub open spec fn row_group_view(g: RowGroup) -> (Seq<ElementView>, u32) {
    (elements_view(g.elements@), g.height_in_rows)
}

/// A page: its row groups, top to bottom.
pub struct Page {
    pub row_groups: Vec<RowGroup>,
}

pub open spec fn page_view(p: Page) -> Seq<(Seq<ElementView>, u32)> {
    p.row_groups@.map_values(|g: RowGroup| row_group_view(g))
}

pub open spec fn pages_view(ps: Seq<Page>) -> Seq<Seq<(Seq<ElementView>, u32)>> {
    ps.map_values(|p: Page| page_view(p))
}

} // verus!
