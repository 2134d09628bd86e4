use vstd::prelude::*;

use crate::ast::parsed::JianPuPitch;

verus! {

/// One measure, compiled: a row per rendered part, and the decorations above it.
pub struct MeasureBlock {
    pub rows: Vec<MeasureRow>,
    pub decorations: Vec<Decoration>,
}

pub struct MeasureRow {
    pub id: RowId,
    pub label: String,
    pub elements: Vec<ColumnElement>,
}

/// Identifies the part a row belongs to across measures.
pub struct RowId(pub String);

/// Something drawn at a column of a row; columns count quarter-beats from the bar start.
pub struct ColumnElement {
    pub column: u32,
    pub content: ElementContent,
}

pub enum ElementContent {
    NoteHead { pitch: JianPuPitch, octave: i8, dotted: bool },
    Rest { dotted: bool },
    ChordSymbol(String),
    Underline { from_column: u32, to_column: u32, last_head_column: u32, level: u32 },
    BarLine,
    /// Visual dash rendered after a note head for each extra beat of duration (e.g. `1-`).
    NoteDash,
    Lyric(String),
}

/// The full logical extent of one slur or tie arc across measures.
/// Resolved into grid arc elements by the layout stage.
#[derive(Debug, Clone, Copy, PartialEq, Eq, Structural)]
pub struct SlurSpan {
    pub part_index: usize,
    /// 0-indexed global measure index of the opening note.
    pub from_measure: usize,
    /// Measure-relative column of the opening note.
    pub from_column: u32,
    pub to_measure: usize,
    /// Measure-relative column of the closing note.
    pub to_column: u32,
}

/// Return value of `compiler::compile`.
pub struct CompileResult {
    pub blocks: Vec<MeasureBlock>,
    pub slur_spans: Vec<SlurSpan>,
}

pub enum Decoration {
    Bpm(u32),
    TimeSignature { numerator: u32, denominator: u32 },
    SectionLabel(String),
    BarNumber(u32),
}

/// An element's content as plain values.
pub enum ContentView {
    NoteHead { pitch: JianPuPitch, octave: i8, dotted: bool },
    Rest { dotted: bool },
    ChordSymbol(Seq<char>),
    Underline { from_column: u32, to_column: u32, last_head_column: u32, level: u32 },
    BarLine,
    NoteDash,
    Lyric(Seq<char>),
}

pub open spec fn content_view(c: ElementContent) -> ContentView {
    match c {
        ElementContent::NoteHead { pitch, octave, dotted } => ContentView::NoteHead {
            pitch,
            octave,
            dotted,
        },
        ElementContent::Rest { dotted } => ContentView::Rest { dotted },
        ElementContent::ChordSymbol(s) => ContentView::ChordSymbol(s@),
        ElementContent::Underline { from_column, to_column, last_head_column, level } =>
            ContentView::Underline { from_column, to_column, last_head_column, level },
        ElementContent::BarLine => ContentView::BarLine,
        ElementContent::NoteDash => ContentView::NoteDash,
        ElementContent::Lyric(s) => ContentView::Lyric(s@),
    }
}

pub open spec fn element_view(e: ColumnElement) -> (u32, ContentView) {
    (e.column, content_view(e.content))
}

pub open spec fn elements_view(s: Seq<ColumnElement>) -> Seq<(u32, ContentView)> {
    s.map_values(|e: ColumnElement| element_view(e))
}

/// A decoration as plain values.
pub enum DecorationView {
    Bpm(u32),
    TimeSignature { numerator: u32, denominator: u32 },
    SectionLabel(Seq<char>),
    BarNumber(u32),
}

pub open spec fn decoration_view(d: Decoration) -> DecorationView {
    match d {
        Decoration::Bpm(b) => DecorationView::Bpm(b),
        Decoration::TimeSignature { numerator, denominator } => DecorationView::TimeSignature {
            numerator,
            denominator,
        },
        Decoration::SectionLabel(s) => DecorationView::SectionLabel(s@),
        Decoration::BarNumber(n) => DecorationView::BarNumber(n),
    }
}

/// A row as plain values: its id, its label and its elements.
pub open spec fn row_view(r: MeasureRow) -> (Seq<char>, Seq<char>, Seq<(u32, ContentView)>) {
    (r.id.0@, r.label@, elements_view(r.elements@))
}

/// A block as plain values: its rows and its decorations.
pub open spec fn block_view(b: MeasureBlock) -> (
    Seq<(Seq<char>, Seq<char>, Seq<(u32, ContentView)>)>,
    Seq<DecorationView>,
) {
    (
        b.rows@.map_values(|r: MeasureRow| row_view(r)),
        b.decorations@.map_values(|d: Decoration| decoration_view(d)),
    )
}

} // verus!
