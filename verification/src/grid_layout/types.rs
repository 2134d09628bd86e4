use vstd::prelude::*;

verus! {

/// Bold, italic and underline settings of a piece of text.
#[derive(Debug, Clone, Copy, Default, PartialEq, Eq, Structural)]
pub struct TextStyleFlags {
    pub bold: bool,
    pub italic: bool,
    pub underline: bool,
}

#[derive(Debug, Clone, Copy, PartialEq, Eq, Structural)]
pub enum HAlign {
    Start,
    Center,
    End,
}

#[derive(Debug, Clone, Copy, PartialEq, Eq, Structural)]
pub enum VAlign {
    Top,
    Center,
    Bottom,
}

/// A part named in the header's part list.
#[derive(Debug, Clone)]
pub struct PartListEntry {
    pub abbreviation: String,
    pub display_name: String,
}

/// An inclusive range of measure indices.
#[derive(Debug, Clone, Copy, PartialEq, Eq, Structural)]
pub struct MeasureRange {
    pub start: usize,
    pub end: usize,
}

/// Where a verse label sits and the measures of the system it labels.
#[derive(Debug, Clone, Copy, PartialEq, Eq, Structural)]
pub struct LyricLabelClickTarget {
    pub row: usize,
    pub source_part_index: usize,
    pub verse: usize,
    pub measure_index_start: usize,
    pub measure_index_end: usize,
}

} // verus!
