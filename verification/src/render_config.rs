use vstd::prelude::*;

verus! {

/// Rendering settings drawn from the score's metadata.
#[derive(Debug, Clone, Copy, PartialEq, Eq, Structural)]
pub struct RenderConfig {
    /// Height of a note row, in points.
    pub row_height: u32,
    /// Width of the part-label column, in points.
    pub label_width: u32,
    /// Width of a note digit, in points.
    pub note_number_width: u32,
    /// The most columns a system may take.
    pub max_columns: u32,
}

} // verus!
