//! Row heights and directive tests used when placing systems on a page.
pub mod types;

use vstd::prelude::*;

use crate::compiler::types::{Decoration, ElementContent, MeasureBlock, MeasureRow};
use crate::grid_layout::layout::has_lyric_element;

verus! {

/// A CJK unified ideograph (U+4E00 to U+9FFF).
pub open spec fn is_cjk_char(c: char) -> bool {
    0x4E00 <= (c as u32) <= 0x9FFF
}

/// Whether the text holds a CJK unified ideograph.
pub fn is_cjk(s: &str) -> (b: bool)
    ensures
        b == exists|i: int| 0 <= i < s@.len() && is_cjk_char(#[trigger] s@[i]),
{
    let n = s.unicode_len();
    let mut i: usize = 0;
    while i < n
        invariant
            i <= n == s@.len(),
            forall|k: int| 0 <= k < i ==> !is_cjk_char(#[trigger] s@[k]),
        decreases n - i,
    {
        let c = s.get_char(i);
        let code = c as u32;
        if 0x4E00 <= code && code <= 0x9FFF {
            assert(is_cjk_char(s@[i as int]));
            return true;
        }
        i += 1;
    }
    false
}

/// The row holds a note head.
pub open spec fn has_note_head(row: MeasureRow) -> bool {
    exists|i: int| 0 <= i < row.elements@.len() && (#[trigger] row.elements@[i]).content is NoteHead
}

/// The row holds a rest.
pub open spec fn has_rest(row: MeasureRow) -> bool {
    exists|i: int| 0 <= i < row.elements@.len() && (#[trigger] row.elements@[i]).content is Rest
}

/// Row units a part row takes: 4 with lyrics, 2 without notes or rests, 3 otherwise.
pub open spec fn row_height_of(row: MeasureRow) -> u32 {
    if has_lyric_element(row) {
        4
    } else if !has_note_head(row) && !has_rest(row) {
        2
    } else {
        3
    }
}

/// Infer the row height (in row-units) for a single MeasureRow based on its elements.
pub fn infer_row_height(row: &MeasureRow) -> (h: u32)
    ensures
        h == row_height_of(*row),
{
    if crate::grid_layout::layout::has_lyrics(row) {
        return 4;
    }
    let mut has_note_head_found = false;
    let mut has_rest_found = false;
    let mut i: usize = 0;
    while i < row.elements.len()
        invariant
            i <= row.elements@.len(),
            has_note_head_found == exists|k: int| 0 <= k < i && (#[trigger] row.elements@[k]).content is NoteHead,
            has_rest_found == exists|k: int| 0 <= k < i && (#[trigger] row.elements@[k]).content is Rest,
        decreases row.elements@.len() - i,
    {
        match &row.elements[i].content {
            ElementContent::NoteHead { .. } => {
                has_note_head_found = true;
            },
            ElementContent::Rest { .. } => {
                has_rest_found = true;
            },
            _ => {},
        }
        i += 1;
    }
    if !has_note_head_found && !has_rest_found {
        return 2;
    }
    3
}

/// The block carries a tempo or time signature decoration.
pub open spec fn has_directive_spec(block: MeasureBlock) -> bool {
    exists|i: int|
        0 <= i < block.decorations@.len() && ((#[trigger] block.decorations@[i]) is Bpm
            || block.decorations@[i] is TimeSignature)
}

pub fn has_directive(block: &MeasureBlock) -> (b: bool)
    ensures
        b == has_directive_spec(*block),
{
    let mut i: usize = 0;
    while i < block.decorations.len()
        invariant
            i <= block.decorations@.len(),
            forall|k: int|
                0 <= k < i ==> !((#[trigger] block.decorations@[k]) is Bpm
                    || block.decorations@[k] is TimeSignature),
        decreases block.decorations@.len() - i,
    {
        match &block.decorations[i] {
            Decoration::Bpm(_) => {
                return true;
            },
            Decoration::TimeSignature { .. } => {
                return true;
            },
            _ => {},
        }
        i += 1;
    }
    false
}

/// The row units of the first `n` rows.
pub open spec fn rows_height(rows: Seq<MeasureRow>, n: int) -> int
    decreases n,
{
    if n <= 0 {
        0
    } else {
        rows_height(rows, n - 1) + row_height_of(rows[n - 1])
    }
}

proof fn lemma_rows_height_bound(rows: Seq<MeasureRow>, n: int)
    requires
        0 <= n <= rows.len(),
    ensures
        0 <= rows_height(rows, n) <= 4 * n,
    decreases n,
{
    if n > 0 {
        lemma_rows_height_bound(rows, n - 1);
    }
}

/// Total row-units for a system (sum over all parts in the given block).
pub fn system_row_height(block: &MeasureBlock) -> (h: u32)
    requires
        4 * block.rows@.len() <= u32::MAX,
    ensures
        h == rows_height(block.rows@, block.rows@.len() as int),
{
    let mut total: u32 = 0;
    let mut i: usize = 0;
    while i < block.rows.len()
        invariant
            i <= block.rows@.len(),
            4 * block.rows@.len() <= u32::MAX,
            total == rows_height(block.rows@, i as int),
        decreases block.rows@.len() - i,
    {
        proof {
            lemma_rows_height_bound(block.rows@, i as int);
        }
        total = total + infer_row_height(&block.rows[i]);
        i += 1;
    }
    total
}

} // verus!
