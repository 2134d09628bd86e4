use vstd::prelude::*;

use super::{measure_column_width, measure_fits, measure_width};
use crate::ast::grouped::MultiPartMeasure;

verus! {

/// The measure shows a time signature or tempo label.
pub open spec fn has_directive_labels(m: MultiPartMeasure) -> bool {
    m.time_signature is Some || m.bpm is Some
}

pub fn measure_has_directive_labels(measure: &MultiPartMeasure) -> (b: bool)
    ensures
        b == has_directive_labels(*measure),
{
    measure.time_signature.is_some() || measure.bpm.is_some()
}

/// Which parts of a measure render: true = ditto (suppressed), false = active.
pub open spec fn ditto_pattern(m: MultiPartMeasure) -> Seq<bool> {
    Seq::new(m.parts@.len(), |i: int| m.parts@[i] is Ditto)
}

pub fn measure_ditto_pattern(measure: &MultiPartMeasure) -> (p: Vec<bool>)
    ensures
        p@ == ditto_pattern(*measure),
{
    let mut p: Vec<bool> = Vec::new();
    let mut i: usize = 0;
    while i < measure.parts.len()
        invariant
            i <= measure.parts@.len(),
            p@ == ditto_pattern(*measure).take(i as int),
        decreases measure.parts@.len() - i,
    {
        p.push(measure.parts[i].is_ditto());
        proof {
            assert(ditto_pattern(*measure).take(i + 1) == ditto_pattern(*measure).take(i as int).push(
                measure.parts@[i as int] is Ditto,
            ));
        }
        i += 1;
    }
    proof {
        assert(ditto_pattern(*measure).take(i as int) == ditto_pattern(*measure));
    }
    p
}

/// `a + b`, or `u32::MAX` where that overflows.
pub open spec fn saturating(a: int, b: int) -> int {
    if a + b > u32::MAX {
        u32::MAX as int
    } else {
        a + b
    }
}

/// Walking the line from measure `i` at column `col`: whether a measure with a
/// directive label comes before one with another ditto pattern than `pattern` or one
/// that no longer fits in `columns_per_row`.
pub open spec fn line_walk(
    measures: Seq<MultiPartMeasure>,
    i: int,
    col: int,
    pattern: Seq<bool>,
    columns_per_row: u32,
) -> bool
    decreases measures.len() - i,
{
    if i < 0 || i >= measures.len() {
        false
    } else if ditto_pattern(measures[i]) != pattern {
        false
    } else if has_directive_labels(measures[i]) {
        true
    } else if saturating(col, measure_width(measures[i])) > columns_per_row {
        false
    } else {
        line_walk(measures, i + 1, saturating(col, measure_width(measures[i])), pattern, columns_per_row)
    }
}

/// Whether the line that starts at measure `start_idx` (at column `line_start_col`)
/// shows any directive label.
pub open spec fn line_has_labels(
    measures: Seq<MultiPartMeasure>,
    start_idx: int,
    columns_per_row: u32,
    line_start_col: u32,
) -> bool {
    0 <= start_idx < measures.len() && line_walk(
        measures,
        start_idx,
        line_start_col as int,
        ditto_pattern(measures[start_idx]),
        columns_per_row,
    )
}

fn same_pattern(a: &Vec<bool>, b: &Vec<bool>) -> (r: bool)
    ensures
        r == (a@ == b@),
{
    if a.len() != b.len() {
        return false;
    }
    let mut i: usize = 0;
    while i < a.len()
        invariant
            i <= a@.len() == b@.len(),
            forall|k: int| 0 <= k < i ==> a@[k] == b@[k],
        decreases a@.len() - i,
    {
        if a[i] != b[i] {
            return false;
        }
        i += 1;
    }
    proof {
        assert(a@ == b@);
    }
    true
}

pub fn line_has_any_directive_labels(
    measures: &[MultiPartMeasure],
    start_idx: usize,
    columns_per_row: u32,
    line_start_col: u32,
) -> (b: bool)
    requires
        forall|k: int| 0 <= k < measures@.len() ==> measure_fits(#[trigger] measures@[k]),
    ensures
        b == line_has_labels(measures@, start_idx as int, columns_per_row, line_start_col),
{
    if start_idx >= measures.len() {
        return false;
    }
    let line_pattern = measure_ditto_pattern(&measures[start_idx]);
    let mut col = line_start_col;
    let mut i = start_idx;
    while i < measures.len()
        invariant
            start_idx <= i <= measures@.len(),
            start_idx < measures@.len(),
            forall|k: int| 0 <= k < measures@.len() ==> measure_fits(#[trigger] measures@[k]),
            line_pattern@ == ditto_pattern(measures@[start_idx as int]),
            line_has_labels(measures@, start_idx as int, columns_per_row, line_start_col) == line_walk(
                measures@,
                i as int,
                col as int,
                line_pattern@,
                columns_per_row,
            ),
        decreases measures@.len() - i,
    {
        let measure = &measures[i];
        let pattern = measure_ditto_pattern(measure);
        if !same_pattern(&line_pattern, &pattern) {
            return false;
        }
        if measure_has_directive_labels(measure) {
            return true;
        }
        assert(measure_fits(measures@[i as int]));
        let width = measure_column_width(measure);
        let next = col.saturating_add(width);
        if next > columns_per_row {
            return false;
        }
        col = next;
        i += 1;
    }
    false
}

} // verus!
