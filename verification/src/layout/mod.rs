//! The grid layout of a score: measures placed column by column, with their underlines
//! and tie and slur arcs.
pub mod layout_engine;
pub mod types;

use vstd::prelude::*;

use crate::ast::grouped::{
    chord_symbol_text, row_slice, GroupedChordNote, MultiPartMeasure, NoteEvent, PartRow, PartSlice,
};
use crate::ast::parsed::{Extension, JianPuPitch, PartKind, TriadQuality};
use crate::compiler::types::{content_view, ContentView};
use crate::compiler::{beam_fits, underline_elements, BeamEntry};
use crate::grouper::sum_durations;
use types::{
    grid_elements_view, GridContent, GridContentView, GridElement, GridPosition,
    HorizontalAlignment, UnderlineSpan, VerticalAlignment,
};

verus! {

/// What a note of a tie/slur chain sounds: two notes tie when their keys are equal.
#[derive(Debug, Clone, Copy, PartialEq, Eq, Structural)]
pub enum SlurKey {
    Pitch(JianPuPitch),
    Chord {
        degree: JianPuPitch,
        triad: TriadQuality,
        extension: Option<Extension>,
        bass_degree: Option<JianPuPitch>,
    },
}

impl SlurKey {
    /// The key of a chord: its degree, triad, extension and bass degree.
    pub fn from_chord(chord: &GroupedChordNote) -> (k: Self)
        ensures
            k == (SlurKey::Chord {
                degree: chord.degree,
                triad: chord.triad,
                extension: chord.extension,
                bass_degree: match chord.bass {
                    Some(b) => Some(b.degree),
                    None => None,
                },
            }),
    {
        SlurKey::Chord {
            degree: chord.degree,
            triad: chord.triad,
            extension: chord.extension,
            bass_degree: match chord.bass {
                Some(b) => Some(b.degree),
                None => None,
            },
        }
    }
}

/// An element as plain values.
pub type ElemView = (GridPosition, HorizontalAlignment, VerticalAlignment, GridContentView);

/// The underline spans of a beam group: one under the whole group, then one under each
/// run of sixteenths.
pub open spec fn underline_spans(buf: Seq<BeamEntry>) -> Seq<UnderlineSpan> {
    Seq::new(
        underline_elements(buf).len(),
        |i: int|
            match underline_elements(buf)[i].1 {
                ContentView::Underline { from_column, to_column, last_head_column, .. } => UnderlineSpan {
                    from_column,
                    to_column,
                    last_head_column,
                },
                _ => UnderlineSpan { from_column: 0, to_column: 0, last_head_column: 0 },
            },
    )
}

/// The underline levels of a beam group; see `underline_spans`.
pub fn compute_underline_levels(buffer: &[BeamEntry]) -> (r: Vec<UnderlineSpan>)
    requires
        beam_fits(buffer@, u32::MAX as int),
    ensures
        r@ == underline_spans(buffer@),
{
    let elems = crate::compiler::compute_underline_levels(buffer);
    let mut r: Vec<UnderlineSpan> = Vec::new();
    let mut i: usize = 0;
    while i < elems.len()
        invariant
            i <= elems@.len(),
            crate::compiler::types::elements_view(elems@) == underline_elements(buffer@),
            r@.len() == i,
            forall|k: int| 0 <= k < i ==> r@[k] == #[trigger] underline_spans(buffer@)[k],
        decreases elems@.len() - i,
    {
        proof {
            assert(crate::compiler::types::elements_view(elems@)[i as int] == crate::compiler::types::element_view(
                elems@[i as int],
            ));
        }
        let span = match &elems[i].content {
            crate::compiler::types::ElementContent::Underline { from_column, to_column, last_head_column, .. } =>
                UnderlineSpan {
                from_column: *from_column,
                to_column: *to_column,
                last_head_column: *last_head_column,
            },
            _ => UnderlineSpan { from_column: 0, to_column: 0, last_head_column: 0 },
        };
        r.push(span);
        i += 1;
    }
    proof {
        assert(r@ == underline_spans(buffer@));
    }
    r
}

/// The element that draws a beam group's underlines, under its first note.
pub open spec fn underlines_element(buf: Seq<BeamEntry>, row_offset: u32) -> ElemView {
    (
        GridPosition { column: buf[0].column, row: (row_offset + 2) as u32 },
        HorizontalAlignment::Left,
        VerticalAlignment::Top,
        GridContentView::DurationUnderlines { levels: underline_spans(buf) },
    )
}

/// Emit the underlines of the buffered beam group, if any, and empty the buffer.
pub fn flush_beam_buffer(buffer: &mut Vec<BeamEntry>, row_offset: u32, elements: &mut Vec<GridElement>)
    requires
        beam_fits(old(buffer)@, u32::MAX as int),
        row_offset + 2 <= u32::MAX,
    ensures
        final(buffer)@.len() == 0,
        grid_elements_view(final(elements)@) == grid_elements_view(old(elements)@) + if old(buffer)@.len() == 0 {
            Seq::<ElemView>::empty()
        } else {
            seq![underlines_element(old(buffer)@, row_offset)]
        },
{
    if buffer.len() == 0 {
        proof {
            assert(grid_elements_view(elements@) + Seq::<ElemView>::empty() == grid_elements_view(elements@));
        }
        return;
    }
    let first = buffer[0];
    let levels = compute_underline_levels(buffer.as_slice());
    let ghost before = elements@;
    let e = GridElement {
        position: GridPosition { column: first.column, row: row_offset + 2 },
        horizontal_alignment: HorizontalAlignment::Left,
        vertical_alignment: VerticalAlignment::Top,
        content: GridContent::DurationUnderlines { levels },
    };
    elements.push(e);
    buffer.clear();
    proof {
        assert(grid_elements_view(elements@) == grid_elements_view(before).push(types::grid_element_view(e)));
    }
}

/// The chord symbol text; see `chord_symbol_text`.
pub fn format_chord_symbol(chord: &GroupedChordNote) -> (s: String)
    ensures
        s@ == chord_symbol_text(*chord),
{
    chord.format_symbol()
}

/// Grid rows a part takes: 2 for chords, 3 for notes, 4 for notes with lyrics; a ditto
/// row takes none.
pub open spec fn row_height(row: PartRow) -> u32 {
    match row {
        PartRow::Timed(part) => match part.kind {
            PartKind::Chord => 2,
            PartKind::Notes => 3,
            PartKind::NotesWithLyrics => 4,
        },
        PartRow::Ditto(_) => 0,
    }
}

pub fn part_row_height(row: &PartRow) -> (h: u32)
    ensures
        h == row_height(*row),
{
    match row {
        PartRow::Timed(part) => match part.kind {
            PartKind::Chord => 2,
            PartKind::Notes => 3,
            PartKind::NotesWithLyrics => 4,
        },
        PartRow::Ditto(_) => 0,
    }
}

/// The quarter-beats of a note, chord or rest.
pub fn event_duration(event: &NoteEvent) -> (d: u32)
    ensures
        d == crate::grouper::event_duration(*event),
{
    match event {
        NoteEvent::Note(note) => note.duration,
        NoteEvent::Rest(rest) => rest.duration,
        NoteEvent::Chord(chord) => chord.duration,
    }
}

/// The quarter-beats of a part's measure.
pub fn measure_beat_width(part: &PartSlice) -> (w: u32)
    requires
        sum_durations(part.notes.events@) <= u32::MAX,
    ensures
        w == sum_durations(part.notes.events@),
{
    let events = &part.notes.events;
    let mut total: u32 = 0;
    let mut i: usize = 0;
    while i < events.len()
        invariant
            i <= events@.len(),
            sum_durations(events@) <= u32::MAX,
            total == sum_durations(events@.take(i as int)),
        decreases events@.len() - i,
    {
        proof {
            crate::compiler::lemma_sum_take(events@, i as int, i + 1);
            crate::compiler::lemma_sum_take(events@, i + 1, events@.len() as int);
            assert(events@.take(events@.len() as int) == events@);
        }
        total = total + event_duration(&events[i]);
        i += 1;
    }
    proof {
        assert(events@.take(i as int) == events@);
    }
    total
}

/// The widest part of the first `n`, in quarter-beats.
pub open spec fn widest_part(parts: Seq<PartRow>, n: int) -> int
    decreases n,
{
    if n <= 0 {
        0
    } else {
        let w = sum_durations(row_slice(parts[n - 1]).notes.events@) as int;
        let m = widest_part(parts, n - 1);
        if w > m {
            w
        } else {
            m
        }
    }
}

/// Every part of the measure, with a bar line after it, fits in a `u32` of columns.
pub open spec fn measure_fits(m: MultiPartMeasure) -> bool {
    forall|k: int|
        0 <= k < m.parts@.len() ==> sum_durations(row_slice(#[trigger] m.parts@[k]).notes.events@) + 1
            <= u32::MAX
}

/// The columns a measure takes: its widest part, and one for the bar line.
pub open spec fn measure_width(m: MultiPartMeasure) -> int {
    widest_part(m.parts@, m.parts@.len() as int) + 1
}

pub fn measure_column_width(measure: &MultiPartMeasure) -> (w: u32)
    requires
        measure_fits(*measure),
    ensures
        w == measure_width(*measure),
{
    let mut max_notes: u32 = 0;
    let mut i: usize = 0;
    while i < measure.parts.len()
        invariant
            i <= measure.parts@.len(),
            measure_fits(*measure),
            max_notes == widest_part(measure.parts@, i as int),
            max_notes + 1 <= u32::MAX,
        decreases measure.parts@.len() - i,
    {
        assert(sum_durations(row_slice(measure.parts@[i as int]).notes.events@) + 1 <= u32::MAX);
        let w = measure_beat_width(measure.parts[i].slice());
        if w > max_notes {
            max_notes = w;
        }
        i += 1;
    }
    max_notes + 1
}

// ── Tie and slur chains ─────────────────────────────────────────────────────

/// A tie or slur arc from column `from` to column `to`, on row `row`.
pub open spec fn arc(from: u32, to: u32, row: u32) -> ElemView {
    (
        GridPosition { column: from, row },
        HorizontalAlignment::Left,
        VerticalAlignment::Top,
        GridContentView::TieOrSlurCurve { from_column: from, to_column: to },
    )
}

/// Two consecutive notes of the chain have different keys.
pub open spec fn has_key_change(chain: Seq<(u32, SlurKey)>) -> bool {
    exists|i: int| 0 <= i && i + 1 < chain.len() && (#[trigger] chain[i]).1 != chain[i + 1].1
}

/// The ties among the first `n` notes of a chain: one for each consecutive pair with
/// equal keys.
pub open spec fn chain_ties(chain: Seq<(u32, SlurKey)>, row: u32, n: int) -> Seq<ElemView>
    decreases n,
{
    if n <= 1 {
        seq![]
    } else {
        chain_ties(chain, row, n - 1) + if chain[n - 2].1 == chain[n - 1].1 {
            seq![arc(chain[n - 2].0, chain[n - 1].0, row)]
        } else {
            seq![]
        }
    }
}

/// The arcs of a completed chain: a slur from its first to its last note when any key
/// changes along it, then a tie for every consecutive pair with equal keys.
pub open spec fn chain_arcs(chain: Seq<(u32, SlurKey)>, row: u32) -> Seq<ElemView> {
    if chain.len() <= 1 {
        seq![]
    } else {
        (if has_key_change(chain) {
            seq![arc(chain[0].0, chain.last().0, row)]
        } else {
            seq![]
        }) + chain_ties(chain, row, chain.len() as int)
    }
}

fn arc_element(from: u32, to: u32, row: u32) -> (e: GridElement)
    ensures
        types::grid_element_view(e) == arc(from, to, row),
{
    GridElement {
        position: GridPosition { column: from, row },
        horizontal_alignment: HorizontalAlignment::Left,
        vertical_alignment: VerticalAlignment::Top,
        content: GridContent::TieOrSlurCurve { from_column: from, to_column: to },
    }
}

/// Emit tie/slur arcs for a completed chain of tied notes; see `chain_arcs`.
pub fn flush_chain(chain: &[(u32, SlurKey)], chain_row: u32, elements: &mut Vec<GridElement>)
    ensures
        grid_elements_view(final(elements)@) == grid_elements_view(old(elements)@) + chain_arcs(chain@, chain_row),
{
    let ghost start = grid_elements_view(elements@);
    let n = chain.len();
    if n <= 1 {
        proof {
            assert(start + chain_arcs(chain@, chain_row) == start);
        }
        return;
    }
    let mut changed = false;
    let mut i: usize = 1;
    while i < n
        invariant
            1 <= i <= n == chain@.len(),
            changed == exists|k: int| 0 <= k && k + 1 < i && (#[trigger] chain@[k]).1 != chain@[k + 1].1,
        decreases n - i,
    {
        if chain[i - 1].1 != chain[i].1 {
            changed = true;
            assert(chain@[i - 1].1 != chain@[i as int].1);
        }
        i += 1;
    }
    if changed {
        let ghost before = elements@;
        let e = arc_element(chain[0].0, chain[n - 1].0, chain_row);
        elements.push(e);
        proof {
            assert(grid_elements_view(elements@) == grid_elements_view(before).push(types::grid_element_view(e)));
        }
    }
    let ghost mid = grid_elements_view(elements@);
    proof {
        assert(mid == start + if has_key_change(chain@) {
            seq![arc(chain@[0].0, chain@.last().0, chain_row)]
        } else {
            Seq::<ElemView>::empty()
        });
    }
    let mut k: usize = 1;
    while k < n
        invariant
            1 <= k <= n == chain@.len(),
            grid_elements_view(elements@) == mid + chain_ties(chain@, chain_row, k as int),
        decreases n - k,
    {
        let ghost before = elements@;
        if chain[k - 1].1 == chain[k].1 {
            let e = arc_element(chain[k - 1].0, chain[k].0, chain_row);
            elements.push(e);
            proof {
                assert(grid_elements_view(elements@) == grid_elements_view(before).push(types::grid_element_view(e)));
            }
        }
        k += 1;
    }
}

/// Chains padded to at least `m` depths, with `entry` joined to the first `m`.
pub open spec fn joined_chains(chains: Seq<Seq<(u32, SlurKey)>>, m: int, entry: (u32, SlurKey)) -> Seq<
    Seq<(u32, SlurKey)>,
> {
    let len = if chains.len() >= m {
        chains.len() as int
    } else {
        m
    };
    Seq::new(
        len as nat,
        |d: int|
            {
                let c = if d < chains.len() {
                    chains[d]
                } else {
                    seq![]
                };
                if d < m {
                    c.push(entry)
                } else {
                    c
                }
            },
    )
}

/// Close the chains at depths `from..to`: emit the arcs of each and empty it.
pub open spec fn close_chains(
    chains: Seq<Seq<(u32, SlurKey)>>,
    elems: Seq<ElemView>,
    from: int,
    to: int,
    row: u32,
) -> (Seq<Seq<(u32, SlurKey)>>, Seq<ElemView>)
    decreases to - from,
{
    if from >= to {
        (chains, elems)
    } else {
        close_chains(chains.update(from, seq![]), elems + chain_arcs(chains[from], row), from + 1, to, row)
    }
}

/// The chains as plain values.
pub open spec fn chains_view(v: Seq<Vec<(u32, SlurKey)>>) -> Seq<Seq<(u32, SlurKey)>> {
    Seq::new(v.len(), |i: int| v[i]@)
}

fn chain_with(chain: &Vec<(u32, SlurKey)>, entry: (u32, SlurKey)) -> (r: Vec<(u32, SlurKey)>)
    ensures
        r@ == chain@.push(entry),
{
    let mut r: Vec<(u32, SlurKey)> = Vec::new();
    let mut i: usize = 0;
    while i < chain.len()
        invariant
            i <= chain@.len(),
            r@ == chain@.take(i as int),
        decreases chain@.len() - i,
    {
        r.push(chain[i]);
        proof {
            assert(chain@.take(i + 1) == chain@.take(i as int).push(chain@[i as int]));
        }
        i += 1;
    }
    proof {
        assert(chain@.take(i as int) == chain@);
    }
    r.push(entry);
    r
}

/// Extend nested tie/slur chains for one note and flush any groups that end here: the
/// note joins its `membership` chains, and the chains at depths from `continuation`
/// up to `membership` end at it.
pub fn extend_note_chains(
    chains: &mut Vec<Vec<(u32, SlurKey)>>,
    membership: u8,
    continuation: u8,
    chain_row: u32,
    col: u32,
    key: &SlurKey,
    elements: &mut Vec<GridElement>,
)
    ensures
        (chains_view(final(chains)@), grid_elements_view(final(elements)@)) == close_chains(
            joined_chains(chains_view(old(chains)@), membership as int, (col, *key)),
            grid_elements_view(old(elements)@),
            continuation as int,
            membership as int,
            chain_row,
        ),
{
    let m = membership as usize;
    let ghost c0 = chains_view(chains@);
    while chains.len() < m
        invariant
            c0.len() <= chains@.len(),
            forall|d: int| 0 <= d < c0.len() ==> (#[trigger] chains@[d])@ == c0[d],
            forall|d: int| c0.len() <= d < chains@.len() ==> (#[trigger] chains@[d])@.len() == 0,
            chains@.len() <= (if c0.len() >= m {
                c0.len() as int
            } else {
                m as int
            }),
        decreases m - chains@.len(),
    {
        chains.push(Vec::new());
    }
    let ghost joined = joined_chains(c0, m as int, (col, *key));
    let mut d: usize = 0;
    while d < m
        invariant
            m <= chains@.len(),
            d <= m,
            joined == joined_chains(c0, m as int, (col, *key)),
            chains@.len() == joined.len(),
            forall|k: int| 0 <= k < d ==> (#[trigger] chains@[k])@ == joined[k],
            forall|k: int|
                d <= k < chains@.len() ==> (#[trigger] chains@[k])@ == (if k < c0.len() {
                    c0[k]
                } else {
                    Seq::<(u32, SlurKey)>::empty()
                }),
        decreases m - d,
    {
        let extended = chain_with(&chains[d], (col, *key));
        chains.set(d, extended);
        d += 1;
    }
    proof {
        assert(chains_view(chains@) == joined);
    }
    let mut depth = continuation as usize;
    let ghost e0 = grid_elements_view(elements@);
    proof {
        if depth < m {
        } else {
            assert(close_chains(joined, e0, continuation as int, m as int, chain_row) == (joined, e0));
        }
    }
    while depth < m
        invariant
            m <= chains@.len(),
            continuation <= depth || depth == continuation,
            depth <= m || depth == continuation,
            close_chains(chains_view(chains@), grid_elements_view(elements@), depth as int, m as int, chain_row)
                == close_chains(joined, e0, continuation as int, m as int, chain_row),
        decreases m - depth,
    {
        let ghost before = chains_view(chains@);
        if chains[depth].len() > 1 {
            flush_chain(chains[depth].as_slice(), chain_row, elements);
        } else {
            proof {
                assert(grid_elements_view(elements@) + chain_arcs(before[depth as int], chain_row)
                    == grid_elements_view(elements@));
            }
        }
        chains.set(depth, Vec::new());
        proof {
            assert(chains_view(chains@) == before.update(depth as int, seq![]));
        }
        depth += 1;
    }
    proof {
        if (continuation as int) < m {
            assert(depth == m);
        }
    }
}

} // verus!
