use vstd::prelude::*;

use super::types::SlurSpan;
use crate::ast::grouped::GroupedChordNote;
use crate::ast::parsed::{Accidental, BassDegree, Extension, JianPuPitch, TriadQuality};

verus! {

/// What a note of a slur chain sounds: two notes tie when their keys are equal.
#[derive(Debug, Clone, Copy, PartialEq, Eq, Structural)]
pub enum SlurKey {
    Pitch(JianPuPitch),
    Rest,
    Chord {
        degree: JianPuPitch,
        accidental: Accidental,
        triad: TriadQuality,
        extension: Option<Extension>,
        bass: Option<BassDegree>,
    },
}

pub open spec fn chord_key(c: GroupedChordNote) -> SlurKey {
    SlurKey::Chord {
        degree: c.degree,
        accidental: c.accidental,
        triad: c.triad,
        extension: c.extension,
        bass: c.bass,
    }
}

impl SlurKey {
    pub fn from_chord(c: &GroupedChordNote) -> (k: Self)
        ensures
            k == chord_key(*c),
    {
        SlurKey::Chord {
            degree: c.degree,
            accidental: c.accidental,
            triad: c.triad,
            extension: c.extension,
            bass: c.bass,
        }
    }
}

/// Where a slur that is still open at a bar line started.
#[derive(Debug, Clone, Copy, PartialEq, Eq, Structural)]
pub struct PendingSlurOpen {
    pub measure_index: usize,
    pub from_column: u32,
}

/// What one part carries from a measure into the next.
pub struct PartCrossState {
    pub prev_tie: bool,
    pub prev_tie_column: Option<u32>,
    pub prev_tie_measure: Option<usize>,
    pub prev_slur_key: Option<SlurKey>,
    /// For each nesting depth, the start of a slur left open at the previous bar line.
    pub pending_slur_opens: Vec<Option<PendingSlurOpen>>,
}

impl PartCrossState {
    pub fn new() -> (s: Self)
        ensures
            !s.prev_tie,
            s.prev_tie_column.is_none(),
            s.prev_tie_measure.is_none(),
            s.prev_slur_key.is_none(),
            s.pending_slur_opens@ == Seq::<Option<PendingSlurOpen>>::empty(),
    {
        PartCrossState {
            prev_tie: false,
            prev_tie_column: None,
            prev_tie_measure: None,
            prev_slur_key: None,
            pending_slur_opens: Vec::new(),
        }
    }

    pub fn clone_pending_opens(&self) -> (r: Vec<Option<PendingSlurOpen>>)
        ensures
            r@ == self.pending_slur_opens@,
    {
        let mut r: Vec<Option<PendingSlurOpen>> = Vec::new();
        let mut i: usize = 0;
        while i < self.pending_slur_opens.len()
            invariant
                i <= self.pending_slur_opens@.len(),
                r@ == self.pending_slur_opens@.take(i as int),
            decreases self.pending_slur_opens@.len() - i,
        {
            r.push(self.pending_slur_opens[i]);
            proof {
                assert(self.pending_slur_opens@.take(i + 1 as int)
                    == self.pending_slur_opens@.take(i as int).push(self.pending_slur_opens@[i as int]));
            }
            i += 1;
        }
        proof {
            assert(self.pending_slur_opens@.take(i as int) == self.pending_slur_opens@);
        }
        r
    }
}

/// The open slur groups of a part, by depth, and the arcs found so far.
pub struct ChainState {
    /// For each nesting depth, the (column, key) of the notes of the open group in this measure.
    pub chains: Seq<Seq<(u32, SlurKey)>>,
    pub pending: Seq<Option<PendingSlurOpen>>,
    pub spans: Seq<SlurSpan>,
}

pub open spec fn chains_view(c: Seq<Vec<(u32, SlurKey)>>) -> Seq<Seq<(u32, SlurKey)>> {
    c.map_values(|v: Vec<(u32, SlurKey)>| v@)
}

/// The spans with `s` added unless it is already there.
pub open spec fn push_unique(spans: Seq<SlurSpan>, s: SlurSpan) -> Seq<SlurSpan> {
    if spans.contains(s) {
        spans
    } else {
        spans.push(s)
    }
}

/// The chains after a note joins each of the `membership` innermost-to-outermost groups.
pub open spec fn joined_chains(
    chains: Seq<Seq<(u32, SlurKey)>>,
    membership: int,
    entry: (u32, SlurKey),
) -> Seq<Seq<(u32, SlurKey)>> {
    Seq::new(
        if chains.len() >= membership {
            chains.len()
        } else {
            membership as nat
        },
        |d: int|
            (if d < chains.len() {
                chains[d]
            } else {
                seq![]
            }) + (if d < membership {
                seq![entry]
            } else {
                seq![]
            }),
    )
}

/// Where the group at depth `d` started: a start left open at an earlier bar line, else
/// the first note of its chain when the chain has at least two notes.
pub open spec fn group_origin(st: ChainState, d: int, measure_index: usize) -> Option<(usize, u32)> {
    if 0 <= d < st.pending.len() && st.pending[d] is Some {
        Some((st.pending[d]->0.measure_index, st.pending[d]->0.from_column))
    } else if st.chains[d].len() >= 2 {
        Some((measure_index, st.chains[d][0].0))
    } else {
        None
    }
}

/// Closing the group at depth `d` at column `col`: its arc is recorded (once) and the group forgotten.
pub open spec fn close_group(st: ChainState, d: int, col: u32, mi: usize, pi: usize) -> ChainState {
    let spans = match group_origin(st, d, mi) {
        Some(o) => push_unique(
            st.spans,
            SlurSpan {
                part_index: pi,
                from_measure: o.0,
                from_column: o.1,
                to_measure: mi,
                to_column: col,
            },
        ),
        None => st.spans,
    };
    ChainState {
        chains: st.chains.update(d, seq![]),
        pending: if d < st.pending.len() {
            st.pending.update(d, None)
        } else {
            st.pending
        },
        spans,
    }
}

pub open spec fn close_groups(st: ChainState, from: int, to: int, col: u32, mi: usize, pi: usize) -> ChainState
    decreases to - from,
{
    if from >= to {
        st
    } else {
        close_groups(close_group(st, from, col, mi, pi), from + 1, to, col, mi, pi)
    }
}

/// A note at `col` joins its `membership` groups; the groups at depths from `continuation`
/// up end at it.
pub open spec fn extend_spec(
    st: ChainState,
    membership: u8,
    continuation: u8,
    col: u32,
    key: SlurKey,
    mi: usize,
    pi: usize,
) -> ChainState {
    let joined = ChainState {
        chains: joined_chains(st.chains, membership as int, (col, key)),
        pending: st.pending,
        spans: st.spans,
    };
    close_groups(joined, continuation as int, membership as int, col, mi, pi)
}

/// Adds `s` to the spans unless an equal span is already there.
pub fn push_span_unique(spans: &mut Vec<SlurSpan>, s: SlurSpan)
    ensures
        final(spans)@ == push_unique(old(spans)@, s),
{
    let mut i: usize = 0;
    while i < spans.len()
        invariant
            i <= spans@.len(),
            spans@ == old(spans)@,
            forall|k: int| 0 <= k < i ==> spans@[k] != s,
        decreases spans@.len() - i,
    {
        if spans[i] == s {
            proof {
                assert(spans@.contains(s));
            }
            return;
        }
        i += 1;
    }
    proof {
        assert(!spans@.contains(s));
    }
    spans.push(s);
}

fn chain_with(chain: &Vec<(u32, SlurKey)>, entry: (u32, SlurKey)) -> (r: Vec<(u32, SlurKey)>)
    ensures
        r@ == chain@.push(entry),
{
    let mut r: Vec<(u32, SlurKey)> = Vec::new();
    let mut i: usize = 0;
    while i < chain.len()
        invariant
            i <= chain@.len(),
            r@ == chain@.take(i as int),
        decreases chain@.len() - i,
    {
        r.push(chain[i]);
        proof {
            assert(chain@.take(i + 1 as int) == chain@.take(i as int).push(chain@[i as int]));
        }
        i += 1;
    }
    proof {
        assert(chain@.take(i as int) == chain@);
    }
    r.push(entry);
    r
}

/// The note at column `col` joins its slur groups, and the groups it ends are closed;
/// see `extend_spec`.
pub fn extend_note_chains(
    chains: &mut Vec<Vec<(u32, SlurKey)>>,
    pending_slur_opens: &mut Vec<Option<PendingSlurOpen>>,
    group_membership: u8,
    group_continuation: u8,
    col: u32,
    key: &SlurKey,
    slur_spans: &mut Vec<SlurSpan>,
    measure_index: usize,
    part_index: usize,
)
    ensures
        (ChainState {
            chains: chains_view(final(chains)@),
            pending: final(pending_slur_opens)@,
            spans: final(slur_spans)@,
        }) == extend_spec(
            ChainState {
                chains: chains_view(old(chains)@),
                pending: old(pending_slur_opens)@,
                spans: old(slur_spans)@,
            },
            group_membership,
            group_continuation,
            col,
            *key,
            measure_index,
            part_index,
        ),
{
    let m = group_membership as usize;
    let ghost old_chains = chains_view(chains@);
    while chains.len() < m
        invariant
            old_chains.len() <= chains@.len(),
            old_chains == chains_view(old(chains)@),
            chains@.len() <= (if old_chains.len() >= m {
                old_chains.len()
            } else {
                m as nat
            }),
            forall|d: int| 0 <= d < old_chains.len() ==> (#[trigger] chains@[d])@ == old_chains[d],
            forall|d: int|
                old_chains.len() <= d < chains@.len() ==> (#[trigger] chains@[d])@
                    == Seq::<(u32, SlurKey)>::empty(),
        decreases m - chains@.len(),
    {
        chains.push(Vec::new());
    }
    let mut d: usize = 0;
    while d < m
        invariant
            m == group_membership as usize,
            m <= chains@.len(),
            old_chains.len() <= chains@.len(),
            chains@.len() == joined_chains(old_chains, m as int, (col, *key)).len(),
            forall|k: int|
                0 <= k < d ==> (#[trigger] chains@[k])@ == joined_chains(
                    old_chains,
                    m as int,
                    (col, *key),
                )[k],
            forall|k: int|
                d <= k < chains@.len() ==> (#[trigger] chains@[k])@ == (if k < old_chains.len() {
                    old_chains[k]
                } else {
                    Seq::<(u32, SlurKey)>::empty()
                }),
        decreases m - d,
    {
        let joined = chain_with(&chains[d], (col, *key));
        chains.set(d, joined);
        d += 1;
    }
    let ghost joined_state = ChainState {
        chains: chains_view(chains@),
        pending: pending_slur_opens@,
        spans: slur_spans@,
    };
    proof {
        assert(chains_view(chains@) =~= joined_chains(old_chains, m as int, (col, *key)));
    }
    let mut d: usize = group_continuation as usize;
    while d < m
        invariant
            m == group_membership as usize,
            m <= chains@.len(),
            close_groups(
                ChainState {
                    chains: chains_view(chains@),
                    pending: pending_slur_opens@,
                    spans: slur_spans@,
                },
                d as int,
                m as int,
                col,
                measure_index,
                part_index,
            ) == close_groups(
                joined_state,
                group_continuation as int,
                m as int,
                col,
                measure_index,
                part_index,
            ),
        decreases m - d,
    {
        let ghost before = ChainState {
            chains: chains_view(chains@),
            pending: pending_slur_opens@,
            spans: slur_spans@,
        };
        let open = if d < pending_slur_opens.len() {
            pending_slur_opens[d]
        } else {
            None
        };
        let origin: Option<(usize, u32)> = match open {
            Some(o) => Some((o.measure_index, o.from_column)),
            None => {
                if chains[d].len() >= 2 {
                    Some((measure_index, chains[d][0].0))
                } else {
                    None
                }
            },
        };
        proof {
            assert(origin == group_origin(before, d as int, measure_index));
        }
        match origin {
            Some(o) => {
                push_span_unique(
                    slur_spans,
                    SlurSpan {
                        part_index,
                        from_measure: o.0,
                        from_column: o.1,
                        to_measure: measure_index,
                        to_column: col,
                    },
                );
            },
            None => {},
        }
        chains.set(d, Vec::new());
        if d < pending_slur_opens.len() {
            pending_slur_opens.set(d, None);
        }
        proof {
            assert(chains_view(chains@) =~= before.chains.update(d as int, seq![]));
            assert((ChainState {
                chains: chains_view(chains@),
                pending: pending_slur_opens@,
                spans: slur_spans@,
            }) == close_group(before, d as int, col, measure_index, part_index));
        }
        d += 1;
    }
}

} // verus!
