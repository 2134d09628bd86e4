use vstd::prelude::*;

verus! {

/// Smallest position `>= min_pos` in `origins` whose value equals `written_index`, i.e.
/// the earliest playback position (at or after `min_pos`) at which the given written
/// measure is played.
pub fn earliest_playback_position(origins: &[usize], written_index: usize, min_pos: usize) -> (r: Option<usize>)
    ensures
        match r {
            Some(p) => {
                &&& min_pos <= p < origins@.len()
                &&& origins@[p as int] == written_index
                &&& forall|k: int| min_pos <= k < p ==> origins@[k] != written_index
            },
            None => forall|k: int| min_pos <= k < origins@.len() ==> origins@[k] != written_index,
        },
{
    let mut i = min_pos;
    while i < origins.len()
        invariant
            min_pos <= i,
            forall|k: int| min_pos <= k < i && k < origins@.len() ==> origins@[k] != written_index,
        decreases origins@.len() - i,
    {
        if origins[i] == written_index {
            return Some(i);
        }
        i += 1;
    }
    None
}

/// The last position at or after `min_pos` whose origin is `written_index`.
fn last_playback_position(origins: &[usize], written_index: usize, min_pos: usize) -> (r: Option<usize>)
    ensures
        match r {
            Some(p) => {
                &&& min_pos <= p < origins@.len()
                &&& origins@[p as int] == written_index
                &&& forall|k: int| p < k < origins@.len() ==> origins@[k] != written_index
            },
            None => forall|k: int| min_pos <= k < origins@.len() ==> origins@[k] != written_index,
        },
{
    let mut i = origins.len();
    while i > min_pos
        invariant
            i <= origins@.len(),
            forall|k: int| i <= k < origins@.len() && k >= min_pos ==> origins@[k] != written_index,
        decreases i,
    {
        if origins[i - 1] == written_index {
            return Some(i - 1);
        }
        i -= 1;
    }
    None
}

/// Maps a written measure range `start_index..=end_index` to playback positions, given
/// the written measure that each playback position plays (`origins`): `start_index` goes
/// to its earliest position, and `end_index` to its earliest (or, with
/// `extend_to_last_occurrence`, its last) position at or after that one. `None` when
/// either has no such position.
pub fn playback_range(
    origins: &[usize],
    start_index: usize,
    end_index: usize,
    extend_to_last_occurrence: bool,
) -> (r: Option<(usize, usize)>)
    ensures
        match r {
            Some((s, e)) => {
                &&& s <= e < origins@.len()
                &&& origins@[s as int] == start_index
                &&& forall|k: int| 0 <= k < s ==> origins@[k] != start_index
                &&& origins@[e as int] == end_index
                &&& if extend_to_last_occurrence {
                    forall|k: int| e < k < origins@.len() ==> origins@[k] != end_index
                } else {
                    forall|k: int| s <= k < e ==> origins@[k] != end_index
                }
            },
            None => forall|s: int|
                0 <= s < origins@.len() && origins@[s] == start_index && (forall|k: int|
                    0 <= k < s ==> origins@[k] != start_index) ==> forall|k: int|
                    s <= k < origins@.len() ==> origins@[k] != end_index,
        },
{
    match earliest_playback_position(origins, start_index, 0) {
        None => None,
        Some(start_pos) => {
            let end_pos = if extend_to_last_occurrence {
                last_playback_position(origins, end_index, start_pos)
            } else {
                earliest_playback_position(origins, end_index, start_pos)
            };
            match end_pos {
                Some(e) => Some((start_pos, e)),
                None => {
                    proof {
                        assert forall|s: int|
                            0 <= s < origins@.len() && origins@[s] == start_index && (forall|k: int|
                                0 <= k < s ==> origins@[k] != start_index) implies forall|k: int|
                            s <= k < origins@.len() ==> origins@[k] != end_index by {
                            if s != start_pos {
                                if s < start_pos {
                                    assert(origins@[s] != start_index);
                                } else {
                                    assert(origins@[start_pos as int] != start_index);
                                }
                            }
                        }
                    }
                    None
                },
            }
        },
    }
}

/// The playback positions that the entries before `i` of a sequence take, each entry
/// `(start, end)` playing written measures `start..=end`.
pub open spec fn entries_length(spans: Seq<(usize, usize)>, i: int) -> int
    decreases i,
{
    if i <= 0 {
        0
    } else {
        entries_length(spans, i - 1) + (spans[i - 1].1 - spans[i - 1].0 + 1)
    }
}

/// Well-formed sequence entries: each ends no earlier than it starts, and all of them
/// together take a number of positions that fits in a `usize`.
pub open spec fn entries_fit(spans: Seq<(usize, usize)>) -> bool {
    &&& forall|i: int| 0 <= i < spans.len() ==> (#[trigger] spans[i]).0 <= spans[i].1
    &&& entries_length(spans, spans.len() as int) <= usize::MAX
}

proof fn lemma_entries_length_mono(spans: Seq<(usize, usize)>, i: int, j: int)
    requires
        0 <= i <= j <= spans.len(),
        forall|k: int| 0 <= k < spans.len() ==> (#[trigger] spans[k]).0 <= spans[k].1,
    ensures
        0 <= entries_length(spans, i) <= entries_length(spans, j),
    decreases j - i,
{
    if i < j {
        lemma_entries_length_mono(spans, i, j - 1);
        assert(spans[j - 1].0 <= spans[j - 1].1);
    } else {
        lemma_entries_length_nonneg(spans, i);
    }
}

proof fn lemma_entries_length_nonneg(spans: Seq<(usize, usize)>, i: int)
    requires
        0 <= i <= spans.len(),
        forall|k: int| 0 <= k < spans.len() ==> (#[trigger] spans[k]).0 <= spans[k].1,
    ensures
        0 <= entries_length(spans, i),
    decreases i,
{
    if i > 0 {
        lemma_entries_length_nonneg(spans, i - 1);
        assert(spans[i - 1].0 <= spans[i - 1].1);
    }
}

/// The playback positions of a range of sequence entries `entry_start..=entry_end`:
/// the first position of the first entry and the last position of the last one.
pub fn sequence_entry_positions(spans: &[(usize, usize)], entry_start: usize, entry_end: usize) -> (r: (
    usize,
    usize,
))
    requires
        entry_start <= entry_end < spans@.len(),
        entries_fit(spans@),
    ensures
        r.0 == entries_length(spans@, entry_start as int),
        r.1 == entries_length(spans@, entry_end + 1) - 1,
{
    let mut position: usize = 0;
    let mut start_pos: usize = 0;
    let mut end_pos: usize = 0;
    let mut i: usize = 0;
    while i < spans.len()
        invariant
            i <= spans@.len(),
            entry_start <= entry_end < spans@.len(),
            entries_fit(spans@),
            position == entries_length(spans@, i as int),
            i > entry_start ==> start_pos == entries_length(spans@, entry_start as int),
            i > entry_end ==> end_pos == entries_length(spans@, entry_end + 1) - 1,
        decreases spans@.len() - i,
    {
        let (s, e) = spans[i];
        proof {
            assert(spans@[i as int].0 <= spans@[i as int].1);
            lemma_entries_length_mono(spans@, i + 1, spans@.len() as int);
        }
        let len = e - s + 1;
        if i == entry_start {
            start_pos = position;
        }
        if i == entry_end {
            end_pos = position + len - 1;
        }
        position += len;
        i += 1;
    }
    (start_pos, end_pos)
}

} // verus!
