use vstd::prelude::*;

use crate::ast::parsed::ScoreEvent;
use crate::error::{ErrorKind, JianPuError, Span, Spanned};

verus! {

/// Quarter-beat position of the middle of a 4/4 bar (beat 2→3).
pub const HALF_BAR_BOUNDARY: u32 = 8;

/// A note, chord or rest: an event that takes time on its own.
pub open spec fn is_timed(e: ScoreEvent) -> bool {
    e is Note || e is Chord || e is Rest
}

/// The written duration of a timed event, 0 for any other event.
pub open spec fn head_duration(e: ScoreEvent) -> nat {
    match e {
        ScoreEvent::Note(n) => n.duration as nat,
        ScoreEvent::Chord(c) => c.duration as nat,
        ScoreEvent::Rest(r) => r.duration as nat,
        _ => 0,
    }
}

pub open spec fn is_dotted(e: ScoreEvent) -> bool {
    match e {
        ScoreEvent::Note(n) => n.dotted,
        ScoreEvent::Chord(c) => c.dotted,
        ScoreEvent::Rest(r) => r.dotted,
        _ => false,
    }
}

/// Whether the half-bar rule applies to a timed event: rests always, notes and chords
/// only outside a beam group.
pub open spec fn half_bar_applies(e: ScoreEvent) -> bool {
    match e {
        ScoreEvent::Note(n) => n.group_membership == 0,
        ScoreEvent::Chord(c) => c.group_membership == 0,
        _ => true,
    }
}

/// The time an event adds to a bar: its duration, or a beat for an extension.
pub open spec fn weight(e: ScoreEvent) -> nat {
    if e is Extension {
        4
    } else {
        head_duration(e)
    }
}

/// The total weight of the first `n` events.
pub open spec fn weight_sum(events: Seq<Spanned<ScoreEvent>>, n: int) -> nat
    decreases n,
{
    if n <= 0 {
        0
    } else {
        weight_sum(events, n - 1) + weight(events[n - 1].value)
    }
}

/// The first index at or after `from` that is not an extension (or the length).
pub open spec fn run_end(events: Seq<Spanned<ScoreEvent>>, from: int) -> int
    decreases events.len() - from,
{
    if from >= events.len() {
        events.len() as int
    } else if events[from].value is Extension {
        run_end(events, from + 1)
    } else {
        from
    }
}

/// The number of events of the timed event at `start` and the extensions right after it.
pub open spec fn cluster_len(events: Seq<Spanned<ScoreEvent>>, start: int) -> int {
    run_end(events, start + 1) - start
}

/// The duration of the timed event at `start` with a beat for each extension after it.
pub open spec fn cluster_duration(events: Seq<Spanned<ScoreEvent>>, start: int) -> int {
    head_duration(events[start].value) + 4 * (cluster_len(events, start) - 1)
}

/// The first timed event at or after `from`, or the length.
pub open spec fn next_timed(events: Seq<Spanned<ScoreEvent>>, from: int) -> int
    decreases events.len() - from,
{
    if from >= events.len() {
        events.len() as int
    } else if is_timed(events[from].value) {
        from
    } else {
        next_timed(events, from + 1)
    }
}

pub open spec fn half_bar_message() -> Seq<char> {
    "note/rest crosses the half-bar boundary (beat 2→3); use a beam group or tie to show the split"@
}

pub open spec fn dotted_eighth_message() -> Seq<char> {
    "dotted eighth must be followed by a sixteenth note or rest"@
}

/// The walk through a 4/4 bar from event `index` at quarter-beat `pos`: the first
/// violation found, or `None`.
///
/// A timed event outside a beam group that starts inside the first half and runs past
/// beat 3 crosses the half bar. A dotted eighth that starts on a beat must be followed
/// by a sixteenth (its extensions and any events between are skipped).
pub open spec fn grouping_walk(events: Seq<Spanned<ScoreEvent>>, index: int, pos: int) -> Option<
    (Span, Seq<char>),
>
    decreases events.len() - index,
{
    if index < 0 || index >= events.len() {
        None
    } else {
        let e = events[index];
        if !is_timed(e.value) {
            grouping_walk(events, index + 1, pos)
        } else {
            let head = head_duration(e.value);
            proof {
                lemma_run_end(events, index + 1);
                lemma_next_timed(events, index + cluster_len(events, index));
            }
            if half_bar_applies(e.value) && pos > 0 && pos < HALF_BAR_BOUNDARY && pos + head
                > HALF_BAR_BOUNDARY {
                Some((e.span, half_bar_message()))
            } else if is_dotted(e.value) && head == 3 && pos % 4 == 0 {
                let nt = next_timed(events, index + cluster_len(events, index));
                if nt >= events.len() || head_duration(events[nt].value) != 1 {
                    Some((e.span, dotted_eighth_message()))
                } else {
                    grouping_walk(events, nt + 1, pos + head + 1)
                }
            } else {
                grouping_walk(
                    events,
                    index + cluster_len(events, index),
                    pos + cluster_duration(events, index),
                )
            }
        }
    }
}

pub proof fn lemma_weight_sum_mono(events: Seq<Spanned<ScoreEvent>>, a: int, b: int)
    requires
        a <= b,
    ensures
        weight_sum(events, a) <= weight_sum(events, b),
    decreases b - a,
{
    if a < b {
        lemma_weight_sum_mono(events, a, b - 1);
    }
}

pub proof fn lemma_run_end(events: Seq<Spanned<ScoreEvent>>, from: int)
    requires
        0 <= from <= events.len(),
    ensures
        from <= run_end(events, from) <= events.len(),
        forall|k: int| from <= k < run_end(events, from) ==> events[k].value is Extension,
        run_end(events, from) < events.len() ==> !(events[run_end(events, from)].value is Extension),
        weight_sum(events, run_end(events, from)) == weight_sum(events, from) + 4 * (run_end(
            events,
            from,
        ) - from),
    decreases events.len() - from,
{
    if from < events.len() && events[from].value is Extension {
        lemma_run_end(events, from + 1);
    }
}

pub proof fn lemma_next_timed(events: Seq<Spanned<ScoreEvent>>, from: int)
    requires
        0 <= from <= events.len(),
    ensures
        from <= next_timed(events, from) <= events.len(),
        next_timed(events, from) < events.len() ==> is_timed(events[next_timed(events, from)].value),
        forall|k: int| from <= k < next_timed(events, from) ==> !is_timed(#[trigger] events[k].value),
    decreases events.len() - from,
{
    if from < events.len() && !is_timed(events[from].value) {
        lemma_next_timed(events, from + 1);
    }
}

/// The duration of the timed event at `start`; 0 for any other event or past the end.
fn timed_head_duration(events: &[Spanned<ScoreEvent>], start: usize) -> (d: u32)
    ensures
        start < events@.len() ==> d == head_duration(events@[start as int].value),
        start >= events@.len() ==> d == 0,
{
    if start >= events.len() {
        return 0;
    }
    match &events[start].value {
        ScoreEvent::Note(note) => note.duration,
        ScoreEvent::Chord(chord) => chord.duration,
        ScoreEvent::Rest(rest) => rest.duration,
        _ => 0,
    }
}

/// The number of events of the timed event at `start` and the extensions right after it.
fn timed_cluster_len(events: &[Spanned<ScoreEvent>], start: usize) -> (n: usize)
    requires
        start < events@.len(),
    ensures
        n == cluster_len(events@, start as int),
{
    let n = events.len();
    proof {
        lemma_run_end(events@, start + 1);
    }
    let mut len: usize = 1;
    let mut index: usize = start + 1;
    while index < events.len()
        invariant
            start < index <= events@.len(),
            len == index - start,
            run_end(events@, start + 1) == run_end(events@, index as int),
        decreases events@.len() - index,
    {
        if matches!(events[index].value, ScoreEvent::Extension) {
            len += 1;
            index += 1;
        } else {
            return len;
        }
    }
    len
}

/// The duration of the timed event at `start` with a beat for each extension after it;
/// 0 when `start` is not a timed event.
fn timed_cluster_duration(events: &[Spanned<ScoreEvent>], start: usize) -> (d: u32)
    requires
        weight_sum(events@, events@.len() as int) <= u32::MAX,
    ensures
        start < events@.len() && is_timed(events@[start as int].value) ==> d == cluster_duration(
            events@,
            start as int,
        ),
        !(start < events@.len() && is_timed(events@[start as int].value)) ==> d == 0,
{
    let n = events.len();
    if start >= n {
        return 0;
    }
    let mut duration = match &events[start].value {
        ScoreEvent::Note(note) => note.duration,
        ScoreEvent::Chord(chord) => chord.duration,
        ScoreEvent::Rest(rest) => rest.duration,
        _ => return 0,
    };
    proof {
        lemma_run_end(events@, start + 1);
        lemma_weight_sum_mono(events@, start + 1, events@.len() as int);
        lemma_weight_sum_mono(events@, run_end(events@, start + 1), events@.len() as int);
    }
    let mut index: usize = start + 1;
    while index < events.len()
        invariant
            start < index <= events@.len(),
            start < events@.len(),
            is_timed(events@[start as int].value),
            run_end(events@, start + 1) == run_end(events@, index as int),
            index <= run_end(events@, start + 1),
            duration == head_duration(events@[start as int].value) + 4 * (index - start - 1),
            weight_sum(events@, start + 1) == weight_sum(events@, start as int) + head_duration(
                events@[start as int].value,
            ),
            weight_sum(events@, run_end(events@, start + 1)) == weight_sum(events@, start + 1) + 4
                * (run_end(events@, start + 1) - (start + 1)),
            weight_sum(events@, run_end(events@, start + 1)) <= u32::MAX,
        decreases events@.len() - index,
    {
        if matches!(events[index].value, ScoreEvent::Extension) {
            proof {
                lemma_run_end(events@, index + 1);
            }
            duration += 4;
            index += 1;
        } else {
            return duration;
        }
    }
    duration
}

/// The first timed event after the cluster at `start`.
fn next_timed_index(events: &[Spanned<ScoreEvent>], start: usize) -> (r: Option<usize>)
    requires
        start < events@.len(),
    ensures
        match r {
            Some(i) => i == next_timed(events@, start + cluster_len(events@, start as int)) && i
                < events@.len(),
            None => next_timed(events@, start + cluster_len(events@, start as int))
                >= events@.len(),
        },
{
    let n = events.len();
    proof {
        lemma_run_end(events@, start + 1);
    }
    let mut index = start + timed_cluster_len(events, start);
    let ghost from = index as int;
    while index < events.len()
        invariant
            from == start + cluster_len(events@, start as int),
            index <= events@.len(),
            from <= index,
            next_timed(events@, from) == next_timed(events@, index as int),
        decreases events@.len() - index,
    {
        let timed = match &events[index].value {
            ScoreEvent::Note(_) => true,
            ScoreEvent::Chord(_) => true,
            ScoreEvent::Rest(_) => true,
            _ => false,
        };
        if timed {
            return Some(index);
        }
        index += 1;
    }
    None
}

fn is_dotted_eighth_at_beat_start(dotted: bool, duration: u32, pos: u32) -> (b: bool)
    ensures
        b == (dotted && duration == 3 && pos % 4 == 0),
{
    dotted && duration == 3 && pos % 4 == 0
}

fn dotted_eighth_error(span: &Span) -> (e: JianPuError)
    ensures
        e.span == *span,
        e.message@ == dotted_eighth_message(),
        e.path.is_none(),
        e.kind == ErrorKind::General,
{
    JianPuError::new(
        *span,
        String::from_str("dotted eighth must be followed by a sixteenth note or rest"),
    )
}

fn half_bar_error(span: &Span) -> (e: JianPuError)
    ensures
        e.span == *span,
        e.message@ == half_bar_message(),
        e.path.is_none(),
        e.kind == ErrorKind::General,
{
    JianPuError::new(
        *span,
        String::from_str(
            "note/rest crosses the half-bar boundary (beat 2→3); use a beam group or tie to show the split",
        ),
    )
}

/// Checks that the timed event after a dotted eighth is a sixteenth.
fn validate_dotted_eighth_tail(
    events: &[Spanned<ScoreEvent>],
    next_timed: Option<usize>,
    span: &Span,
) -> (r: Result<(), JianPuError>)
    requires
        next_timed matches Some(i) ==> i < events@.len() && is_timed(events@[i as int].value),
    ensures
        r is Ok <==> (next_timed matches Some(i) && head_duration(events@[i as int].value) == 1),
        r matches Err(e) ==> e.span == *span && e.message@ == dotted_eighth_message()
            && e.path.is_none() && e.kind == ErrorKind::General,
{
    let next_index = match next_timed {
        Some(i) => i,
        None => return Err(dotted_eighth_error(span)),
    };
    let tail_duration = timed_head_duration(events, next_index);
    if tail_duration == 1 {
        Ok(())
    } else {
        Err(dotted_eighth_error(span))
    }
}

/// Checks how the notes of a 4/4 bar are grouped: no note or rest outside a beam group
/// may cross the middle of the bar, and a dotted eighth on a beat must be followed by a
/// sixteenth. Other time signatures are not checked.
pub fn validate_measure_grouping(events: &[Spanned<ScoreEvent>], time_num: u8, time_den: u8) -> (r:
    Result<(), JianPuError>)
    requires
        time_num == 4 && time_den == 4 ==> weight_sum(events@, events@.len() as int) <= u32::MAX,
    ensures
        (time_num != 4 || time_den != 4) ==> r is Ok,
        (time_num == 4 && time_den == 4) ==> match r {
            Ok(_) => grouping_walk(events@, 0, 0) is None,
            Err(e) => grouping_walk(events@, 0, 0) == Some((e.span, e.message@)) && e.path.is_none()
                && e.kind == ErrorKind::General,
        },
{
    if time_num != 4 || time_den != 4 {
        return Ok(());
    }
    let ghost evs = events@;
    let mut pos: u32 = 0;
    let mut index: usize = 0;
    while index < events.len()
        invariant
            time_num == 4 && time_den == 4,
            evs == events@,
            index <= evs.len(),
            pos <= weight_sum(evs, index as int),
            weight_sum(evs, evs.len() as int) <= u32::MAX,
            grouping_walk(evs, index as int, pos as int) == grouping_walk(evs, 0, 0),
        decreases evs.len() - index,
    {
        let event = &events[index];
        let timed = match &event.value {
            ScoreEvent::Note(_) => true,
            ScoreEvent::Chord(_) => true,
            ScoreEvent::Rest(_) => true,
            _ => false,
        };
        if !timed {
            proof {
                lemma_weight_sum_mono(evs, index as int, index + 1);
            }
            index += 1;
        } else {
            let (free, dotted, duration) = match &event.value {
                ScoreEvent::Note(note) => (note.group_membership == 0, note.dotted, note.duration),
                ScoreEvent::Chord(chord) => (
                    chord.group_membership == 0,
                    chord.dotted,
                    chord.duration,
                ),
                ScoreEvent::Rest(rest) => (true, rest.dotted, rest.duration),
                _ => (true, false, 0),
            };
            let total_duration = timed_cluster_duration(events, index);
            let head = timed_head_duration(events, index);
            proof {
                lemma_run_end(evs, index + 1);
                lemma_weight_sum_mono(evs, index + 1, evs.len() as int);
                lemma_weight_sum_mono(evs, index + 1, run_end(evs, index + 1));
                lemma_weight_sum_mono(evs, run_end(evs, index + 1), evs.len() as int);
            }
            if free && pos > 0 && pos < HALF_BAR_BOUNDARY && pos as u64 + head as u64
                > HALF_BAR_BOUNDARY as u64 {
                return Err(half_bar_error(&event.span));
            }
            if is_dotted_eighth_at_beat_start(dotted, duration, pos) {
                let next = next_timed_index(events, index);
                proof {
                    lemma_next_timed(evs, index + cluster_len(evs, index as int));
                }
                match validate_dotted_eighth_tail(events, next, &event.span) {
                    Ok(_) => {},
                    Err(e) => return Err(e),
                }
                let nt = match next {
                    Some(n) => n,
                    None => 0,
                };
                proof {
                    let c = index + cluster_len(evs, index as int);
                    lemma_weight_sum_mono(evs, c, nt as int);
                    lemma_weight_sum_mono(evs, nt + 1, evs.len() as int);
                }
                pos = pos + duration + 1;
                index = nt + 1;
            } else {
                pos = pos + total_duration;
                let step = timed_cluster_len(events, index);
                proof {
                    lemma_weight_sum_mono(evs, index + step, evs.len() as int);
                }
                index = index + step;
            }
        }
    }
    Ok(())
}

} // verus!
