use vstd::prelude::*;

use crate::ast::grouped::{
    GroupedChordNote, GroupedMeasure, GroupedNote, GroupedPart, GroupedRest, GroupedScore,
    GroupedTrack, MeasureDirectives, Metadata, MultiPartMeasure, NoteEvent, Notes, Score,
    TimeSignature,
};
use crate::ast::parsed::{
    Accidental, KeyChange, Note, NoteName, ParsedChordNote, ParsedDocument, ParsedMetadata,
    ParsedNote, ParsedRest, ParsedTimedTrack, ParsedTrack, PartKind, ScoreEvent, Syllable,
};
use crate::combiner::{
    combine, combine_spec, combined_view, copy_string, copy_syllables, part_view, parts_view,
    track_part, PartView,
};
use crate::error::{dash_after_rest_message, ErrorKind, JianPuError, Span, Spanned};
use crate::grouping::{is_timed, weight, weight_sum};
use crate::text::{decimal, decimal_string};

verus! {

/// The state of grouping one part's events into measures.
pub struct PartModel {
    /// The finished measures: their events and the span of source they cover.
    pub measures: Seq<(Seq<NoteEvent>, Span)>,
    /// The events of the measure being filled.
    pub current: Seq<NoteEvent>,
    /// The span of source covered by the measure being filled.
    pub span: Span,
    /// Quarter-beats used in the measure being filled.
    pub beat: int,
    /// Quarter-beats a measure holds under the current time signature.
    pub capacity: int,
}

/// An error as plain values: where, what, and its class.
pub open spec fn error_view(e: JianPuError) -> (Span, Seq<char>, ErrorKind) {
    (e.span, e.message@, e.kind)
}

/// The error is `x`, with no path attached.
pub open spec fn error_matches(e: JianPuError, x: (Span, Seq<char>, ErrorKind)) -> bool {
    error_view(e) == x && e.path.is_none()
}

pub open spec fn event_duration(e: NoteEvent) -> nat {
    match e {
        NoteEvent::Note(n) => n.duration as nat,
        NoteEvent::Chord(c) => c.duration as nat,
        NoteEvent::Rest(r) => r.duration as nat,
    }
}

/// The total duration of a sequence of events.
pub open spec fn sum_durations(s: Seq<NoteEvent>) -> nat
    decreases s.len(),
{
    if s.len() == 0 {
        0
    } else {
        sum_durations(s.drop_last()) + event_duration(s.last())
    }
}

/// The number of events over a sequence of measures.
pub open spec fn total_events(ms: Seq<(Seq<NoteEvent>, Span)>) -> nat
    decreases ms.len(),
{
    if ms.len() == 0 {
        0
    } else {
        total_events(ms.drop_last()) + ms.last().0.len()
    }
}

/// The number of notes, chords and rests among the first `n` events.
pub open spec fn count_timed(events: Seq<Spanned<ScoreEvent>>, n: int) -> nat
    decreases n,
{
    if n <= 0 {
        0
    } else {
        count_timed(events, n - 1) + if is_timed(events[n - 1].value) {
            1nat
        } else {
            0nat
        }
    }
}

pub open spec fn grouped_note(pn: ParsedNote) -> GroupedNote {
    GroupedNote {
        pitch: pn.pitch,
        octave: pn.octave,
        duration: pn.duration,
        tie: pn.tie && pn.slur_group_close_at_duration.is_none(),
        group_membership: pn.group_membership,
        group_continuation: pn.group_continuation,
        dotted: pn.dotted,
        slur_group_close_at_duration: pn.slur_group_close_at_duration,
    }
}

pub open spec fn grouped_chord(pc: ParsedChordNote) -> GroupedChordNote {
    GroupedChordNote {
        degree: pc.degree,
        accidental: pc.accidental,
        triad: pc.triad,
        extension: pc.extension,
        bass: pc.bass,
        duration: pc.duration,
        tie: pc.tie && pc.slur_group_close_at_duration.is_none(),
        group_membership: pc.group_membership,
        group_continuation: pc.group_continuation,
        dotted: pc.dotted,
        slur_group_close_at_duration: pc.slur_group_close_at_duration,
    }
}

pub open spec fn grouped_rest(pr: ParsedRest) -> GroupedRest {
    GroupedRest {
        duration: pr.duration,
        dotted: pr.dotted,
        group_membership: pr.group_membership,
        group_continuation: pr.group_continuation,
    }
}

/// Quarter-beats in a measure of `numerator/denominator` (sixteen per whole note).
pub open spec fn capacity_of(numerator: u8, denominator: u8) -> int {
    (numerator as int) * 16 / (denominator as int)
}

pub open spec fn initial_model() -> PartModel {
    PartModel {
        measures: seq![],
        current: seq![],
        span: Span { start: 0, end: 0 },
        beat: 0,
        capacity: 16,
    }
}

/// Closing the measure being filled, if it holds anything.
pub open spec fn model_flush(m: PartModel) -> PartModel {
    if m.current.len() == 0 {
        m
    } else {
        PartModel {
            measures: m.measures.push((m.current, m.span)),
            current: seq![],
            span: m.span,
            beat: 0,
            capacity: m.capacity,
        }
    }
}

/// The span of the measure being filled once source `sp` joins it.
pub open spec fn extended_span(m: PartModel, sp: Span) -> Span {
    if m.current.len() == 0 {
        sp
    } else {
        Span { start: m.span.start, end: sp.end }
    }
}

pub open spec fn overflow_message(label: Seq<char>, duration: nat, capacity: int, used: int) -> Seq<
    char,
> {
    label + " duration "@ + decimal(duration) + " overflows the current measure (capacity "@
        + decimal(capacity as nat) + " quarter-beats, "@ + decimal(used as nat) + " used)"@
}

/// Adding a timed event: a full measure is closed first; the event may not overflow
/// the measure; a measure that becomes exactly full is closed.
pub open spec fn model_push(m: PartModel, sp: Span, e: NoteEvent, label: Seq<char>) -> Result<
    PartModel,
    (Span, Seq<char>, ErrorKind),
> {
    let m1 = if m.beat >= m.capacity {
        model_flush(m)
    } else {
        m
    };
    let m2 = PartModel {
        measures: m1.measures,
        current: m1.current.push(e),
        span: extended_span(m1, sp),
        beat: m1.beat + event_duration(e),
        capacity: m1.capacity,
    };
    if m2.beat > m2.capacity {
        Err(
            (
                sp,
                overflow_message(label, event_duration(e), m2.capacity, m2.beat),
                ErrorKind::General,
            ),
        )
    } else if m2.beat == m2.capacity {
        Ok(model_flush(m2))
    } else {
        Ok(m2)
    }
}

/// A note or chord lengthened by `d` quarter-beats; a rest is unchanged.
pub open spec fn lengthened(e: NoteEvent, d: nat) -> NoteEvent {
    match e {
        NoteEvent::Note(n) => NoteEvent::Note(
            GroupedNote {
                pitch: n.pitch,
                octave: n.octave,
                duration: (n.duration + d) as u32,
                tie: n.tie,
                group_membership: n.group_membership,
                group_continuation: n.group_continuation,
                dotted: n.dotted,
                slur_group_close_at_duration: n.slur_group_close_at_duration,
            },
        ),
        NoteEvent::Chord(c) => NoteEvent::Chord(
            GroupedChordNote {
                degree: c.degree,
                accidental: c.accidental,
                triad: c.triad,
                extension: c.extension,
                bass: c.bass,
                duration: (c.duration + d) as u32,
                tie: c.tie,
                group_membership: c.group_membership,
                group_continuation: c.group_continuation,
                dotted: c.dotted,
                slur_group_close_at_duration: c.slur_group_close_at_duration,
            },
        ),
        NoteEvent::Rest(r) => NoteEvent::Rest(r),
    }
}

/// A note or chord marked as tied to the next; a rest is unchanged.
pub open spec fn tied(e: NoteEvent) -> NoteEvent {
    match e {
        NoteEvent::Note(n) => NoteEvent::Note(
            GroupedNote {
                pitch: n.pitch,
                octave: n.octave,
                duration: n.duration,
                tie: true,
                group_membership: n.group_membership,
                group_continuation: n.group_continuation,
                dotted: n.dotted,
                slur_group_close_at_duration: n.slur_group_close_at_duration,
            },
        ),
        NoteEvent::Chord(c) => NoteEvent::Chord(
            GroupedChordNote {
                degree: c.degree,
                accidental: c.accidental,
                triad: c.triad,
                extension: c.extension,
                bass: c.bass,
                duration: c.duration,
                tie: true,
                group_membership: c.group_membership,
                group_continuation: c.group_continuation,
                dotted: c.dotted,
                slur_group_close_at_duration: c.slur_group_close_at_duration,
            },
        ),
        NoteEvent::Rest(r) => NoteEvent::Rest(r),
    }
}

pub open spec fn orphan_extension_message(kind: PartKind) -> Seq<char> {
    if kind == PartKind::Chord {
        "chord extension '-' with no preceding event"@
    } else {
        "extension `-` without a preceding note or rest; if it follows a measure boundary, cross-measure extension is not supported"@
    }
}

pub open spec fn orphan_tie_message() -> Seq<char> {
    "tie `~` without a preceding note"@
}

/// A `-` extends the last event of the measure being filled by a beat; a rest cannot be
/// extended, and there must be an event to extend. A measure that becomes full is closed.
pub open spec fn model_extend(kind: PartKind, m: PartModel, sp: Span) -> Result<
    PartModel,
    (Span, Seq<char>, ErrorKind),
> {
    if m.current.len() == 0 {
        Err((sp, orphan_extension_message(kind), ErrorKind::General))
    } else if m.current.last() is Rest {
        Err((sp, dash_after_rest_message(), ErrorKind::DashAfterRest))
    } else {
        let m1 = PartModel {
            measures: m.measures,
            current: m.current.update(m.current.len() - 1, lengthened(m.current.last(), 4)),
            span: extended_span(m, sp),
            beat: m.beat + 4,
            capacity: m.capacity,
        };
        if m1.beat >= m1.capacity {
            Ok(model_flush(m1))
        } else {
            Ok(m1)
        }
    }
}

/// A `~` ties the last event so far, looking back into the last closed measure when the
/// current one is empty; that event must be a note or a chord.
pub open spec fn model_tie(m: PartModel, sp: Span) -> Result<PartModel, (Span, Seq<char>, ErrorKind)> {
    if m.current.len() > 0 {
        if m.current.last() is Rest {
            Err((sp, orphan_tie_message(), ErrorKind::General))
        } else {
            Ok(
                PartModel {
                    measures: m.measures,
                    current: m.current.update(m.current.len() - 1, tied(m.current.last())),
                    span: m.span,
                    beat: m.beat,
                    capacity: m.capacity,
                },
            )
        }
    } else if m.measures.len() > 0 && m.measures.last().0.len() > 0 {
        let evs = m.measures.last().0;
        if evs.last() is Rest {
            Err((sp, orphan_tie_message(), ErrorKind::General))
        } else {
            Ok(
                PartModel {
                    measures: m.measures.update(
                        m.measures.len() - 1,
                        (evs.update(evs.len() - 1, tied(evs.last())), m.measures.last().1),
                    ),
                    current: m.current,
                    span: m.span,
                    beat: m.beat,
                    capacity: m.capacity,
                },
            )
        }
    } else {
        Err((sp, orphan_tie_message(), ErrorKind::General))
    }
}

/// One event of a part applied to the grouping state. Directives other than a time
/// signature belong to the directive line and leave the state as it is.
pub open spec fn model_step(kind: PartKind, m: PartModel, ev: Spanned<ScoreEvent>) -> Result<
    PartModel,
    (Span, Seq<char>, ErrorKind),
> {
    match ev.value {
        ScoreEvent::TimeSignatureChange { numerator, denominator } => Ok(
            PartModel {
                measures: m.measures,
                current: m.current,
                span: m.span,
                beat: m.beat,
                capacity: capacity_of(numerator, denominator),
            },
        ),
        ScoreEvent::Extension => model_extend(kind, m, ev.span),
        ScoreEvent::TieMarker => model_tie(m, ev.span),
        ScoreEvent::Note(pn) => model_push(m, ev.span, NoteEvent::Note(grouped_note(pn)), "note"@),
        ScoreEvent::Chord(pc) => model_push(
            m,
            ev.span,
            NoteEvent::Chord(grouped_chord(pc)),
            "chord"@,
        ),
        ScoreEvent::Rest(pr) => model_push(m, ev.span, NoteEvent::Rest(grouped_rest(pr)), "rest"@),
        _ => Ok(m),
    }
}

/// The grouping state after the first `n` events, or the first error.
pub open spec fn part_fold(kind: PartKind, events: Seq<Spanned<ScoreEvent>>, n: int) -> Result<
    PartModel,
    (Span, Seq<char>, ErrorKind),
>
    decreases n,
{
    if n <= 0 {
        Ok(initial_model())
    } else {
        match part_fold(kind, events, n - 1) {
            Ok(m) => model_step(kind, m, events[n - 1]),
            Err(e) => Err(e),
        }
    }
}

/// The measures of a finished part: the closed ones and the last, if it holds anything.
pub open spec fn finish_measures(m: PartModel) -> Seq<(Seq<NoteEvent>, Span)> {
    if m.current.len() > 0 {
        m.measures.push((m.current, m.span))
    } else {
        m.measures
    }
}

/// Every time signature of the events has a nonzero denominator.
pub open spec fn valid_time_signatures(events: Seq<Spanned<ScoreEvent>>) -> bool {
    forall|i: int|
        0 <= i < events.len() ==> (#[trigger] events[i].value matches ScoreEvent::TimeSignatureChange {
            denominator,
            ..
        } ==> denominator != 0)
}

pub open spec fn measure_view(g: GroupedMeasure) -> (Seq<NoteEvent>, Span) {
    (g.notes.events@, g.source_span)
}

pub open spec fn measures_view(ms: Seq<GroupedMeasure>) -> Seq<(Seq<NoteEvent>, Span)> {
    ms.map_values(|g: GroupedMeasure| measure_view(g))
}

pub proof fn lemma_sum_push(s: Seq<NoteEvent>, e: NoteEvent)
    ensures
        sum_durations(s.push(e)) == sum_durations(s) + event_duration(e),
{
    assert(s.push(e).drop_last() =~= s);
}

pub proof fn lemma_sum_update_last(s: Seq<NoteEvent>, e: NoteEvent)
    requires
        s.len() > 0,
    ensures
        sum_durations(s.update(s.len() - 1, e)) == sum_durations(s) - event_duration(s.last())
            + event_duration(e),
        event_duration(s.last()) <= sum_durations(s),
{
    assert(s.update(s.len() - 1, e).drop_last() =~= s.drop_last());
}

/// Once grouping fails, later events do not change the error.
pub proof fn lemma_fold_error_persists(
    kind: PartKind,
    events: Seq<Spanned<ScoreEvent>>,
    a: int,
    b: int,
)
    requires
        0 <= a <= b,
        part_fold(kind, events, a) is Err,
    ensures
        part_fold(kind, events, b) == part_fold(kind, events, a),
    decreases b - a,
{
    if a < b {
        lemma_fold_error_persists(kind, events, a, b - 1);
    }
}

/// A step never adds more quarter-beats to the measure being filled than the event weighs.
pub proof fn lemma_step_beat(kind: PartKind, m: PartModel, ev: Spanned<ScoreEvent>)
    requires
        m.beat >= 0,
    ensures
        model_step(kind, m, ev) matches Ok(m2) ==> 0 <= m2.beat <= m.beat + weight(ev.value),
{
}


/// The measure being filled weighs what its events weigh, and no closed measure is empty.
pub open spec fn grouping_inv(m: PartModel) -> bool {
    &&& m.beat == sum_durations(m.current)
    &&& forall|k: int| 0 <= k < m.measures.len() ==> (#[trigger] m.measures[k]).0.len() > 0
}

/// The number of events held, closed or not.
pub open spec fn held_events(m: PartModel) -> nat {
    total_events(m.measures) + m.current.len()
}

pub proof fn lemma_total_push(ms: Seq<(Seq<NoteEvent>, Span)>, x: (Seq<NoteEvent>, Span))
    ensures
        total_events(ms.push(x)) == total_events(ms) + x.0.len(),
{
    assert(ms.push(x).drop_last() =~= ms);
}

pub proof fn lemma_total_update_last(ms: Seq<(Seq<NoteEvent>, Span)>, y: (Seq<NoteEvent>, Span))
    requires
        ms.len() > 0,
    ensures
        total_events(ms.update(ms.len() - 1, y)) == total_events(ms) - ms.last().0.len() + y.0.len(),
{
    assert(ms.update(ms.len() - 1, y).drop_last() =~= ms.drop_last());
}

proof fn lemma_flush_keeps(m: PartModel)
    requires
        grouping_inv(m),
    ensures
        grouping_inv(model_flush(m)),
        held_events(model_flush(m)) == held_events(m),
{
    if m.current.len() > 0 {
        lemma_total_push(m.measures, (m.current, m.span));
        assert(sum_durations(seq![]) == 0);
    }
}

proof fn lemma_push_keeps(m: PartModel, sp: Span, e: NoteEvent, label: Seq<char>)
    requires
        grouping_inv(m),
    ensures
        model_push(m, sp, e, label) matches Ok(m2) ==> grouping_inv(m2) && held_events(m2)
            == held_events(m) + 1,
{
    lemma_flush_keeps(m);
    let m1 = if m.beat >= m.capacity {
        model_flush(m)
    } else {
        m
    };
    lemma_sum_push(m1.current, e);
    let m2 = PartModel {
        measures: m1.measures,
        current: m1.current.push(e),
        span: extended_span(m1, sp),
        beat: m1.beat + event_duration(e),
        capacity: m1.capacity,
    };
    assert(grouping_inv(m2));
    lemma_flush_keeps(m2);
}

proof fn lemma_step_keeps(kind: PartKind, m: PartModel, ev: Spanned<ScoreEvent>)
    requires
        grouping_inv(m),
        m.beat + weight(ev.value) <= u32::MAX,
    ensures
        model_step(kind, m, ev) matches Ok(m2) ==> grouping_inv(m2) && held_events(m2)
            == held_events(m) + if is_timed(ev.value) {
            1nat
        } else {
            0nat
        },
{
    match ev.value {
        ScoreEvent::Note(pn) => lemma_push_keeps(m, ev.span, NoteEvent::Note(grouped_note(pn)), "note"@),
        ScoreEvent::Chord(pc) => lemma_push_keeps(
            m,
            ev.span,
            NoteEvent::Chord(grouped_chord(pc)),
            "chord"@,
        ),
        ScoreEvent::Rest(pr) => lemma_push_keeps(m, ev.span, NoteEvent::Rest(grouped_rest(pr)), "rest"@),
        ScoreEvent::Extension => {
            if m.current.len() > 0 && !(m.current.last() is Rest) {
                lemma_sum_update_last(m.current, lengthened(m.current.last(), 4));
                let m1 = PartModel {
                    measures: m.measures,
                    current: m.current.update(m.current.len() - 1, lengthened(m.current.last(), 4)),
                    span: extended_span(m, ev.span),
                    beat: m.beat + 4,
                    capacity: m.capacity,
                };
                lemma_flush_keeps(m1);
            }
        },
        ScoreEvent::TieMarker => {
            if m.current.len() > 0 {
                lemma_sum_update_last(m.current, tied(m.current.last()));
            } else if m.measures.len() > 0 && m.measures.last().0.len() > 0 {
                let evs = m.measures.last().0;
                let y = (evs.update(evs.len() - 1, tied(evs.last())), m.measures.last().1);
                lemma_total_update_last(m.measures, y);
                let ms2 = m.measures.update(m.measures.len() - 1, y);
                assert forall|k: int| 0 <= k < ms2.len() implies (#[trigger] ms2[k]).0.len() > 0 by {
                    if k < ms2.len() - 1 {
                        assert(ms2[k] == m.measures[k]);
                    }
                }
            }
        },
        _ => {},
    }
}

/// Law: while a part is grouped, the beat count of the measure being filled is the sum of
/// its events' durations, and every closed measure holds at least one event.
pub proof fn part_grouping_keeps_invariant(kind: PartKind, events: Seq<Spanned<ScoreEvent>>, n: int)
    requires
        0 <= n <= events.len(),
        weight_sum(events, events.len() as int) <= u32::MAX,
    ensures
        part_fold(kind, events, n) matches Ok(m) ==> grouping_inv(m),
{
    lemma_held_counts(kind, events, n);
}

/// Law: grouping loses no event: the measures of a part hold exactly as many events as
/// the part has notes, chords and rests.
pub proof fn part_grouping_keeps_every_event(kind: PartKind, events: Seq<Spanned<ScoreEvent>>, n: int)
    requires
        0 <= n <= events.len(),
        weight_sum(events, events.len() as int) <= u32::MAX,
    ensures
        part_fold(kind, events, n) matches Ok(m) ==> total_events(finish_measures(m))
            == count_timed(events, n),
{
    lemma_held_counts(kind, events, n);
    if let Ok(m) = part_fold(kind, events, n) {
        if m.current.len() > 0 {
            lemma_total_push(m.measures, (m.current, m.span));
        }
    }
}

proof fn lemma_held_counts(kind: PartKind, events: Seq<Spanned<ScoreEvent>>, n: int)
    requires
        0 <= n <= events.len(),
        weight_sum(events, events.len() as int) <= u32::MAX,
    ensures
        part_fold(kind, events, n) matches Ok(m) ==> held_events(m) == count_timed(events, n)
            && grouping_inv(m) && 0 <= m.beat <= weight_sum(events, n),
    decreases n,
{
    if n > 0 {
        lemma_held_counts(kind, events, n - 1);
        if let Ok(m) = part_fold(kind, events, n - 1) {
            crate::grouping::lemma_weight_sum_mono(events, n, events.len() as int);
            lemma_step_beat(kind, m, events[n - 1]);
            lemma_step_keeps(kind, m, events[n - 1]);
        }
    } else {
        assert(total_events(initial_model().measures) == 0);
    }
}

/// Groups one part's events into measures.
pub struct PartGrouper {
    pub part_kind: PartKind,
    pub measures: Vec<GroupedMeasure>,
    pub current_notes: Vec<NoteEvent>,
    pub current_span: Span,
    pub current_beat: u32,
    pub capacity: u32,
}

impl PartGrouper {
    pub open spec fn model(&self) -> PartModel {
        PartModel {
            measures: measures_view(self.measures@),
            current: self.current_notes@,
            span: self.current_span,
            beat: self.current_beat as int,
            capacity: self.capacity as int,
        }
    }

    /// The beat count agrees with the events of the measure being filled.
    pub open spec fn inv(&self) -> bool {
        self.current_beat == sum_durations(self.current_notes@)
    }

    pub fn new(kind: PartKind) -> (g: Self)
        ensures
            g.model() == initial_model(),
            g.part_kind == kind,
            g.inv(),
    {
        let g = PartGrouper {
            part_kind: kind,
            measures: Vec::new(),
            current_notes: Vec::new(),
            current_span: Span::new(0, 0),
            current_beat: 0,
            capacity: Self::measure_capacity(4, 4),
        };
        proof {
            assert(measures_view(g.measures@) =~= seq![]);
        }
        g
    }

    fn measure_capacity(numerator: u8, denominator: u8) -> (c: u32)
        requires
            denominator != 0,
        ensures
            c == capacity_of(numerator, denominator),
    {
        (numerator as u32) * 16 / (denominator as u32)
    }

    fn flush_measure(&mut self)
        requires
            old(self).inv(),
        ensures
            final(self).model() == model_flush(old(self).model()),
            final(self).part_kind == old(self).part_kind,
            final(self).inv(),
    {
        if self.current_notes.len() == 0 {
            return;
        }
        let mut events: Vec<NoteEvent> = Vec::new();
        std::mem::swap(&mut events, &mut self.current_notes);
        let ghost before = self.measures@;
        self.measures.push(GroupedMeasure { notes: Notes { events }, source_span: self.current_span });
        self.current_beat = 0;
        proof {
            assert(measures_view(self.measures@) =~= measures_view(before).push(
                (events@, self.current_span),
            ));
            assert(self.current_notes@ =~= seq![]);
        }
    }

    /// Adds a timed event to the measure being filled; see `model_push`.
    fn push_timed_event(&mut self, span: Span, event: NoteEvent, overflow_label: &str) -> (r: Result<
        (),
        JianPuError,
    >)
        requires
            old(self).inv(),
            old(self).current_beat + event_duration(event) <= u32::MAX,
        ensures
            final(self).part_kind == old(self).part_kind,
            match model_push(old(self).model(), span, event, overflow_label@) {
                Ok(m) => r is Ok && final(self).model() == m && final(self).inv(),
                Err(x) => r matches Err(e) && error_matches(e, x),
            },
    {
        if self.current_beat >= self.capacity {
            self.flush_measure();
        }
        let new_span = if self.current_notes.len() == 0 {
            span
        } else {
            Span::new(self.current_span.start, span.end)
        };
        let duration = duration_of(&event);
        proof {
            lemma_sum_push(self.current_notes@, event);
        }
        self.current_notes.push(event);
        self.current_span = new_span;
        self.current_beat = self.current_beat + duration;
        if self.current_beat > self.capacity {
            let mut msg = String::from_str(overflow_label);
            msg.append(" duration ");
            let d = decimal_string(duration as usize);
            msg.append(d.as_str());
            msg.append(" overflows the current measure (capacity ");
            let c = decimal_string(self.capacity as usize);
            msg.append(c.as_str());
            msg.append(" quarter-beats, ");
            let u = decimal_string(self.current_beat as usize);
            msg.append(u.as_str());
            msg.append(" used)");
            return Err(JianPuError::new(span, msg));
        }
        if self.current_beat == self.capacity {
            self.flush_measure();
        }
        Ok(())
    }

    /// Lengthens the last event by a beat; see `model_extend`.
    fn handle_extension(&mut self, span: Span) -> (r: Result<(), JianPuError>)
        requires
            old(self).inv(),
            old(self).current_beat + 4 <= u32::MAX,
        ensures
            final(self).part_kind == old(self).part_kind,
            match model_extend(old(self).part_kind, old(self).model(), span) {
                Ok(m) => r is Ok && final(self).model() == m && final(self).inv(),
                Err(x) => r matches Err(e) && error_matches(e, x),
            },
    {
        let n = self.current_notes.len();
        if n == 0 {
            let message = if self.part_kind == PartKind::Chord {
                String::from_str("chord extension '-' with no preceding event")
            } else {
                String::from_str(
                    "extension `-` without a preceding note or rest; if it follows a measure boundary, cross-measure extension is not supported",
                )
            };
            return Err(JianPuError::new(span, message));
        }
        let last = self.current_notes[n - 1];
        if let NoteEvent::Rest(_) = last {
            return Err(JianPuError::dash_after_rest(span));
        }
        proof {
            lemma_sum_update_last(self.current_notes@, lengthened(last, 4));
        }
        let longer = lengthen(last);
        self.current_notes.set(n - 1, longer);
        self.current_span = Span::new(self.current_span.start, span.end);
        self.current_beat = self.current_beat + 4;
        if self.current_beat >= self.capacity {
            self.flush_measure();
        }
        Ok(())
    }

    /// Ties the last event so far; see `model_tie`.
    fn handle_tie_marker(&mut self, span: Span) -> (r: Result<(), JianPuError>)
        requires
            old(self).inv(),
        ensures
            final(self).part_kind == old(self).part_kind,
            match model_tie(old(self).model(), span) {
                Ok(m) => r is Ok && final(self).model() == m && final(self).inv(),
                Err(x) => r matches Err(e) && error_matches(e, x) && final(self).model() == old(self).model()
                    && final(self).inv(),
            },
    {
        let n = self.current_notes.len();
        if n > 0 {
            let last = self.current_notes[n - 1];
            if let NoteEvent::Rest(_) = last {
                return Err(JianPuError::new(span, String::from_str("tie `~` without a preceding note")));
            }
            proof {
                lemma_sum_update_last(self.current_notes@, tied(last));
            }
            self.current_notes.set(n - 1, tie_event(last));
            return Ok(());
        }
        let k = self.measures.len();
        if k == 0 {
            return Err(JianPuError::new(span, String::from_str("tie `~` without a preceding note")));
        }
        let j = self.measures[k - 1].notes.events.len();
        if j == 0 {
            return Err(JianPuError::new(span, String::from_str("tie `~` without a preceding note")));
        }
        let last = self.measures[k - 1].notes.events[j - 1];
        if let NoteEvent::Rest(_) = last {
            return Err(JianPuError::new(span, String::from_str("tie `~` without a preceding note")));
        }
        let ghost before = self.measures@;
        proof {
            assert(measure_view(before[k - 1]) == measures_view(before).last());
        }
        let mut m = self.measures.pop().unwrap();
        m.notes.events.set(j - 1, tie_event(last));
        self.measures.push(m);
        proof {
            let old_last = measures_view(before).last();
            assert(measures_view(self.measures@) =~= measures_view(before).update(
                k - 1,
                (old_last.0.update(j - 1, tied(old_last.0.last())), old_last.1),
            ));
        }
        Ok(())
    }

    /// Applies one event; see `model_step`.
    fn process_event(&mut self, spanned: &Spanned<ScoreEvent>) -> (r: Result<(), JianPuError>)
        requires
            old(self).inv(),
            old(self).current_beat + weight(spanned.value) <= u32::MAX,
            spanned.value matches ScoreEvent::TimeSignatureChange { denominator, .. }
                ==> denominator != 0,
        ensures
            final(self).part_kind == old(self).part_kind,
            match model_step(old(self).part_kind, old(self).model(), *spanned) {
                Ok(m) => r is Ok && final(self).model() == m && final(self).inv(),
                Err(x) => r matches Err(e) && error_matches(e, x),
            },
    {
        let span = spanned.span;
        match &spanned.value {
            ScoreEvent::TimeSignatureChange { numerator, denominator } => {
                self.capacity = Self::measure_capacity(*numerator, *denominator);
                Ok(())
            },
            ScoreEvent::Extension => self.handle_extension(span),
            ScoreEvent::TieMarker => self.handle_tie_marker(span),
            ScoreEvent::Note(pn) => self.handle_note(span, *pn),
            ScoreEvent::Chord(pc) => self.handle_chord(span, *pc),
            ScoreEvent::Rest(pr) => self.handle_rest(span, pr),
            _ => Ok(()),
        }
    }

    fn handle_note(&mut self, span: Span, pn: ParsedNote) -> (r: Result<(), JianPuError>)
        requires
            old(self).inv(),
            old(self).current_beat + pn.duration <= u32::MAX,
        ensures
            final(self).part_kind == old(self).part_kind,
            match model_push(old(self).model(), span, NoteEvent::Note(grouped_note(pn)), "note"@) {
                Ok(m) => r is Ok && final(self).model() == m && final(self).inv(),
                Err(x) => r matches Err(e) && error_matches(e, x),
            },
    {
        let note = GroupedNote {
            pitch: pn.pitch,
            octave: pn.octave,
            duration: pn.duration,
            tie: pn.tie && pn.slur_group_close_at_duration.is_none(),
            group_membership: pn.group_membership,
            group_continuation: pn.group_continuation,
            dotted: pn.dotted,
            slur_group_close_at_duration: pn.slur_group_close_at_duration,
        };
        self.push_timed_event(span, NoteEvent::Note(note), "note")
    }

    fn handle_chord(&mut self, span: Span, pc: ParsedChordNote) -> (r: Result<(), JianPuError>)
        requires
            old(self).inv(),
            old(self).current_beat + pc.duration <= u32::MAX,
        ensures
            final(self).part_kind == old(self).part_kind,
            match model_push(old(self).model(), span, NoteEvent::Chord(grouped_chord(pc)), "chord"@) {
                Ok(m) => r is Ok && final(self).model() == m && final(self).inv(),
                Err(x) => r matches Err(e) && error_matches(e, x),
            },
    {
        let chord = GroupedChordNote {
            degree: pc.degree,
            accidental: pc.accidental,
            triad: pc.triad,
            extension: pc.extension,
            bass: pc.bass,
            duration: pc.duration,
            tie: pc.tie && pc.slur_group_close_at_duration.is_none(),
            group_membership: pc.group_membership,
            group_continuation: pc.group_continuation,
            dotted: pc.dotted,
            slur_group_close_at_duration: pc.slur_group_close_at_duration,
        };
        self.push_timed_event(span, NoteEvent::Chord(chord), "chord")
    }

    fn handle_rest(&mut self, span: Span, pr: &ParsedRest) -> (r: Result<(), JianPuError>)
        requires
            old(self).inv(),
            old(self).current_beat + pr.duration <= u32::MAX,
        ensures
            final(self).part_kind == old(self).part_kind,
            match model_push(old(self).model(), span, NoteEvent::Rest(grouped_rest(*pr)), "rest"@) {
                Ok(m) => r is Ok && final(self).model() == m && final(self).inv(),
                Err(x) => r matches Err(e) && error_matches(e, x),
            },
    {
        let rest = GroupedRest {
            duration: pr.duration,
            dotted: pr.dotted,
            group_membership: pr.group_membership,
            group_continuation: pr.group_continuation,
        };
        self.push_timed_event(span, NoteEvent::Rest(rest), "rest")
    }

    /// The measures of the part, the one being filled closed last if it holds anything.
    fn finish(self) -> (ms: Vec<GroupedMeasure>)
        ensures
            measures_view(ms@) == finish_measures(self.model()),
    {
        let mut measures = self.measures;
        if self.current_notes.len() > 0 {
            let ghost before = measures@;
            measures.push(
                GroupedMeasure {
                    notes: Notes { events: self.current_notes },
                    source_span: self.current_span,
                },
            );
            proof {
                assert(measures_view(measures@) =~= measures_view(before).push(
                    (self.current_notes@, self.current_span),
                ));
            }
        }
        measures
    }
}

fn duration_of(e: &NoteEvent) -> (d: u32)
    ensures
        d == event_duration(*e),
{
    match e {
        NoteEvent::Note(n) => n.duration,
        NoteEvent::Chord(c) => c.duration,
        NoteEvent::Rest(r) => r.duration,
    }
}

fn lengthen(e: NoteEvent) -> (r: NoteEvent)
    requires
        event_duration(e) + 4 <= u32::MAX,
    ensures
        r == lengthened(e, 4),
{
    match e {
        NoteEvent::Note(n) => NoteEvent::Note(GroupedNote { duration: n.duration + 4, ..n }),
        NoteEvent::Chord(c) => NoteEvent::Chord(GroupedChordNote { duration: c.duration + 4, ..c }),
        NoteEvent::Rest(r) => NoteEvent::Rest(r),
    }
}

fn tie_event(e: NoteEvent) -> (r: NoteEvent)
    ensures
        r == tied(e),
{
    match e {
        NoteEvent::Note(n) => NoteEvent::Note(GroupedNote { tie: true, ..n }),
        NoteEvent::Chord(c) => NoteEvent::Chord(GroupedChordNote { tie: true, ..c }),
        NoteEvent::Rest(r) => NoteEvent::Rest(r),
    }
}

/// A part grouped from `p` with final state `m`, as plain values.
pub open spec fn grouped_view(p: ParsedTimedTrack, m: PartModel) -> PartView {
    PartView {
        name: Some(p.abbreviation),
        kind: p.kind,
        measures: finish_measures(m),
        lyrics: match p.lyrics {
            Some(l) => Some(l.syllables@),
            None => None,
        },
        ditto: p.ditto_measures@,
        lyrics_ditto: p.lyrics_ditto_measures@,
    }
}

/// The grouping of all of a part's events.
pub open spec fn track_fold(p: ParsedTimedTrack) -> Result<PartModel, (Span, Seq<char>, ErrorKind)> {
    part_fold(p.kind, p.score.events@, p.score.events@.len() as int)
}

/// The events of a part can be grouped without overflowing a `u32` count or dividing by zero.
pub open spec fn groupable(p: ParsedTimedTrack) -> bool {
    &&& weight_sum(p.score.events@, p.score.events@.len() as int) <= u32::MAX
    &&& valid_time_signatures(p.score.events@)
}

fn copy_flags(v: &Vec<bool>) -> (r: Vec<bool>)
    ensures
        r@ == v@,
{
    let mut r: Vec<bool> = Vec::new();
    let mut i: usize = 0;
    while i < v.len()
        invariant
            i <= v@.len(),
            r@ == v@.take(i as int),
        decreases v@.len() - i,
    {
        r.push(v[i]);
        proof {
            assert(v@.take(i + 1 as int) == v@.take(i as int).push(v@[i as int]));
        }
        i += 1;
    }
    proof {
        assert(v@.take(i as int) == v@);
    }
    r
}

/// Groups one timed part's events into measures.
pub fn group_timed_track(part: &ParsedTimedTrack) -> (r: Result<GroupedPart, JianPuError>)
    requires
        groupable(*part),
    ensures
        match track_fold(*part) {
            Ok(m) => r matches Ok(p) && part_view(p) == grouped_view(*part, m),
            Err(x) => r matches Err(e) && error_matches(e, x),
        },
{
    let ghost events = part.score.events@;
    let mut grouper = PartGrouper::new(part.kind);
    let mut i: usize = 0;
    while i < part.score.events.len()
        invariant
            events == part.score.events@,
            i <= events.len(),
            weight_sum(events, events.len() as int) <= u32::MAX,
            valid_time_signatures(events),
            grouper.inv(),
            grouper.part_kind == part.kind,
            part_fold(part.kind, events, i as int) == Ok::<PartModel, (Span, Seq<char>, ErrorKind)>(
                grouper.model(),
            ),
            grouper.current_beat <= weight_sum(events, i as int),
        decreases events.len() - i,
    {
        proof {
            crate::grouping::lemma_weight_sum_mono(events, i + 1, events.len() as int);
            lemma_step_beat(part.kind, grouper.model(), events[i as int]);
        }
        match grouper.process_event(&part.score.events[i]) {
            Ok(_) => {},
            Err(e) => {
                proof {
                    lemma_fold_error_persists(part.kind, events, i + 1, events.len() as int);
                }
                return Err(e);
            },
        }
        i += 1;
    }
    let ghost final_model = grouper.model();
    let measures = grouper.finish();
    let lyrics = match &part.lyrics {
        Some(l) => Some(copy_syllables(l.syllables.as_slice())),
        None => None,
    };
    let grouped = GroupedPart {
        name: Some(copy_string(&part.abbreviation)),
        kind: part.kind,
        measures,
        lyrics,
        ditto_measures: copy_flags(&part.ditto_measures),
        lyrics_ditto_measures: copy_flags(&part.lyrics_ditto_measures),
    };
    proof {
        assert(part_view(grouped).measures == finish_measures(final_model));
    }
    Ok(grouped)
}

/// The bpm, time signature and key in force, and which of them changed since the
/// previous measure.
#[derive(Clone, Copy)]
pub struct DirectiveGrouper {
    pub current_bpm: u32,
    pub current_time_sig: TimeSignature,
    pub current_key: KeyChange,
    pub bpm_changed: bool,
    pub time_sig_changed: bool,
    pub key_changed: bool,
}

/// The default key, C4 natural.
pub open spec fn default_key() -> KeyChange {
    KeyChange { note: Note { name: NoteName::C, octave: 4, accidental: Accidental::Natural } }
}

/// Before the first measure: 120 bpm, 4/4, C4, all reported as changed.
pub open spec fn initial_directives() -> DirectiveGrouper {
    DirectiveGrouper {
        current_bpm: 120,
        current_time_sig: TimeSignature { numerator: 4, denominator: 4 },
        current_key: default_key(),
        bpm_changed: true,
        time_sig_changed: true,
        key_changed: true,
    }
}

pub open spec fn apply_directive(g: DirectiveGrouper, e: ScoreEvent) -> DirectiveGrouper {
    match e {
        ScoreEvent::BpmChange(b) => DirectiveGrouper {
            current_bpm: b,
            current_time_sig: g.current_time_sig,
            current_key: g.current_key,
            bpm_changed: true,
            time_sig_changed: g.time_sig_changed,
            key_changed: g.key_changed,
        },
        ScoreEvent::TimeSignatureChange { numerator, denominator } => DirectiveGrouper {
            current_bpm: g.current_bpm,
            current_time_sig: TimeSignature { numerator, denominator },
            current_key: g.current_key,
            bpm_changed: g.bpm_changed,
            time_sig_changed: true,
            key_changed: g.key_changed,
        },
        ScoreEvent::KeyChange(kc) => DirectiveGrouper {
            current_bpm: g.current_bpm,
            current_time_sig: g.current_time_sig,
            current_key: kc,
            bpm_changed: g.bpm_changed,
            time_sig_changed: g.time_sig_changed,
            key_changed: true,
        },
        _ => g,
    }
}

pub open spec fn apply_directives(g: DirectiveGrouper, events: Seq<Spanned<ScoreEvent>>, n: int) -> DirectiveGrouper
    decreases n,
{
    if n <= 0 {
        g
    } else {
        apply_directive(apply_directives(g, events, n - 1), events[n - 1].value)
    }
}

/// The text of the last label among the first `n` events.
pub open spec fn last_label(events: Seq<Spanned<ScoreEvent>>, n: int) -> Option<String>
    decreases n,
{
    if n <= 0 {
        None
    } else {
        match events[n - 1].value {
            ScoreEvent::LabelChange(t) => Some(t),
            _ => last_label(events, n - 1),
        }
    }
}

/// What a measure reports: each directive only when it changed, and its label.
pub open spec fn reported(g: DirectiveGrouper, label: Option<String>) -> MeasureDirectives {
    MeasureDirectives {
        time_signature: if g.time_sig_changed {
            Some(g.current_time_sig)
        } else {
            None
        },
        bpm: if g.bpm_changed {
            Some(g.current_bpm)
        } else {
            None
        },
        key: if g.key_changed {
            Some(g.current_key)
        } else {
            None
        },
        label,
    }
}

pub open spec fn settled(g: DirectiveGrouper) -> DirectiveGrouper {
    DirectiveGrouper {
        current_bpm: g.current_bpm,
        current_time_sig: g.current_time_sig,
        current_key: g.current_key,
        bpm_changed: false,
        time_sig_changed: false,
        key_changed: false,
    }
}

/// The state when measure `k` starts.
pub open spec fn state_before(g0: DirectiveGrouper, ms: Seq<Vec<Spanned<ScoreEvent>>>, k: int) -> DirectiveGrouper
    decreases k,
{
    if k <= 0 {
        g0
    } else {
        settled(apply_directives(state_before(g0, ms, k - 1), ms[k - 1]@, ms[k - 1]@.len() as int))
    }
}

/// The directives reported for each measure.
pub open spec fn directives_spec(g0: DirectiveGrouper, ms: Seq<Vec<Spanned<ScoreEvent>>>) -> Seq<MeasureDirectives> {
    Seq::new(
        ms.len(),
        |k: int|
            reported(
                apply_directives(state_before(g0, ms, k), ms[k]@, ms[k]@.len() as int),
                last_label(ms[k]@, ms[k]@.len() as int),
            ),
    )
}

impl DirectiveGrouper {
    pub fn new() -> (g: Self)
        ensures
            g == initial_directives(),
    {
        DirectiveGrouper {
            current_bpm: 120,
            current_time_sig: TimeSignature { numerator: 4, denominator: 4 },
            current_key: KeyChange {
                note: Note { name: NoteName::C, octave: 4, accidental: Accidental::Natural },
            },
            bpm_changed: true,
            time_sig_changed: true,
            key_changed: true,
        }
    }

    /// The directives of each measure, from its directive events.
    pub fn process_all(self, directive_events_per_measure: &[Vec<Spanned<ScoreEvent>>]) -> (r: Vec<
        MeasureDirectives,
    >)
        ensures
            r@ == directives_spec(self, directive_events_per_measure@),
            r@.len() == directive_events_per_measure@.len(),
            self == initial_directives() ==> forall|k: int|
                0 <= k < r@.len() ==> directives_in_effect(
                    #[trigger] r@[k],
                    directive_events_per_measure@,
                    k,
                ),
    {
        let ghost ms = directive_events_per_measure@;
        let mut g = self;
        let mut result: Vec<MeasureDirectives> = Vec::new();
        let mut k: usize = 0;
        while k < directive_events_per_measure.len()
            invariant
                ms == directive_events_per_measure@,
                k <= ms.len(),
                g == state_before(self, ms, k as int),
                result@.len() == k,
                forall|m: int| 0 <= m < k ==> result@[m] == directives_spec(self, ms)[m],
            decreases ms.len() - k,
        {
            let events = &directive_events_per_measure[k];
            let ghost g0 = g;
            let mut pending_label: Option<String> = None;
            let mut j: usize = 0;
            while j < events.len()
                invariant
                    j <= events@.len(),
                    g == apply_directives(g0, events@, j as int),
                    pending_label == last_label(events@, j as int),
                decreases events@.len() - j,
            {
                match &events[j].value {
                    ScoreEvent::BpmChange(bpm) => {
                        g.current_bpm = *bpm;
                        g.bpm_changed = true;
                    },
                    ScoreEvent::TimeSignatureChange { numerator, denominator } => {
                        g.current_time_sig = TimeSignature {
                            numerator: *numerator,
                            denominator: *denominator,
                        };
                        g.time_sig_changed = true;
                    },
                    ScoreEvent::KeyChange(kc) => {
                        g.current_key = *kc;
                        g.key_changed = true;
                    },
                    ScoreEvent::LabelChange(text) => {
                        pending_label = Some(copy_string(text));
                    },
                    _ => {},
                }
                j += 1;
            }
            result.push(
                MeasureDirectives {
                    time_signature: if g.time_sig_changed {
                        Some(g.current_time_sig)
                    } else {
                        None
                    },
                    bpm: if g.bpm_changed {
                        Some(g.current_bpm)
                    } else {
                        None
                    },
                    key: if g.key_changed {
                        Some(g.current_key)
                    } else {
                        None
                    },
                    label: pending_label,
                },
            );
            g.bpm_changed = false;
            g.time_sig_changed = false;
            g.key_changed = false;
            k += 1;
        }
        proof {
            assert(result@ =~= directives_spec(self, ms));
            if self == initial_directives() {
                assert forall|k: int| 0 <= k < result@.len() implies directives_in_effect(
                    #[trigger] result@[k],
                    ms,
                    k,
                ) by {
                    directive_reported_iff_changed(ms, k);
                    reported_directives_are_in_effect(ms, k);
                }
            }
        }
        result
    }
}

/// Whether the events hold a bpm, time signature or key change, respectively.
pub open spec fn has_bpm_change(events: Seq<Spanned<ScoreEvent>>) -> bool {
    exists|j: int| 0 <= j < events.len() && (#[trigger] events[j]).value is BpmChange
}

pub open spec fn has_time_change(events: Seq<Spanned<ScoreEvent>>) -> bool {
    exists|j: int| 0 <= j < events.len() && (#[trigger] events[j]).value is TimeSignatureChange
}

pub open spec fn has_key_change(events: Seq<Spanned<ScoreEvent>>) -> bool {
    exists|j: int| 0 <= j < events.len() && (#[trigger] events[j]).value is KeyChange
}

proof fn lemma_changed_flags(g: DirectiveGrouper, events: Seq<Spanned<ScoreEvent>>, n: int)
    requires
        0 <= n <= events.len(),
    ensures
        apply_directives(g, events, n).bpm_changed == (g.bpm_changed || has_bpm_change(
            events.take(n),
        )),
        apply_directives(g, events, n).time_sig_changed == (g.time_sig_changed || has_time_change(
            events.take(n),
        )),
        apply_directives(g, events, n).key_changed == (g.key_changed || has_key_change(
            events.take(n),
        )),
    decreases n,
{
    if n > 0 {
        lemma_changed_flags(g, events, n - 1);
        let a = events.take(n - 1);
        let b = events.take(n);
        assert(b[n - 1] == events[n - 1]);
        assert forall|j: int| 0 <= j < n - 1 implies #[trigger] a[j] == b[j] by {}
        if has_bpm_change(b) && !(events[n - 1].value is BpmChange) {
            let j = choose|j: int| 0 <= j < b.len() && (#[trigger] b[j]).value is BpmChange;
            assert(a[j] == b[j]);
        }
        if has_time_change(b) && !(events[n - 1].value is TimeSignatureChange) {
            let j = choose|j: int| 0 <= j < b.len() && (#[trigger] b[j]).value is TimeSignatureChange;
            assert(a[j] == b[j]);
        }
        if has_key_change(b) && !(events[n - 1].value is KeyChange) {
            let j = choose|j: int| 0 <= j < b.len() && (#[trigger] b[j]).value is KeyChange;
            assert(a[j] == b[j]);
        }
    } else {
        assert(events.take(0).len() == 0);
    }
}

proof fn lemma_state_before_flags(ms: Seq<Vec<Spanned<ScoreEvent>>>, k: int)
    requires
        k >= 0,
    ensures
        state_before(initial_directives(), ms, k).bpm_changed == (k == 0),
        state_before(initial_directives(), ms, k).time_sig_changed == (k == 0),
        state_before(initial_directives(), ms, k).key_changed == (k == 0),
{
}

/// Law: a measure reports its bpm, time signature or key exactly when it is the first
/// measure or its own directive events change it.
pub proof fn directive_reported_iff_changed(ms: Seq<Vec<Spanned<ScoreEvent>>>, k: int)
    requires
        0 <= k < ms.len(),
    ensures
        directives_spec(initial_directives(), ms)[k].bpm is Some <==> (k == 0 || has_bpm_change(
            ms[k]@,
        )),
        directives_spec(initial_directives(), ms)[k].time_signature is Some <==> (k == 0
            || has_time_change(ms[k]@)),
        directives_spec(initial_directives(), ms)[k].key is Some <==> (k == 0 || has_key_change(
            ms[k]@,
        )),
{
    lemma_state_before_flags(ms, k);
    lemma_changed_flags(state_before(initial_directives(), ms, k), ms[k]@, ms[k]@.len() as int);
    assert(ms[k]@.take(ms[k]@.len() as int) =~= ms[k]@);
}

/// The bpm after the first `n` events, starting from `d`.
pub open spec fn bpm_after(events: Seq<Spanned<ScoreEvent>>, n: int, d: u32) -> u32
    decreases n,
{
    if n <= 0 {
        d
    } else {
        match events[n - 1].value {
            ScoreEvent::BpmChange(b) => b,
            _ => bpm_after(events, n - 1, d),
        }
    }
}

/// The time signature after the first `n` events, starting from `d`.
pub open spec fn time_after(events: Seq<Spanned<ScoreEvent>>, n: int, d: TimeSignature) -> TimeSignature
    decreases n,
{
    if n <= 0 {
        d
    } else {
        match events[n - 1].value {
            ScoreEvent::TimeSignatureChange { numerator, denominator } => TimeSignature {
                numerator,
                denominator,
            },
            _ => time_after(events, n - 1, d),
        }
    }
}

/// The key after the first `n` events, starting from `d`.
pub open spec fn key_after(events: Seq<Spanned<ScoreEvent>>, n: int, d: KeyChange) -> KeyChange
    decreases n,
{
    if n <= 0 {
        d
    } else {
        match events[n - 1].value {
            ScoreEvent::KeyChange(kc) => kc,
            _ => key_after(events, n - 1, d),
        }
    }
}

/// The bpm in effect at the end of measure `k`: the last bpm change in measures
/// `0..=k`, or 120.
pub open spec fn bpm_through(ms: Seq<Vec<Spanned<ScoreEvent>>>, k: int) -> u32
    decreases k,
{
    let d = if k <= 0 {
        120u32
    } else {
        bpm_through(ms, k - 1)
    };
    if k < 0 {
        120
    } else {
        bpm_after(ms[k]@, ms[k]@.len() as int, d)
    }
}

/// The time signature in effect at the end of measure `k`: the last change in measures
/// `0..=k`, or 4/4.
pub open spec fn time_through(ms: Seq<Vec<Spanned<ScoreEvent>>>, k: int) -> TimeSignature
    decreases k,
{
    let d = if k <= 0 {
        TimeSignature { numerator: 4, denominator: 4 }
    } else {
        time_through(ms, k - 1)
    };
    if k < 0 {
        TimeSignature { numerator: 4, denominator: 4 }
    } else {
        time_after(ms[k]@, ms[k]@.len() as int, d)
    }
}

/// The key in effect at the end of measure `k`: the last key change in measures `0..=k`,
/// or C4 natural.
pub open spec fn key_through(ms: Seq<Vec<Spanned<ScoreEvent>>>, k: int) -> KeyChange
    decreases k,
{
    let d = if k <= 0 {
        default_key()
    } else {
        key_through(ms, k - 1)
    };
    if k < 0 {
        default_key()
    } else {
        key_after(ms[k]@, ms[k]@.len() as int, d)
    }
}

proof fn lemma_values_after(g: DirectiveGrouper, events: Seq<Spanned<ScoreEvent>>, n: int)
    ensures
        apply_directives(g, events, n).current_bpm == bpm_after(events, n, g.current_bpm),
        apply_directives(g, events, n).current_time_sig == time_after(events, n, g.current_time_sig),
        apply_directives(g, events, n).current_key == key_after(events, n, g.current_key),
    decreases n,
{
    if n > 0 {
        lemma_values_after(g, events, n - 1);
    }
}

proof fn lemma_values_before(ms: Seq<Vec<Spanned<ScoreEvent>>>, k: int)
    requires
        0 <= k <= ms.len(),
    ensures
        state_before(initial_directives(), ms, k).current_bpm == (if k == 0 {
            120u32
        } else {
            bpm_through(ms, k - 1)
        }),
        state_before(initial_directives(), ms, k).current_time_sig == (if k == 0 {
            TimeSignature { numerator: 4, denominator: 4 }
        } else {
            time_through(ms, k - 1)
        }),
        state_before(initial_directives(), ms, k).current_key == (if k == 0 {
            default_key()
        } else {
            key_through(ms, k - 1)
        }),
    decreases k,
{
    if k > 0 {
        lemma_values_before(ms, k - 1);
        lemma_values_after(state_before(initial_directives(), ms, k - 1), ms[k - 1]@, ms[k - 1]@.len() as int);
    }
}

/// What measure `k` reports, starting from the defaults: each of bpm, time signature and
/// key exactly when it is the first measure or its own events change it, and then the
/// value in effect; the label of its own events only.
pub open spec fn directives_in_effect(d: MeasureDirectives, ms: Seq<Vec<Spanned<ScoreEvent>>>, k: int) -> bool {
    &&& (d.bpm is Some <==> (k == 0 || has_bpm_change(ms[k]@)))
    &&& (d.time_signature is Some <==> (k == 0 || has_time_change(ms[k]@)))
    &&& (d.key is Some <==> (k == 0 || has_key_change(ms[k]@)))
    &&& (d.bpm matches Some(b) ==> b == bpm_through(ms, k))
    &&& (d.time_signature matches Some(t) ==> t == time_through(ms, k))
    &&& (d.key matches Some(kc) ==> kc == key_through(ms, k))
    &&& d.label == last_label(ms[k]@, ms[k]@.len() as int)
}

/// Law: what a measure reports is the value in effect: a reported bpm, time signature or
/// key is the last change of it in this measure or an earlier one, or the default (120,
/// 4/4, C4 natural) when there was none; the label is the last label of this measure's
/// own events, and none when it has none (labels do not carry over).
pub proof fn reported_directives_are_in_effect(ms: Seq<Vec<Spanned<ScoreEvent>>>, k: int)
    requires
        0 <= k < ms.len(),
    ensures
        directives_spec(initial_directives(), ms)[k].bpm matches Some(b) ==> b == bpm_through(ms, k),
        directives_spec(initial_directives(), ms)[k].time_signature matches Some(t) ==> t == time_through(
            ms,
            k,
        ),
        directives_spec(initial_directives(), ms)[k].key matches Some(kc) ==> kc == key_through(ms, k),
        directives_spec(initial_directives(), ms)[k].label == last_label(ms[k]@, ms[k]@.len() as int),
{
    lemma_values_before(ms, k);
    lemma_values_after(state_before(initial_directives(), ms, k), ms[k]@, ms[k]@.len() as int);
}

pub open spec fn timed_track(t: ParsedTrack) -> ParsedTimedTrack {
    match t {
        ParsedTrack::Timed(p) => p,
    }
}

/// The first track at or after `from` whose grouping fails, or the track count.
pub open spec fn first_failing_track(tracks: Seq<ParsedTrack>, from: int) -> int
    decreases tracks.len() - from,
{
    if from < 0 || from >= tracks.len() {
        tracks.len() as int
    } else if track_fold(timed_track(tracks[from])) is Err {
        from
    } else {
        first_failing_track(tracks, from + 1)
    }
}

proof fn lemma_first_failing_track_is(tracks: Seq<ParsedTrack>, from: int, k: int)
    requires
        0 <= from <= k <= tracks.len(),
        forall|u: int| from <= u < k ==> track_fold(timed_track(#[trigger] tracks[u])) is Ok,
        k < tracks.len() ==> track_fold(timed_track(tracks[k])) is Err,
    ensures
        first_failing_track(tracks, from) == k,
    decreases k - from,
{
    if from < k {
        lemma_first_failing_track_is(tracks, from + 1, k);
    }
}

/// The grouped parts, as plain values.
pub open spec fn tracks_view(tracks: Seq<ParsedTrack>) -> Seq<PartView> {
    Seq::new(
        tracks.len(),
        |t: int|
            {
                let p = timed_track(tracks[t]);
                match track_fold(p) {
                    Ok(m) => grouped_view(p, m),
                    Err(_) => grouped_view(p, initial_model()),
                }
            },
    )
}

/// Score-wide settings with their defaults filled in.
pub open spec fn metadata_of(md: ParsedMetadata) -> Metadata {
    Metadata {
        title: md.title,
        subtitle: md.subtitle,
        author: md.author,
        row_height: match md.row_height {
            Some(v) => v,
            None => 24,
        },
        max_columns: match md.max_columns {
            Some(v) => v,
            None => 28,
        },
        label_width: match md.label_width {
            Some(v) => v,
            None => 40,
        },
        note_number_width: match md.note_number_width {
            Some(v) => v,
            None => 8,
        },
    }
}

/// Groups a parsed document into a score: each part's events into measures, the
/// directive lines into per-measure directives, and the parts into combined measures.
pub fn group(doc: ParsedDocument) -> (r: Result<Score, JianPuError>)
    requires
        forall|t: int| 0 <= t < doc.tracks@.len() ==> groupable(timed_track(#[trigger] doc.tracks@[t])),
    ensures
        ({
            let k = first_failing_track(doc.tracks@, 0);
            if k < doc.tracks@.len() {
                r matches Err(e) && track_fold(timed_track(doc.tracks@[k])) matches Err(x)
                    && error_matches(e, x)
            } else {
                match combine_spec(
                    directives_spec(initial_directives(), doc.directive_events_per_measure@),
                    tracks_view(doc.tracks@),
                ) {
                    Ok(v) => r matches Ok(score) && score.metadata == metadata_of(doc.metadata)
                        && score.measures@.map_values(|m: MultiPartMeasure| combined_view(m)) == v,
                    Err(x) => r matches Err(e) && error_matches(e, x),
                }
            }
        }),
{
    let ghost tracks = doc.tracks@;
    let mut grouped_tracks: Vec<GroupedTrack> = Vec::new();
    let mut t: usize = 0;
    while t < doc.tracks.len()
        invariant
            tracks == doc.tracks@,
            t <= tracks.len(),
            forall|u: int| 0 <= u < tracks.len() ==> groupable(timed_track(#[trigger] tracks[u])),
            grouped_tracks@.len() == t,
            forall|u: int| 0 <= u < t ==> track_fold(timed_track(#[trigger] tracks[u])) is Ok,
            forall|u: int|
                0 <= u < t ==> part_view(track_part(#[trigger] grouped_tracks@[u])) == tracks_view(
                    tracks,
                )[u],
        decreases tracks.len() - t,
    {
        let part = match &doc.tracks[t] {
            ParsedTrack::Timed(p) => p,
        };
        proof {
            assert(groupable(timed_track(tracks[t as int])));
        }
        match group_timed_track(part) {
            Ok(p) => {
                grouped_tracks.push(GroupedTrack::Timed(p));
            },
            Err(e) => {
                proof {
                    lemma_first_failing_track_is(tracks, 0, t as int);
                }
                return Err(e);
            },
        }
        t += 1;
    }
    proof {
        lemma_first_failing_track_is(tracks, 0, tracks.len() as int);
    }
    let measure_directives = DirectiveGrouper::new().process_all(
        doc.directive_events_per_measure.as_slice(),
    );
    let grouped_score = GroupedScore { measure_directives, parts: grouped_tracks };
    proof {
        assert(parts_view(grouped_score.parts@) =~= tracks_view(tracks));
    }
    let measures = match combine(&grouped_score) {
        Ok(m) => m,
        Err(e) => return Err(e),
    };
    let metadata = doc.metadata;
    let row_height = match metadata.row_height {
        Some(v) => v,
        None => 24,
    };
    let max_columns = match metadata.max_columns {
        Some(v) => v,
        None => 28,
    };
    let label_width = match metadata.label_width {
        Some(v) => v,
        None => 40,
    };
    let note_number_width = match metadata.note_number_width {
        Some(v) => v,
        None => 8,
    };
    Ok(
        Score {
            metadata: Metadata {
                title: metadata.title,
                subtitle: metadata.subtitle,
                author: metadata.author,
                row_height,
                max_columns,
                label_width,
                note_number_width,
            },
            measures,
        },
    )
}

} // verus!
