use vstd::prelude::*;

use super::ast::grouped::{
    GroupedNote, GroupedRest, Measure, MeasureModel, Metadata, NoteEvent, Score, TimeSignature,
};
use super::ast::parsed::{Accidental, KeyChange, Note, NoteName, ParsedDocument, ScoreEvent};
use crate::error::{JianPuError, Span, Spanned};

verus! {

/// Where grouping stands after some events: the measures closed so far, the notes and
/// rests of the open measure with the quarter-beats they fill, and the tempo, key and
/// time signature in force.
pub struct GroupState {
    pub measures: Seq<MeasureModel>,
    pub notes: Seq<NoteEvent>,
    pub beat: int,
    pub bpm: u32,
    pub key: KeyChange,
    pub time_signature: TimeSignature,
}

/// The key in force before any key change: C4 natural.
pub open spec fn default_key() -> KeyChange {
    KeyChange { note: Note { name: NoteName::C, octave: 4, accidental: Accidental::Natural } }
}

/// Grouping starts at 120 bpm, in C, in 4/4, with no measure.
pub open spec fn initial_state() -> GroupState {
    GroupState {
        measures: seq![],
        notes: seq![],
        beat: 0,
        bpm: 120,
        key: default_key(),
        time_signature: TimeSignature { numerator: 4, denominator: 4 },
    }
}

/// The quarter-beats that a measure holds: `numerator * 4 * (4 / denominator)`.
pub open spec fn measure_capacity(ts: TimeSignature) -> int {
    ts.numerator * 4 * (4int / (ts.denominator as int))
}

/// Close the open measure, if it holds anything.
pub open spec fn flush(st: GroupState) -> GroupState {
    if st.notes.len() > 0 {
        GroupState {
            measures: st.measures.push(
                MeasureModel {
                    time_signature: st.time_signature,
                    bpm: st.bpm,
                    key: st.key,
                    notes: st.notes,
                },
            ),
            notes: seq![],
            beat: 0,
            ..st
        }
    } else {
        st
    }
}

/// Close the open measure when it is full.
pub open spec fn flush_if_full(st: GroupState) -> GroupState {
    if st.beat >= measure_capacity(st.time_signature) {
        flush(st)
    } else {
        st
    }
}

/// A note or rest made one beat (4 quarter-beats) longer.
pub open spec fn extended(e: NoteEvent) -> NoteEvent {
    match e {
        NoteEvent::Note(n) => NoteEvent::Note(GroupedNote { duration: (n.duration + 4) as u32, ..n }),
        NoteEvent::Rest(r) => NoteEvent::Rest(GroupedRest { duration: (r.duration + 4) as u32 }),
    }
}

/// Add a note or rest of `dur` quarter-beats: a full measure is closed before and after.
pub open spec fn append_event(st: GroupState, e: NoteEvent, dur: u32) -> GroupState {
    let s1 = flush_if_full(st);
    flush_if_full(GroupState { notes: s1.notes.push(e), beat: s1.beat + dur, ..s1 })
}

/// The effect of one score event; `None` for an extension with nothing to extend.
pub open spec fn group_step(st: GroupState, ev: ScoreEvent) -> Option<GroupState> {
    match ev {
        ScoreEvent::BpmChange(b) => Some(GroupState { bpm: b, ..st }),
        ScoreEvent::KeyChange(k) => Some(GroupState { key: k, ..st }),
        ScoreEvent::TimeSignatureChange { numerator, denominator } => Some(
            GroupState {
                time_signature: TimeSignature { numerator, denominator },
                ..flush(st)
            },
        ),
        ScoreEvent::Extension => if st.notes.len() == 0 {
            None
        } else {
            Some(
                flush_if_full(
                    GroupState {
                        notes: st.notes.update(st.notes.len() - 1, extended(st.notes.last())),
                        beat: st.beat + 4,
                        ..st
                    },
                ),
            )
        },
        ScoreEvent::Note(pn) => Some(
            append_event(
                st,
                NoteEvent::Note(
                    GroupedNote {
                        pitch: pn.pitch,
                        octave: pn.octave,
                        duration: pn.duration,
                        tie: pn.tie,
                    },
                ),
                pn.duration,
            ),
        ),
        ScoreEvent::Rest(pr) => Some(
            append_event(st, NoteEvent::Rest(GroupedRest { duration: pr.duration }), pr.duration),
        ),
    }
}

/// The state after the first `n` events, or the span of the first extension that had
/// nothing to extend.
pub open spec fn group_upto(events: Seq<Spanned<ScoreEvent>>, n: int) -> Result<GroupState, Span>
    decreases n,
{
    if n <= 0 {
        Ok(initial_state())
    } else {
        match group_upto(events, n - 1) {
            Err(sp) => Err(sp),
            Ok(st) => match group_step(st, events[n - 1].value) {
                Some(s) => Ok(s),
                None => Err(events[n - 1].span),
            },
        }
    }
}

/// The measures that the events make, the last one possibly partial, or the span of
/// the first extension that had nothing to extend.
pub open spec fn grouped_measures(events: Seq<Spanned<ScoreEvent>>) -> Result<Seq<MeasureModel>, Span> {
    match group_upto(events, events.len() as int) {
        Ok(st) => Ok(flush(st).measures),
        Err(sp) => Err(sp),
    }
}

/// The arithmetic of one step fits: a time signature's denominator is not zero (the
/// capacity divides by it), and a note or rest, added to the quarter-beats of its
/// measure, keeps them within a `u32`.
pub open spec fn step_fits(st: GroupState, ev: ScoreEvent) -> bool {
    match ev {
        ScoreEvent::TimeSignatureChange { denominator, .. } => denominator != 0,
        ScoreEvent::Note(pn) => flush_if_full(st).beat + pn.duration <= u32::MAX,
        ScoreEvent::Rest(pr) => flush_if_full(st).beat + pr.duration <= u32::MAX,
        _ => true,
    }
}

/// Events that grouping takes: every step that grouping reaches, up to the first error,
/// fits.
pub open spec fn groupable(events: Seq<Spanned<ScoreEvent>>) -> bool {
    forall|i: int|
        0 <= i < events.len() && #[trigger] group_upto(events, i) is Ok ==> step_fits(
            group_upto(events, i)->Ok_0,
            events[i].value,
        )
}

/// The message of the error for an extension with nothing to extend.
pub open spec fn dangling_extension_message() -> Seq<char> {
    "extension `-` without a preceding note or rest"@
}

/// The quarter-beats of a note or rest.
pub open spec fn event_duration(e: NoteEvent) -> int {
    match e {
        NoteEvent::Note(n) => n.duration as int,
        NoteEvent::Rest(r) => r.duration as int,
    }
}

/// The quarter-beats in a run of measures.
pub open spec fn measures_beats(ms: Seq<MeasureModel>) -> int
    decreases ms.len(),
{
    if ms.len() == 0 {
        0
    } else {
        measures_beats(ms.drop_last()) + duration_sum(ms.last().notes)
    }
}

/// The quarter-beats that an event adds: a note's or rest's duration, a beat for `-`.
pub open spec fn event_beats(ev: ScoreEvent) -> int {
    match ev {
        ScoreEvent::Note(pn) => pn.duration as int,
        ScoreEvent::Rest(pr) => pr.duration as int,
        ScoreEvent::Extension => 4,
        _ => 0,
    }
}

/// The quarter-beats that the first `n` events add.
pub open spec fn events_beats(events: Seq<Spanned<ScoreEvent>>, n: int) -> int
    decreases n,
{
    if n <= 0 {
        0
    } else {
        events_beats(events, n - 1) + event_beats(events[n - 1].value)
    }
}

/// Every measure holds at least one note or rest.
pub open spec fn all_nonempty(ms: Seq<MeasureModel>) -> bool {
    forall|i: int| 0 <= i < ms.len() ==> (#[trigger] ms[i]).notes.len() > 0
}

/// What holds of a state that grouping reached: nothing lost, no empty measure.
pub open spec fn kept(st: GroupState, total: int) -> bool {
    &&& sound(st)
    &&& measures_beats(st.measures) + st.beat == total
    &&& all_nonempty(st.measures)
}

proof fn lemma_flush_keeps(st: GroupState, total: int)
    requires
        tallied(st),
        measures_beats(st.measures) + st.beat == total,
        all_nonempty(st.measures),
    ensures
        tallied(flush(st)),
        flush(st).beat == 0,
        measures_beats(flush(st).measures) + flush(st).beat == total,
        all_nonempty(flush(st).measures),
{
    if st.notes.len() > 0 {
        let ms = flush(st).measures;
        assert(ms.drop_last() == st.measures);
    }
}

proof fn lemma_flush_if_full_keeps(st: GroupState, total: int)
    requires
        tallied(st),
        measures_beats(st.measures) + st.beat == total,
        all_nonempty(st.measures),
    ensures
        kept(flush_if_full(st), total),
{
    lemma_flush_keeps(st, total);
}

proof fn lemma_group_upto_kept(events: Seq<Spanned<ScoreEvent>>, n: int)
    requires
        0 <= n <= events.len(),
        groupable(events),
        group_upto(events, n) is Ok,
    ensures
        kept(group_upto(events, n)->Ok_0, events_beats(events, n)),
    decreases n,
{
    if n == 0 {
        assert(initial_state().notes == Seq::<NoteEvent>::empty());
    } else {
        lemma_group_upto_kept(events, n - 1);
        let st = group_upto(events, n - 1)->Ok_0;
        let total = events_beats(events, n - 1);
        let ev = events[n - 1].value;
        let t = events_beats(events, n);
        assert(step_fits(st, ev));
        lemma_capacity_bound(st.time_signature);
        match ev {
            ScoreEvent::TimeSignatureChange { numerator, denominator } => {
                lemma_flush_keeps(st, total);
            },
            ScoreEvent::Extension => {
                lemma_duration_sum_extend_last(st.notes);
                let s1 = GroupState {
                    notes: st.notes.update(st.notes.len() - 1, extended(st.notes.last())),
                    beat: st.beat + 4,
                    ..st
                };
                lemma_flush_if_full_keeps(s1, t);
            },
            ScoreEvent::Note(pn) => {
                let e = NoteEvent::Note(
                    GroupedNote {
                        pitch: pn.pitch,
                        octave: pn.octave,
                        duration: pn.duration,
                        tie: pn.tie,
                    },
                );
                lemma_flush_if_full_keeps(st, total);
                let s1 = flush_if_full(st);
                lemma_duration_sum_push(s1.notes, e);
                lemma_flush_if_full_keeps(
                    GroupState { notes: s1.notes.push(e), beat: s1.beat + pn.duration, ..s1 },
                    t,
                );
            },
            ScoreEvent::Rest(pr) => {
                let e = NoteEvent::Rest(GroupedRest { duration: pr.duration });
                lemma_flush_if_full_keeps(st, total);
                let s1 = flush_if_full(st);
                lemma_duration_sum_push(s1.notes, e);
                lemma_flush_if_full_keeps(
                    GroupState { notes: s1.notes.push(e), beat: s1.beat + pr.duration, ..s1 },
                    t,
                );
            },
            _ => {},
        }
    }
}

/// Grouping loses no time and makes no empty measure: the quarter-beats of the measures
/// add up to the durations of the notes and rests plus a beat for each `-`, and every
/// measure holds at least one note or rest.
pub proof fn grouping_keeps_every_beat(events: Seq<Spanned<ScoreEvent>>)
    requires
        groupable(events),
        grouped_measures(events) is Ok,
    ensures
        measures_beats(grouped_measures(events)->Ok_0) == events_beats(events, events.len() as int),
        all_nonempty(grouped_measures(events)->Ok_0),
{
    lemma_group_upto_kept(events, events.len() as int);
    let st = group_upto(events, events.len() as int)->Ok_0;
    lemma_flush_keeps(st, events_beats(events, events.len() as int));
}

/// The notes and rests of a run of measures, put end to end.
pub open spec fn all_notes(ms: Seq<MeasureModel>) -> Seq<NoteEvent>
    decreases ms.len(),
{
    if ms.len() == 0 {
        seq![]
    } else {
        all_notes(ms.drop_last()) + ms.last().notes
    }
}

/// The notes and rests that the first `n` events make, one per note or rest event, in
/// order; each `-` makes the one before it a beat longer.
pub open spec fn notes_upto(events: Seq<Spanned<ScoreEvent>>, n: int) -> Seq<NoteEvent>
    decreases n,
{
    if n <= 0 {
        seq![]
    } else {
        let s = notes_upto(events, n - 1);
        match events[n - 1].value {
            ScoreEvent::Note(pn) => s.push(
                NoteEvent::Note(
                    GroupedNote { pitch: pn.pitch, octave: pn.octave, duration: pn.duration, tie: pn.tie },
                ),
            ),
            ScoreEvent::Rest(pr) => s.push(NoteEvent::Rest(GroupedRest { duration: pr.duration })),
            ScoreEvent::Extension => if s.len() > 0 {
                s.update(s.len() - 1, extended(s.last()))
            } else {
                s
            },
            _ => s,
        }
    }
}

proof fn lemma_flush_notes(st: GroupState)
    ensures
        all_notes(flush(st).measures) + flush(st).notes == all_notes(st.measures) + st.notes,
        all_notes(flush_if_full(st).measures) + flush_if_full(st).notes == all_notes(st.measures) + st.notes,
{
    if st.notes.len() > 0 {
        let ms = flush(st).measures;
        assert(ms.drop_last() == st.measures);
        assert(all_notes(ms) + Seq::<NoteEvent>::empty() =~= all_notes(st.measures) + st.notes);
    }
}

proof fn lemma_group_upto_notes(events: Seq<Spanned<ScoreEvent>>, n: int)
    requires
        0 <= n <= events.len(),
        group_upto(events, n) is Ok,
    ensures
        all_notes(group_upto(events, n)->Ok_0.measures) + group_upto(events, n)->Ok_0.notes == notes_upto(
            events,
            n,
        ),
    decreases n,
{
    if n == 0 {
        assert(all_notes(Seq::<MeasureModel>::empty()) + Seq::<NoteEvent>::empty() =~= Seq::<NoteEvent>::empty());
    } else {
        lemma_group_upto_notes(events, n - 1);
        let st = group_upto(events, n - 1)->Ok_0;
        let a = all_notes(st.measures);
        match events[n - 1].value {
            ScoreEvent::TimeSignatureChange { numerator, denominator } => {
                lemma_flush_notes(st);
            },
            ScoreEvent::Extension => {
                let s1 = GroupState {
                    notes: st.notes.update(st.notes.len() - 1, extended(st.notes.last())),
                    beat: st.beat + 4,
                    ..st
                };
                lemma_flush_notes(s1);
                let e = a + st.notes;
                assert(e.last() == st.notes.last());
                assert(a + s1.notes =~= e.update(e.len() - 1, extended(e.last())));
            },
            ScoreEvent::Note(pn) => {
                let ev = NoteEvent::Note(
                    GroupedNote { pitch: pn.pitch, octave: pn.octave, duration: pn.duration, tie: pn.tie },
                );
                lemma_flush_notes(st);
                let s1 = flush_if_full(st);
                let s2 = GroupState { notes: s1.notes.push(ev), beat: s1.beat + pn.duration, ..s1 };
                lemma_flush_notes(s2);
                assert(all_notes(s2.measures) + s2.notes =~= (all_notes(s1.measures) + s1.notes).push(ev));
            },
            ScoreEvent::Rest(pr) => {
                let ev = NoteEvent::Rest(GroupedRest { duration: pr.duration });
                lemma_flush_notes(st);
                let s1 = flush_if_full(st);
                let s2 = GroupState { notes: s1.notes.push(ev), beat: s1.beat + pr.duration, ..s1 };
                lemma_flush_notes(s2);
                assert(all_notes(s2.measures) + s2.notes =~= (all_notes(s1.measures) + s1.notes).push(ev));
            },
            _ => {},
        }
    }
}

/// Grouping keeps the notes and rests one for one and in order: the measures put end to
/// end hold exactly one note or rest per note or rest event, with the event's pitch,
/// octave and tie, and its duration plus a beat for each `-` that follows it.
pub proof fn grouping_keeps_notes_in_order(events: Seq<Spanned<ScoreEvent>>)
    requires
        grouped_measures(events) is Ok,
    ensures
        all_notes(grouped_measures(events)->Ok_0) == notes_upto(events, events.len() as int),
{
    lemma_group_upto_notes(events, events.len() as int);
    let st = group_upto(events, events.len() as int)->Ok_0;
    lemma_flush_notes(st);
    assert(all_notes(flush(st).measures) + Seq::<NoteEvent>::empty() =~= all_notes(flush(st).measures));
}

/// The quarter-beats of a run of notes and rests.
pub open spec fn duration_sum(s: Seq<NoteEvent>) -> int
    decreases s.len(),
{
    if s.len() == 0 {
        0
    } else {
        duration_sum(s.drop_last()) + event_duration(s.last())
    }
}

/// What grouping keeps true between events: the open measure's beat count is the sum of
/// its durations and below the capacity (or zero), under a time signature with a
/// nonzero denominator.
pub open spec fn sound(st: GroupState) -> bool {
    &&& tallied(st)
    &&& (st.beat == 0 || st.beat < measure_capacity(st.time_signature))
}

/// The open measure's beat count is the sum of its durations, under a time signature
/// with a nonzero denominator.
pub open spec fn tallied(st: GroupState) -> bool {
    &&& st.time_signature.denominator != 0
    &&& st.beat == duration_sum(st.notes)
}

proof fn lemma_capacity_bound(ts: TimeSignature)
    requires
        ts.denominator != 0,
    ensures
        0 <= measure_capacity(ts) <= 4080,
{
    let q = 4int / (ts.denominator as int);
    assert(0 <= q <= 4) by (nonlinear_arith)
        requires
            q == 4int / (ts.denominator as int),
            ts.denominator >= 1,
    ;
    let n = ts.numerator as int;
    assert(0 <= n * 4 * q <= 4080) by (nonlinear_arith)
        requires
            0 <= q <= 4,
            0 <= n <= 255,
    ;
}

proof fn lemma_duration_sum_nonneg(s: Seq<NoteEvent>)
    ensures
        duration_sum(s) >= 0,
    decreases s.len(),
{
    if s.len() > 0 {
        lemma_duration_sum_nonneg(s.drop_last());
    }
}

proof fn lemma_duration_sum_push(s: Seq<NoteEvent>, e: NoteEvent)
    ensures
        duration_sum(s.push(e)) == duration_sum(s) + event_duration(e),
{
    assert(s.push(e).drop_last() == s);
}

proof fn lemma_duration_sum_extend_last(s: Seq<NoteEvent>)
    requires
        s.len() > 0,
    ensures
        event_duration(s.last()) <= duration_sum(s),
        event_duration(s.last()) + 4 <= u32::MAX ==> duration_sum(
            s.update(s.len() - 1, extended(s.last())),
        ) == duration_sum(s) + 4,
{
    let t = s.update(s.len() - 1, extended(s.last()));
    assert(t.drop_last() == s.drop_last());
    lemma_duration_sum_nonneg(s.drop_last());
}

proof fn lemma_group_err_persists(events: Seq<Spanned<ScoreEvent>>, k: int, n: int, sp: Span)
    requires
        0 <= k <= n,
        group_upto(events, k) == Err::<GroupState, Span>(sp),
    ensures
        group_upto(events, n) == Err::<GroupState, Span>(sp),
    decreases n - k,
{
    if k < n {
        lemma_group_err_persists(events, k, n - 1, sp);
    }
}

/// The measures closed so far and the open one, as the grouper walks the events.
struct Grouping {
    measures: Vec<Measure>,
    notes: Vec<NoteEvent>,
    beat: u32,
    bpm: u32,
    key: KeyChange,
    time_signature: TimeSignature,
}

/// The plain values of a run of measures.
pub open spec fn measure_models(ms: Seq<Measure>) -> Seq<MeasureModel> {
    Seq::new(ms.len(), |i: int| ms[i].model())
}

impl Grouping {
    spec fn model(&self) -> GroupState {
        GroupState {
            measures: measure_models(self.measures@),
            notes: self.notes@,
            beat: self.beat as int,
            bpm: self.bpm,
            key: self.key,
            time_signature: self.time_signature,
        }
    }

    fn capacity(&self) -> (c: u32)
        requires
            self.time_signature.denominator != 0,
        ensures
            c == measure_capacity(self.time_signature),
    {
        proof {
            lemma_capacity_bound(self.time_signature);
        }
        let q: u32 = 4 / (self.time_signature.denominator as u32);
        assert(q <= 4) by (nonlinear_arith)
            requires
                q == 4u32 / (self.time_signature.denominator as u32),
                self.time_signature.denominator >= 1,
        ;
        (self.time_signature.numerator as u32) * 4 * q
    }

    fn flush(&mut self)
        requires
            tallied(old(self).model()),
        ensures
            final(self).model() == flush(old(self).model()),
            tallied(final(self).model()),
            final(self).beat == 0,
    {
        if self.notes.len() > 0 {
            let mut taken: Vec<NoteEvent> = Vec::new();
            std::mem::swap(&mut taken, &mut self.notes);
            let m = Measure {
                time_signature: self.time_signature,
                bpm: self.bpm,
                key: self.key,
                notes: taken,
            };
            let ghost before = self.measures@;
            self.measures.push(m);
            self.beat = 0;
            proof {
                assert(measure_models(self.measures@) == measure_models(before).push(m.model()));
                assert(self.notes@ == Seq::<NoteEvent>::empty());
            }
        }
    }

    fn flush_if_full(&mut self)
        requires
            tallied(old(self).model()),
        ensures
            final(self).model() == flush_if_full(old(self).model()),
            sound(final(self).model()),
            final(self).beat == 0 || final(self).beat < measure_capacity(final(self).time_signature),
    {
        if self.beat >= self.capacity() {
            self.flush();
        }
    }

    fn push_event(&mut self, e: NoteEvent, dur: u32)
        requires
            sound(old(self).model()),
            flush_if_full(old(self).model()).beat + dur <= u32::MAX,
            event_duration(e) == dur,
        ensures
            final(self).model() == append_event(old(self).model(), e, dur),
            sound(final(self).model()),
    {
        self.flush_if_full();
        proof {
            lemma_capacity_bound(self.time_signature);
            lemma_duration_sum_push(self.notes@, e);
        }
        let ghost s1 = self.model();
        self.beat = self.beat + dur;
        self.notes.push(e);
        assert(self.model() == GroupState { notes: s1.notes.push(e), beat: s1.beat + dur, ..s1 });
        self.flush_if_full();
    }

    fn extend_last(&mut self) -> (ok: bool)
        requires
            sound(old(self).model()),
        ensures
            ok == (old(self).notes@.len() > 0),
            ok ==> group_step(old(self).model(), ScoreEvent::Extension) == Some(final(self).model()),
            ok ==> sound(final(self).model()),
    {
        let n = self.notes.len();
        if n == 0 {
            return false;
        }
        proof {
            lemma_capacity_bound(self.time_signature);
            lemma_duration_sum_extend_last(self.notes@);
        }
        let ghost st = self.model();
        let last = self.notes[n - 1];
        let ext = match last {
            NoteEvent::Note(g) => NoteEvent::Note(GroupedNote { duration: g.duration + 4, ..g }),
            NoteEvent::Rest(r) => NoteEvent::Rest(GroupedRest { duration: r.duration + 4 }),
        };
        assert(ext == extended(st.notes.last()));
        self.notes.set(n - 1, ext);
        self.beat = self.beat + 4;
        assert(self.model() == GroupState {
            notes: st.notes.update(st.notes.len() - 1, extended(st.notes.last())),
            beat: st.beat + 4,
            ..st
        });
        self.flush_if_full();
        true
    }
}

/// Group the score events of a single-part document into measures.
///
/// A measure closes as soon as its quarter-beats reach the capacity of the time
/// signature in force, and before a time signature change; the last measure may be
/// partial. Each measure records the tempo, key and time signature in force when it
/// closed. A `-` extends the last note or rest by one beat; with nothing to extend it is
/// an error at its span.
pub fn group(doc: ParsedDocument) -> (r: Result<Score, JianPuError>)
    requires
        groupable(doc.score_events@),
    ensures
        match r {
            Ok(score) => {
                &&& grouped_measures(doc.score_events@) == Ok::<Seq<MeasureModel>, Span>(
                    measure_models(score.measures@),
                )
                &&& score.metadata.title@ == doc.metadata.title@
                &&& score.metadata.author@ == doc.metadata.author@
                &&& score.metadata.cell_size == match doc.metadata.cell_size {
                    Some(c) => c,
                    None => 24,
                }
                &&& score.lyrics@ == doc.lyrics@
                &&& all_notes(measure_models(score.measures@)) == notes_upto(
                    doc.score_events@,
                    doc.score_events@.len() as int,
                )
                &&& all_nonempty(measure_models(score.measures@))
                &&& measures_beats(measure_models(score.measures@)) == events_beats(
                    doc.score_events@,
                    doc.score_events@.len() as int,
                )
            },
            Err(e) => {
                &&& grouped_measures(doc.score_events@) == Err::<Seq<MeasureModel>, Span>(e.span)
                &&& e.message@ == dangling_extension_message()
            },
        },
{
    let ghost events = doc.score_events@;
    let mut g = Grouping {
        measures: Vec::new(),
        notes: Vec::new(),
        beat: 0,
        bpm: 120,
        key: KeyChange {
            note: Note { name: NoteName::C, octave: 4, accidental: Accidental::Natural },
        },
        time_signature: TimeSignature { numerator: 4, denominator: 4 },
    };
    proof {
        assert(measure_models(g.measures@) == Seq::<MeasureModel>::empty());
        assert(g.notes@ == Seq::<NoteEvent>::empty());
        assert(g.model() == initial_state());
    }
    let n = doc.score_events.len();
    let mut i: usize = 0;
    while i < n
        invariant
            i <= n == events.len(),
            events == doc.score_events@,
            groupable(events),
            group_upto(events, i as int) == Ok::<GroupState, Span>(g.model()),
            sound(g.model()),
        decreases n - i,
    {
        let ev = doc.score_events[i].value;
        let span = doc.score_events[i].span;
        let ghost st = g.model();
        assert(events[i as int].value == ev);
        assert(step_fits(st, ev));
        match ev {
            ScoreEvent::BpmChange(b) => {
                g.bpm = b;
            },
            ScoreEvent::KeyChange(k) => {
                g.key = k;
            },
            ScoreEvent::TimeSignatureChange { numerator, denominator } => {
                g.flush();
                g.time_signature = TimeSignature { numerator, denominator };
            },
            ScoreEvent::Extension => {
                if !g.extend_last() {
                    proof {
                        lemma_group_err_persists(events, i + 1, n as int, span);
                    }
                    return Err(
                        JianPuError::new(
                            span,
                            String::from_str("extension `-` without a preceding note or rest"),
                        ),
                    );
                }
            },
            ScoreEvent::Note(pn) => {
                g.push_event(
                    NoteEvent::Note(
                        GroupedNote {
                            pitch: pn.pitch,
                            octave: pn.octave,
                            duration: pn.duration,
                            tie: pn.tie,
                        },
                    ),
                    pn.duration,
                );
            },
            ScoreEvent::Rest(pr) => {
                g.push_event(NoteEvent::Rest(GroupedRest { duration: pr.duration }), pr.duration);
            },
        }
        assert(group_step(st, ev) == Some(g.model()));
        i += 1;
    }
    g.flush();
    proof {
        grouping_keeps_notes_in_order(events);
        grouping_keeps_every_beat(events);
    }
    let ParsedDocument { filename: _, metadata, score_events: _, lyrics } = doc;
    let cell_size = match metadata.cell_size {
        Some(c) => c,
        None => 24,
    };
    Ok(
        Score {
            metadata: Metadata { title: metadata.title, author: metadata.author, cell_size },
            measures: g.measures,
            lyrics,
        },
    )
}

} // verus!
