use vstd::prelude::*;

use crate::ast::grouped::{row_slice, MultiPartMeasure, NoteEvent, PartRow, Score};
use crate::ast::parsed::KeyChange;
use crate::midi::{
    chord_notes_spec, item_kind, measure_midi, midi_event_step, midi_events_fold, note_offs,
    note_ons, pad_ties, parts_midi, release_all, release_tie, score_midi, score_raw_events,
    track_items_spec, MidiKind, PartTickState, RawEvent, RawKind, TrackItem, insert_stable,
    stable_sort, track_items_of,
};

verus! {

/// How many events of `s` strike `key`.
pub open spec fn strikes(s: Seq<RawEvent>, key: u8) -> int
    decreases s.len(),
{
    if s.len() == 0 {
        0
    } else {
        strikes(s.drop_last(), key) + if s.last().kind == RawKind::NoteOn(key) {
            1int
        } else {
            0
        }
    }
}

/// How many events of `s` release `key`.
pub open spec fn releases(s: Seq<RawEvent>, key: u8) -> int
    decreases s.len(),
{
    if s.len() == 0 {
        0
    } else {
        releases(s.drop_last(), key) + if s.last().kind == RawKind::NoteOff(key) {
            1int
        } else {
            0
        }
    }
}

/// Whether a part holds `key` by a tie.
pub open spec fn holds(tie: Option<(u8, u32)>, key: u8) -> int {
    match tie {
        Some(t) => if t.0 == key {
            1int
        } else {
            0
        },
        None => 0,
    }
}

/// How many parts hold `key` by a tie.
pub open spec fn held(ties: Seq<Option<(u8, u32)>>, key: u8) -> int
    decreases ties.len(),
{
    if ties.len() == 0 {
        0
    } else {
        held(ties.drop_last(), key) + holds(ties.last(), key)
    }
}

/// Strikes of `key` not yet released: struck, less released, less held by a tie.
pub open spec fn open_strikes(s: Seq<RawEvent>, ties: Seq<Option<(u8, u32)>>, key: u8) -> int {
    strikes(s, key) - releases(s, key) - held(ties, key)
}

/// How many items of a track strike `key`.
pub open spec fn track_strikes(items: Seq<TrackItem>, key: u8) -> int
    decreases items.len(),
{
    if items.len() == 0 {
        0
    } else {
        track_strikes(items.drop_last(), key) + match items.last().kind {
            MidiKind::NoteOn(k, _) => if k == key {
                1int
            } else {
                0
            },
            _ => 0,
        }
    }
}

/// How many items of a track release `key`.
pub open spec fn track_releases(items: Seq<TrackItem>, key: u8) -> int
    decreases items.len(),
{
    if items.len() == 0 {
        0
    } else {
        track_releases(items.drop_last(), key) + match items.last().kind {
            MidiKind::NoteOff(k, _) => if k == key {
                1int
            } else {
                0
            },
            _ => 0,
        }
    }
}

proof fn lemma_push(s: Seq<RawEvent>, e: RawEvent, key: u8)
    ensures
        strikes(s.push(e), key) == strikes(s, key) + if e.kind == RawKind::NoteOn(key) {
            1int
        } else {
            0
        },
        releases(s.push(e), key) == releases(s, key) + if e.kind == RawKind::NoteOff(key) {
            1int
        } else {
            0
        },
{
    assert(s.push(e).drop_last() =~= s);
}

proof fn lemma_concat(a: Seq<RawEvent>, b: Seq<RawEvent>, key: u8)
    ensures
        strikes(a + b, key) == strikes(a, key) + strikes(b, key),
        releases(a + b, key) == releases(a, key) + releases(b, key),
    decreases b.len(),
{
    if b.len() > 0 {
        lemma_concat(a, b.drop_last(), key);
        assert((a + b).drop_last() =~= a + b.drop_last());
    } else {
        assert(a + b =~= a);
    }
}

proof fn lemma_chord_balanced(notes: Seq<u8>, on: int, off: int, key: u8)
    ensures
        strikes(note_ons(notes, on), key) == releases(note_offs(notes, off), key),
        releases(note_ons(notes, on), key) == 0,
        strikes(note_offs(notes, off), key) == 0,
    decreases notes.len(),
{
    if notes.len() > 0 {
        lemma_chord_balanced(notes.drop_last(), on, off, key);
        assert(note_ons(notes, on).drop_last() =~= note_ons(notes.drop_last(), on));
        assert(note_offs(notes, off).drop_last() =~= note_offs(notes.drop_last(), off));
    }
}

proof fn lemma_release_tie(raw: Seq<RawEvent>, tie: Option<(u8, u32)>, tick: int, key: u8)
    ensures
        strikes(release_tie(raw, tie, tick), key) == strikes(raw, key),
        releases(release_tie(raw, tie, tick), key) == releases(raw, key) + holds(tie, key),
{
    if let Some(t) = tie {
        lemma_push(raw, RawEvent { tick: tick as u32, kind: RawKind::NoteOff(t.0) }, key);
    }
}

proof fn lemma_step(s: PartTickState, e: NoteEvent, k: KeyChange, key: u8)
    ensures
        ({
            let r = midi_event_step(s, e, k);
            strikes(r.raw, key) - releases(r.raw, key) - holds(r.tie, key) == strikes(s.raw, key)
                - releases(s.raw, key) - holds(s.tie, key)
        }),
{
    match e {
        NoteEvent::Note(n) => {
            let midi = crate::midi::midi_note_of(n.pitch, n.octave, k);
            let off = s.tick + crate::midi::ticks_of(n.duration);
            let cont = s.tie matches Some(t) && t.0 == midi;
            let on_ev = RawEvent { tick: s.tick as u32, kind: RawKind::NoteOn(midi) };
            lemma_release_tie(s.raw, s.tie, s.tick, key);
            lemma_push(release_tie(s.raw, s.tie, s.tick), on_ev, key);
            let raw1 = if cont {
                s.raw
            } else {
                release_tie(s.raw, s.tie, s.tick).push(on_ev)
            };
            lemma_push(raw1, RawEvent { tick: off as u32, kind: RawKind::NoteOff(midi) }, key);
        },
        NoteEvent::Rest(_) => {
            lemma_release_tie(s.raw, s.tie, s.tick, key);
        },
        NoteEvent::Chord(c) => {
            let notes = chord_notes_spec(c, k);
            let off = s.tick + crate::midi::ticks_of(c.duration);
            lemma_chord_balanced(notes, s.tick, off, key);
            lemma_concat(s.raw, note_ons(notes, s.tick), key);
            lemma_concat(s.raw + note_ons(notes, s.tick), note_offs(notes, off), key);
        },
    }
}

proof fn lemma_fold(s: PartTickState, events: Seq<NoteEvent>, n: int, k: KeyChange, key: u8)
    ensures
        ({
            let r = midi_events_fold(s, events, n, k);
            strikes(r.raw, key) - releases(r.raw, key) - holds(r.tie, key) == strikes(s.raw, key)
                - releases(s.raw, key) - holds(s.tie, key)
        }),
    decreases n,
{
    if n > 0 {
        lemma_fold(s, events, n - 1, k, key);
        lemma_step(midi_events_fold(s, events, n - 1, k), events[n - 1], k, key);
    }
}

proof fn lemma_held_update(t: Seq<Option<(u8, u32)>>, i: int, x: Option<(u8, u32)>, key: u8)
    requires
        0 <= i < t.len(),
    ensures
        held(t.update(i, x), key) == held(t, key) - holds(t[i], key) + holds(x, key),
    decreases t.len(),
{
    let u = t.update(i, x);
    if i == t.len() - 1 {
        assert(u.drop_last() =~= t.drop_last());
    } else {
        lemma_held_update(t.drop_last(), i, x, key);
        assert(u.drop_last() =~= t.drop_last().update(i, x));
    }
}

proof fn lemma_held_nones(t: Seq<Option<(u8, u32)>>, m: nat, key: u8)
    ensures
        held(t + Seq::new(m, |i: int| None::<(u8, u32)>), key) == held(t, key),
    decreases m,
{
    let p = t + Seq::new(m, |i: int| None::<(u8, u32)>);
    if m > 0 {
        lemma_held_nones(t, (m - 1) as nat, key);
        assert(p.drop_last() =~= t + Seq::new((m - 1) as nat, |i: int| None::<(u8, u32)>));
    } else {
        assert(p =~= t);
    }
}

proof fn lemma_parts(
    raw: Seq<RawEvent>,
    ties: Seq<Option<(u8, u32)>>,
    k: KeyChange,
    tick: int,
    parts: Seq<PartRow>,
    n: int,
    key: u8,
)
    requires
        n <= ties.len(),
    ensures
        ({
            let r = parts_midi(raw, ties, k, tick, parts, n);
            &&& r.1.len() == ties.len()
            &&& open_strikes(r.0, r.1, key) == open_strikes(raw, ties, key)
        }),
    decreases n,
{
    if n > 0 {
        lemma_parts(raw, ties, k, tick, parts, n - 1, key);
        let prev = parts_midi(raw, ties, k, tick, parts, n - 1);
        let events = row_slice(parts[n - 1]).notes.events@;
        let s0 = PartTickState { raw: prev.0, tie: prev.1[n - 1], tick };
        lemma_fold(s0, events, events.len() as int, k, key);
        let s = midi_events_fold(s0, events, events.len() as int, k);
        lemma_held_update(prev.1, n - 1, s.tie, key);
    }
}

proof fn lemma_measure(m: crate::midi::MidiModel, meas: MultiPartMeasure, key: u8)
    ensures
        open_strikes(measure_midi(m, meas).raw, measure_midi(m, meas).ties, key) == open_strikes(
            m.raw,
            m.ties,
            key,
        ),
{
    let raw1 = match meas.bpm {
        Some(b) => m.raw.push(
            RawEvent { tick: m.tick as u32, kind: RawKind::Tempo((60_000_000int / (b as int)) as u32) },
        ),
        None => m.raw,
    };
    if let Some(b) = meas.bpm {
        lemma_push(
            m.raw,
            RawEvent { tick: m.tick as u32, kind: RawKind::Tempo((60_000_000int / (b as int)) as u32) },
            key,
        );
    }
    let key_now = match meas.key {
        Some(kc) => kc,
        None => m.key,
    };
    let n = meas.parts@.len() as int;
    if m.ties.len() < n {
        lemma_held_nones(m.ties, (n - m.ties.len()) as nat, key);
    }
    lemma_parts(raw1, pad_ties(m.ties, n), key_now, m.tick, meas.parts@, n, key);
}

proof fn lemma_score(ms: Seq<MultiPartMeasure>, j: int, key: u8)
    ensures
        open_strikes(score_midi(ms, j).raw, score_midi(ms, j).ties, key) == 0,
    decreases j,
{
    if j > 0 {
        lemma_score(ms, j - 1, key);
        lemma_measure(score_midi(ms, j - 1), ms[j - 1], key);
    } else {
        let m = score_midi(ms, j);
        assert(m.raw.drop_last() =~= Seq::<RawEvent>::empty());
        assert(strikes(Seq::<RawEvent>::empty(), key) == 0);
        assert(releases(Seq::<RawEvent>::empty(), key) == 0);
        assert(strikes(m.raw, key) == 0);
        assert(releases(m.raw, key) == 0);
        assert(held(m.ties, key) == 0);
    }
}

proof fn lemma_release_all(raw: Seq<RawEvent>, ties: Seq<Option<(u8, u32)>>, n: int, key: u8)
    requires
        0 <= n <= ties.len(),
    ensures
        strikes(release_all(raw, ties, n), key) == strikes(raw, key),
        releases(release_all(raw, ties, n), key) == releases(raw, key) + held(ties.take(n), key),
    decreases n,
{
    if n > 0 {
        lemma_release_all(raw, ties, n - 1, key);
        assert(ties.take(n).drop_last() =~= ties.take(n - 1));
        if let Some(t) = ties[n - 1] {
            lemma_push(release_all(raw, ties, n - 1), RawEvent { tick: t.1, kind: RawKind::NoteOff(t.0) }, key);
        }
    } else {
        assert(ties.take(0) =~= Seq::<Option<(u8, u32)>>::empty());
    }
}

proof fn lemma_insert_counts(s: Seq<RawEvent>, e: RawEvent, key: u8)
    ensures
        strikes(insert_stable(s, e), key) == strikes(s.push(e), key),
        releases(insert_stable(s, e), key) == releases(s.push(e), key),
    decreases s.len(),
{
    lemma_push(s, e, key);
    if s.len() > 0 && !crate::midi::event_le(s.last(), e) {
        let d = s.drop_last();
        lemma_insert_counts(d, e, key);
        lemma_push(d, e, key);
        lemma_push(insert_stable(d, e), s.last(), key);
        assert(d.push(s.last()) =~= s);
        lemma_push(d, s.last(), key);
    } else if s.len() == 0 {
        assert(insert_stable(s, e) =~= s.push(e));
    }
}

proof fn lemma_sort_counts(s: Seq<RawEvent>, key: u8)
    ensures
        strikes(stable_sort(s), key) == strikes(s, key),
        releases(stable_sort(s), key) == releases(s, key),
    decreases s.len(),
{
    if s.len() > 0 {
        lemma_sort_counts(s.drop_last(), key);
        lemma_insert_counts(stable_sort(s.drop_last()), s.last(), key);
        lemma_push(stable_sort(s.drop_last()), s.last(), key);
    }
}

proof fn lemma_items_match(evs: Seq<RawEvent>, items: Seq<TrackItem>, key: u8)
    requires
        items.len() == evs.len(),
        forall|i: int| 0 <= i < evs.len() ==> (#[trigger] items[i]).kind == item_kind(evs[i].kind),
    ensures
        track_strikes(items, key) == strikes(evs, key),
        track_releases(items, key) == releases(evs, key),
    decreases evs.len(),
{
    if evs.len() > 0 {
        let d = items.drop_last();
        assert forall|i: int| 0 <= i < evs.drop_last().len() implies (#[trigger] d[i]).kind == item_kind(
            evs.drop_last()[i].kind,
        ) by {
            assert(d[i] == items[i]);
        }
        lemma_items_match(evs.drop_last(), d, key);
        assert(items[items.len() - 1].kind == item_kind(evs[evs.len() - 1].kind));
    }
}

proof fn lemma_track_counts(evs: Seq<RawEvent>, key: u8)
    ensures
        track_strikes(track_items_of(evs), key) == strikes(evs, key),
        track_releases(track_items_of(evs), key) == releases(evs, key),
{
    let t = track_items_of(evs);
    let body = t.drop_last();
    assert forall|i: int| 0 <= i < evs.len() implies (#[trigger] body[i]).kind == item_kind(evs[i].kind) by {
        assert(body[i] == t[i]);
    }
    lemma_items_match(evs, body, key);
}

/// Law: every key that a score's MIDI track strikes it releases as often: for each key,
/// the track holds as many note-offs of it as note-ons, a note held by a tie at the end
/// of the score included.
pub proof fn every_struck_note_is_released(score: Score, key: u8)
    ensures
        track_strikes(track_items_spec(score), key) == track_releases(track_items_spec(score), key),
{
    let ms = score.measures@;
    let m = score_midi(ms, ms.len() as int);
    lemma_score(ms, ms.len() as int, key);
    lemma_release_all(m.raw, m.ties, m.ties.len() as int, key);
    assert(m.ties.take(m.ties.len() as int) =~= m.ties);
    let raw = score_raw_events(ms);
    lemma_sort_counts(raw, key);
    lemma_track_counts(stable_sort(raw), key);
}

} // verus!
