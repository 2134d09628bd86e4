use vstd::prelude::*;

use crate::ast::grouped::{
    GroupedMeasure, GroupedPart, GroupedScore, GroupedTrack, Lyrics, MeasureDirectives,
    MultiPartMeasure, NoteEvent, Notes, PartRow, PartSlice, TimeSignature, row_slice,
};
use crate::ast::parsed::{JianPuPitch, KeyChange, PartKind, Syllable};
use crate::error::{ErrorKind, JianPuError, Span};
use crate::grouper::{error_matches, measures_view};
use crate::text::{decimal, decimal_string};

verus! {

/// A copy of a string.
pub fn copy_string(s: &String) -> (r: String)
    ensures
        r == *s,
{
    s.clone()
}

pub fn copy_opt_string(o: &Option<String>) -> (r: Option<String>)
    ensures
        r == *o,
{
    match o {
        Some(s) => Some(s.clone()),
        None => None,
    }
}

pub fn copy_syllable(s: &Syllable) -> (r: Syllable)
    ensures
        r == *s,
{
    Syllable { text: s.text.clone(), held: s.held }
}

pub fn copy_events(v: &[NoteEvent]) -> (r: Vec<NoteEvent>)
    ensures
        r@ == v@,
{
    let mut r: Vec<NoteEvent> = Vec::new();
    let mut i: usize = 0;
    while i < v.len()
        invariant
            i <= v@.len(),
            r@ == v@.take(i as int),
        decreases v@.len() - i,
    {
        r.push(v[i]);
        proof {
            assert(v@.take(i + 1 as int) == v@.take(i as int).push(v@[i as int]));
        }
        i += 1;
    }
    proof {
        assert(v@.take(i as int) == v@);
    }
    r
}

pub fn copy_syllables(v: &[Syllable]) -> (r: Vec<Syllable>)
    ensures
        r@ == v@,
{
    let mut r: Vec<Syllable> = Vec::new();
    let mut i: usize = 0;
    while i < v.len()
        invariant
            i <= v@.len(),
            r@ == v@.take(i as int),
        decreases v@.len() - i,
    {
        r.push(copy_syllable(&v[i]));
        proof {
            assert(v@.take(i + 1 as int) == v@.take(i as int).push(v@[i as int]));
        }
        i += 1;
    }
    proof {
        assert(v@.take(i as int) == v@);
    }
    r
}

/// Where lyric assignment stands: the next unused syllable, and the last note seen.
pub struct LyricCursor {
    pub next: int,
    pub prev_tie: bool,
    pub prev_pitch: Option<JianPuPitch>,
}

pub open spec fn start_cursor() -> LyricCursor {
    LyricCursor { next: 0, prev_tie: false, prev_pitch: None }
}

/// A note takes a syllable unless it continues a tie from a note of the same pitch.
pub open spec fn takes_syllable(c: LyricCursor, e: NoteEvent) -> bool {
    match e {
        NoteEvent::Note(n) => !(c.prev_tie && c.prev_pitch == Some(n.pitch)),
        _ => false,
    }
}

/// The cursor after one event, with `nl` syllables in all.
pub open spec fn cursor_step(c: LyricCursor, e: NoteEvent, nl: int) -> LyricCursor {
    match e {
        NoteEvent::Note(n) => LyricCursor {
            next: if takes_syllable(c, e) && c.next < nl {
                c.next + 1
            } else {
                c.next
            },
            prev_tie: n.tie,
            prev_pitch: Some(n.pitch),
        },
        _ => LyricCursor { next: c.next, prev_tie: false, prev_pitch: c.prev_pitch },
    }
}

pub open spec fn cursor_after(c: LyricCursor, events: Seq<NoteEvent>, n: int, nl: int) -> LyricCursor
    decreases n,
{
    if n <= 0 {
        c
    } else {
        cursor_step(cursor_after(c, events, n - 1, nl), events[n - 1], nl)
    }
}

/// The cursor when measure `k` starts.
pub open spec fn cursor_before_measure(ms: Seq<Seq<NoteEvent>>, nl: int, k: int) -> LyricCursor
    decreases k,
{
    if k <= 0 {
        start_cursor()
    } else {
        let c = cursor_before_measure(ms, nl, k - 1);
        cursor_after(c, ms[k - 1], ms[k - 1].len() as int, nl)
    }
}

/// The syllables of each measure: consecutive syllables, one per note that does not
/// continue a tie, for as long as syllables last.
pub open spec fn distribute_spec(ms: Seq<Seq<NoteEvent>>, lyrics: Seq<Syllable>) -> Seq<Seq<Syllable>> {
    Seq::new(
        ms.len(),
        |k: int|
            lyrics.subrange(
                cursor_before_measure(ms, lyrics.len() as int, k).next,
                cursor_before_measure(ms, lyrics.len() as int, k + 1).next,
            ),
    )
}

pub proof fn lemma_cursor_after_bounds(c: LyricCursor, events: Seq<NoteEvent>, n: int, nl: int)
    requires
        0 <= c.next <= nl,
    ensures
        c.next <= cursor_after(c, events, n, nl).next <= nl,
    decreases n,
{
    if n > 0 {
        lemma_cursor_after_bounds(c, events, n - 1, nl);
    }
}

pub proof fn lemma_cursor_before_bounds(ms: Seq<Seq<NoteEvent>>, nl: int, k: int)
    requires
        nl >= 0,
    ensures
        0 <= cursor_before_measure(ms, nl, k).next <= nl,
    decreases k,
{
    if k > 0 {
        lemma_cursor_before_bounds(ms, nl, k - 1);
        let c = cursor_before_measure(ms, nl, k - 1);
        lemma_cursor_after_bounds(c, ms[k - 1], ms[k - 1].len() as int, nl);
    }
}

pub open spec fn measure_events(ms: Seq<GroupedMeasure>) -> Seq<Seq<NoteEvent>> {
    ms.map_values(|m: GroupedMeasure| m.notes.events@)
}

/// Hands the syllables of a part out over its measures; see `distribute_spec`.
fn distribute_lyrics(measures: &[GroupedMeasure], lyrics: &[Syllable]) -> (r: Vec<Vec<Syllable>>)
    ensures
        r@.len() == measures@.len(),
        forall|k: int|
            0 <= k < measures@.len() ==> (#[trigger] r@[k])@ == distribute_spec(
                measure_events(measures@),
                lyrics@,
            )[k],
{
    let ghost ms = measure_events(measures@);
    let ghost nl = lyrics@.len() as int;
    let mut syllable_idx: usize = 0;
    let mut prev_tie = false;
    let mut prev_pitch: Option<JianPuPitch> = None;
    let mut result: Vec<Vec<Syllable>> = Vec::new();
    let mut k: usize = 0;
    while k < measures.len()
        invariant
            ms == measure_events(measures@),
            nl == lyrics@.len(),
            k <= measures@.len(),
            result@.len() == k,
            cursor_before_measure(ms, nl, k as int) == (LyricCursor {
                next: syllable_idx as int,
                prev_tie,
                prev_pitch,
            }),
            forall|m: int| 0 <= m < k ==> (#[trigger] result@[m])@ == distribute_spec(ms, lyrics@)[m],
        decreases measures@.len() - k,
    {
        let events = &measures[k].notes.events;
        let ghost start = syllable_idx as int;
        let ghost c0 = cursor_before_measure(ms, nl, k as int);
        proof {
            assert(ms[k as int] == events@);
            lemma_cursor_before_bounds(ms, nl, k as int);
        }
        let mut measure_syllables: Vec<Syllable> = Vec::new();
        let mut j: usize = 0;
        while j < events.len()
            invariant
                nl == lyrics@.len(),
                j <= events@.len(),
                0 <= start <= syllable_idx <= nl,
                cursor_after(c0, events@, j as int, nl) == (LyricCursor {
                    next: syllable_idx as int,
                    prev_tie,
                    prev_pitch,
                }),
                measure_syllables@ == lyrics@.subrange(start, syllable_idx as int),
            decreases events@.len() - j,
        {
            match events[j] {
                NoteEvent::Note(note) => {
                    let continuation = prev_tie && match prev_pitch {
                        Some(p) => p == note.pitch,
                        None => false,
                    };
                    if !continuation && syllable_idx < lyrics.len() {
                        measure_syllables.push(copy_syllable(&lyrics[syllable_idx]));
                        proof {
                            assert(lyrics@.subrange(start, syllable_idx + 1) == lyrics@.subrange(
                                start,
                                syllable_idx as int,
                            ).push(lyrics@[syllable_idx as int]));
                        }
                        syllable_idx += 1;
                    }
                    prev_tie = note.tie;
                    prev_pitch = Some(note.pitch);
                },
                _ => {
                    prev_tie = false;
                },
            }
            j += 1;
        }
        result.push(measure_syllables);
        k += 1;
    }
    result
}

pub open spec fn track_part(t: GroupedTrack) -> GroupedPart {
    match t {
        GroupedTrack::Timed(p) => p,
    }
}

/// A grouped part as plain values.
pub struct PartView {
    pub name: Option<String>,
    pub kind: PartKind,
    /// The events and source span of each measure.
    pub measures: Seq<(Seq<NoteEvent>, Span)>,
    pub lyrics: Option<Seq<Syllable>>,
    pub ditto: Seq<bool>,
    pub lyrics_ditto: Seq<bool>,
}

pub open spec fn part_view(p: GroupedPart) -> PartView {
    PartView {
        name: p.name,
        kind: p.kind,
        measures: measures_view(p.measures@),
        lyrics: match p.lyrics {
            Some(v) => Some(v@),
            None => None,
        },
        ditto: p.ditto_measures@,
        lyrics_ditto: p.lyrics_ditto_measures@,
    }
}

pub open spec fn parts_view(tracks: Seq<GroupedTrack>) -> Seq<PartView> {
    tracks.map_values(|t: GroupedTrack| part_view(track_part(t)))
}

/// The syllables of each measure of a part: distributed for a part with lyrics, none otherwise.
pub open spec fn part_lyrics_per_measure(p: PartView) -> Seq<Seq<Syllable>> {
    if p.kind == PartKind::NotesWithLyrics && p.lyrics is Some {
        distribute_spec(p.measures.map_values(|m: (Seq<NoteEvent>, Span)| m.0), p.lyrics->0)
    } else {
        Seq::new(p.measures.len(), |k: int| Seq::<Syllable>::empty())
    }
}

fn lyrics_for_part(part: &GroupedPart) -> (r: Vec<Vec<Syllable>>)
    ensures
        r@.len() == part.measures@.len(),
        forall|k: int|
            0 <= k < part.measures@.len() ==> (#[trigger] r@[k])@ == part_lyrics_per_measure(
                part_view(*part),
            )[k],
{
    if part.kind == PartKind::NotesWithLyrics {
        if let Some(lyrics) = &part.lyrics {
            proof {
                assert(part_view(*part).measures.map_values(|m: (Seq<NoteEvent>, Span)| m.0)
                    =~= measure_events(part.measures@));
            }
            return distribute_lyrics(part.measures.as_slice(), lyrics.as_slice());
        }
    }
    let mut r: Vec<Vec<Syllable>> = Vec::new();
    let mut k: usize = 0;
    while k < part.measures.len()
        invariant
            k <= part.measures@.len(),
            r@.len() == k,
            forall|m: int| 0 <= m < k ==> (#[trigger] r@[m])@ == Seq::<Syllable>::empty(),
        decreases part.measures@.len() - k,
    {
        r.push(Vec::new());
        k += 1;
    }
    r
}

pub open spec fn flag_at(v: Seq<bool>, i: int) -> bool {
    0 <= i < v.len() && v[i]
}

pub open spec fn slice_view(s: PartSlice) -> (
    Option<String>,
    PartKind,
    Seq<NoteEvent>,
    Option<Seq<Syllable>>,
) {
    (
        s.name,
        s.kind,
        s.notes.events@,
        match s.lyrics {
            Some(l) => Some(l.syllables@),
            None => None,
        },
    )
}

/// A row as plain values: whether it is a ditto row, and its content.
pub open spec fn row_view(r: PartRow) -> (
    bool,
    (Option<String>, PartKind, Seq<NoteEvent>, Option<Seq<Syllable>>),
) {
    (r is Ditto, slice_view(row_slice(r)))
}

/// The row of part `p` in measure `i`. A ditto measure is kept but marked; a measure
/// whose lyric line was a ditto is shown as a plain notes part without lyrics.
pub open spec fn expected_row(p: PartView, i: int) -> (
    bool,
    (Option<String>, PartKind, Seq<NoteEvent>, Option<Seq<Syllable>>),
) {
    let is_ditto = flag_at(p.ditto, i);
    let demote = flag_at(p.lyrics_ditto, i) && !is_ditto && p.kind == PartKind::NotesWithLyrics;
    let kind = if demote {
        PartKind::Notes
    } else {
        p.kind
    };
    let lyrics = if p.kind == PartKind::NotesWithLyrics && !demote {
        Some(part_lyrics_per_measure(p)[i])
    } else {
        None
    };
    (is_ditto, (p.name, kind, p.measures[i].0, lyrics))
}

fn build_part_rows(
    grouped_tracks: &[GroupedTrack],
    measure_idx: usize,
    lyrics_per_track: &Vec<Vec<Vec<Syllable>>>,
) -> (rows: Vec<PartRow>)
    requires
        lyrics_per_track@.len() == grouped_tracks@.len(),
        forall|t: int|
            0 <= t < grouped_tracks@.len() ==> measure_idx < track_part(
                #[trigger] grouped_tracks@[t],
            ).measures@.len() && lyrics_per_track@[t]@.len() == track_part(
                grouped_tracks@[t],
            ).measures@.len() && forall|k: int|
                0 <= k < lyrics_per_track@[t]@.len() ==> lyrics_per_track@[t]@[k]@
                    == part_lyrics_per_measure(part_view(track_part(grouped_tracks@[t])))[k],
    ensures
        rows@.len() == grouped_tracks@.len(),
        forall|t: int|
            0 <= t < grouped_tracks@.len() ==> row_view(#[trigger] rows@[t]) == expected_row(
                part_view(track_part(grouped_tracks@[t])),
                measure_idx as int,
            ),
{
    let mut rows: Vec<PartRow> = Vec::new();
    let mut t: usize = 0;
    while t < grouped_tracks.len()
        invariant
            t <= grouped_tracks@.len(),
            rows@.len() == t,
            lyrics_per_track@.len() == grouped_tracks@.len(),
            forall|u: int|
                0 <= u < grouped_tracks@.len() ==> measure_idx < track_part(
                    #[trigger] grouped_tracks@[u],
                ).measures@.len() && lyrics_per_track@[u]@.len() == track_part(
                    grouped_tracks@[u],
                ).measures@.len() && forall|k: int|
                    0 <= k < lyrics_per_track@[u]@.len() ==> lyrics_per_track@[u]@[k]@
                        == part_lyrics_per_measure(part_view(track_part(grouped_tracks@[u])))[k],
            forall|u: int|
                0 <= u < t ==> row_view(#[trigger] rows@[u]) == expected_row(
                    part_view(track_part(grouped_tracks@[u])),
                    measure_idx as int,
                ),
        decreases grouped_tracks@.len() - t,
    {
        let part = match &grouped_tracks[t] {
            GroupedTrack::Timed(p) => p,
        };
        let measure = &part.measures[measure_idx];
        let syllables = copy_syllables(lyrics_per_track[t][measure_idx].as_slice());
        let is_ditto = measure_idx < part.ditto_measures.len() && part.ditto_measures[measure_idx];
        let lyrics_ditto = measure_idx < part.lyrics_ditto_measures.len()
            && part.lyrics_ditto_measures[measure_idx];
        let demote = lyrics_ditto && !is_ditto && part.kind == PartKind::NotesWithLyrics;
        let kind = if demote {
            PartKind::Notes
        } else {
            part.kind
        };
        let lyrics = if part.kind == PartKind::NotesWithLyrics && !demote {
            Some(Lyrics { syllables })
        } else {
            None
        };
        let slice = PartSlice {
            name: copy_opt_string(&part.name),
            kind,
            notes: Notes { events: copy_events(measure.notes.events.as_slice()) },
            lyrics,
        };
        let row = if is_ditto {
            PartRow::Ditto(slice)
        } else {
            PartRow::Timed(slice)
        };
        rows.push(row);
        t += 1;
    }
    rows
}

/// The number of measures of each part, as plain values.
pub open spec fn track_measure_count(t: GroupedTrack) -> nat {
    track_part(t).measures@.len()
}

/// The first part at or after `from` whose measure count differs from `expected`.
pub open spec fn first_count_mismatch(parts: Seq<PartView>, expected: nat, from: int) -> int
    decreases parts.len() - from,
{
    if from < 0 || from >= parts.len() {
        parts.len() as int
    } else if parts[from].measures.len() != expected {
        from
    } else {
        first_count_mismatch(parts, expected, from + 1)
    }
}

proof fn lemma_first_count_mismatch_is(parts: Seq<PartView>, expected: nat, from: int, k: int)
    requires
        0 <= from <= k <= parts.len(),
        forall|u: int| from <= u < k ==> (#[trigger] parts[u]).measures.len() == expected,
        k < parts.len() ==> parts[k].measures.len() != expected,
    ensures
        first_count_mismatch(parts, expected, from) == k,
    decreases k - from,
{
    if from < k {
        lemma_first_count_mismatch_is(parts, expected, from + 1, k);
    }
}

pub open spec fn name_view(n: Option<String>) -> Option<Seq<char>> {
    match n {
        Some(s) => Some(s@),
        None => None,
    }
}

/// The text that `{:?}` formatting gives for an optional part name.
pub uninterp spec fn option_name_debug_text(name: Option<Seq<char>>) -> Seq<char>;

/// `format!("{:?}", name)` of std: the debug text of an optional name, such as
/// `Some("Alto")`. It is taken to depend on the name alone; with no name it is `None`
/// (the derived `Debug` of `Option`). How a name is quoted and escaped is not stated.
#[verifier::external_body]
fn debug_name(name: &Option<String>) -> (s: String)
    ensures
        s@ == option_name_debug_text(name_view(*name)),
        name.is_none() ==> s@ == "None"@,
{
    format!("{:?}", name)
}

pub open spec fn count_mismatch_message(name_debug: Seq<char>, count: nat, expected: nat) -> Seq<
    char,
> {
    "part "@ + name_debug + " has "@ + decimal(count) + " measures but the first part has "@
        + decimal(expected) + "; all parts must have the same number of measures"@
}

/// The error for a part whose measure count differs from the first part's, given the
/// debug text of the part's name.
pub fn count_mismatch_error(name_debug: &str, count: usize, expected: usize) -> (e: JianPuError)
    ensures
        e.span == (Span { start: 0, end: 1 }),
        e.message@ == count_mismatch_message(name_debug@, count as nat, expected as nat),
        e.path.is_none(),
        e.kind == ErrorKind::General,
{
    let mut msg = String::from_str("part ");
    msg.append(name_debug);
    msg.append(" has ");
    let c = decimal_string(count);
    msg.append(c.as_str());
    msg.append(" measures but the first part has ");
    let x = decimal_string(expected);
    msg.append(x.as_str());
    msg.append("; all parts must have the same number of measures");
    JianPuError::new(Span::new(0, 1), msg)
}

fn validate_measure_counts(grouped_tracks: &[GroupedTrack], expected_len: usize) -> (r: Result<
    (),
    JianPuError,
>)
    requires
        grouped_tracks@.len() > 0,
    ensures
        r is Ok <==> first_count_mismatch(parts_view(grouped_tracks@), expected_len as nat, 1)
            == grouped_tracks@.len(),
        r matches Err(e) ==> ({
            let pv = parts_view(grouped_tracks@);
            let k = first_count_mismatch(pv, expected_len as nat, 1);
            &&& 1 <= k < grouped_tracks@.len()
            &&& error_matches(
                e,
                (
                    Span { start: 0, end: 1 },
                    count_mismatch_message(
                        option_name_debug_text(name_view(pv[k].name)),
                        pv[k].measures.len(),
                        expected_len as nat,
                    ),
                    ErrorKind::General,
                ),
            )
        }),
{
    let ghost pv = parts_view(grouped_tracks@);
    let mut t: usize = 1;
    while t < grouped_tracks.len()
        invariant
            1 <= t <= grouped_tracks@.len(),
            pv == parts_view(grouped_tracks@),
            forall|u: int| 1 <= u < t ==> (#[trigger] pv[u]).measures.len() == expected_len as nat,
        decreases grouped_tracks@.len() - t,
    {
        let track = &grouped_tracks[t];
        let count = track.measure_count();
        proof {
            assert(pv[t as int].measures.len() == count);
        }
        if count != expected_len {
            proof {
                lemma_first_count_mismatch_is(pv, expected_len as nat, 1, t as int);
            }
            let name = debug_name(track.track_name());
            return Err(count_mismatch_error(name.as_str(), count, expected_len));
        }
        t += 1;
    }
    proof {
        lemma_first_count_mismatch_is(pv, expected_len as nat, 1, grouped_tracks@.len() as int);
    }
    Ok(())
}

/// A combined measure as plain values.
pub open spec fn combined_view(m: MultiPartMeasure) -> (
    Option<TimeSignature>,
    Option<u32>,
    Option<KeyChange>,
    Option<String>,
    Seq<(bool, (Option<String>, PartKind, Seq<NoteEvent>, Option<Seq<Syllable>>))>,
    Span,
) {
    (
        m.time_signature,
        m.bpm,
        m.key,
        m.label,
        m.parts@.map_values(|r: PartRow| row_view(r)),
        m.source_span,
    )
}

/// Measure `i` of the combined score: the directives of measure `i`, one row per part,
/// and the source span of the first part's measure.
pub open spec fn expected_measure(dirs: Seq<MeasureDirectives>, parts: Seq<PartView>, i: int) -> (
    Option<TimeSignature>,
    Option<u32>,
    Option<KeyChange>,
    Option<String>,
    Seq<(bool, (Option<String>, PartKind, Seq<NoteEvent>, Option<Seq<Syllable>>))>,
    Span,
) {
    let d = dirs[i];
    (
        d.time_signature,
        d.bpm,
        d.key,
        d.label,
        Seq::new(parts.len(), |t: int| expected_row(parts[t], i)),
        parts[0].measures[i].1,
    )
}

pub open spec fn missing_directives_message() -> Seq<char> {
    "internal invariant: measure_directives shorter than measure count"@
}

/// The combined measures of the parts, or why they cannot be combined: a part with a
/// different number of measures than the first, or too few directive entries.
pub open spec fn combine_spec(dirs: Seq<MeasureDirectives>, parts: Seq<PartView>) -> Result<
    Seq<
        (
            Option<TimeSignature>,
            Option<u32>,
            Option<KeyChange>,
            Option<String>,
            Seq<(bool, (Option<String>, PartKind, Seq<NoteEvent>, Option<Seq<Syllable>>))>,
            Span,
        ),
    >,
    (Span, Seq<char>, ErrorKind),
> {
    if parts.len() == 0 {
        Ok(seq![])
    } else {
        let expected = parts[0].measures.len();
        let k = first_count_mismatch(parts, expected, 1);
        if k < parts.len() {
            Err(
                (
                    Span { start: 0, end: 1 },
                    count_mismatch_message(
                        option_name_debug_text(name_view(parts[k].name)),
                        parts[k].measures.len(),
                        expected,
                    ),
                    ErrorKind::General,
                ),
            )
        } else if dirs.len() < expected {
            Err((Span { start: 0, end: 0 }, missing_directives_message(), ErrorKind::General))
        } else {
            Ok(Seq::new(expected, |i: int| expected_measure(dirs, parts, i)))
        }
    }
}

/// Combines the grouped parts into measures that hold a row of every part; see `combine_spec`.
pub fn combine(grouped_score: &GroupedScore) -> (r: Result<Vec<MultiPartMeasure>, JianPuError>)
    ensures
        match combine_spec(grouped_score.measure_directives@, parts_view(grouped_score.parts@)) {
            Ok(v) => r matches Ok(ms) && ms@.map_values(|m: MultiPartMeasure| combined_view(m))
                == v,
            Err(x) => r matches Err(e) && error_matches(e, x),
        },
{
    let ghost pv = parts_view(grouped_score.parts@);
    if grouped_score.parts.len() == 0 {
        let ms: Vec<MultiPartMeasure> = Vec::new();
        proof {
            assert(ms@.map_values(|m: MultiPartMeasure| combined_view(m)) =~= seq![]);
        }
        return Ok(ms);
    }
    let parts = &grouped_score.parts;
    let expected_len = parts[0].measure_count();
    match validate_measure_counts(parts.as_slice(), expected_len) {
        Ok(_) => {},
        Err(e) => return Err(e),
    }
    proof {
        assert forall|u: int| 0 <= u < pv.len() implies (#[trigger] pv[u]).measures.len()
            == expected_len by {
            if u > 0 {
                lemma_count_before_mismatch(pv, expected_len as nat, 1, u);
            }
        }
    }
    let mut lyrics_per_track: Vec<Vec<Vec<Syllable>>> = Vec::new();
    let mut t: usize = 0;
    while t < parts.len()
        invariant
            t <= parts@.len(),
            parts@ == grouped_score.parts@,
            lyrics_per_track@.len() == t,
            forall|u: int|
                0 <= u < t ==> lyrics_per_track@[u]@.len() == track_part(
                    #[trigger] parts@[u],
                ).measures@.len() && forall|k: int|
                    0 <= k < lyrics_per_track@[u]@.len() ==> lyrics_per_track@[u]@[k]@
                        == part_lyrics_per_measure(part_view(track_part(parts@[u])))[k],
        decreases parts@.len() - t,
    {
        let part = match &parts[t] {
            GroupedTrack::Timed(p) => p,
        };
        lyrics_per_track.push(lyrics_for_part(part));
        t += 1;
    }
    let mut combined: Vec<MultiPartMeasure> = Vec::new();
    let mut i: usize = 0;
    while i < expected_len
        invariant
            i <= expected_len,
            parts@ == grouped_score.parts@,
            pv == parts_view(grouped_score.parts@),
            parts@.len() > 0,
            expected_len == pv[0].measures.len(),
            first_count_mismatch(pv, expected_len as nat, 1) == parts@.len(),
            forall|u: int| 0 <= u < pv.len() ==> (#[trigger] pv[u]).measures.len() == expected_len,
            lyrics_per_track@.len() == parts@.len(),
            forall|u: int|
                0 <= u < parts@.len() ==> lyrics_per_track@[u]@.len() == track_part(
                    #[trigger] parts@[u],
                ).measures@.len() && forall|k: int|
                    0 <= k < lyrics_per_track@[u]@.len() ==> lyrics_per_track@[u]@[k]@
                        == part_lyrics_per_measure(part_view(track_part(parts@[u])))[k],
            combined@.len() == i,
            i > 0 ==> grouped_score.measure_directives@.len() >= i,
            forall|m: int|
                0 <= m < i ==> combined_view(#[trigger] combined@[m]) == expected_measure(
                    grouped_score.measure_directives@,
                    pv,
                    m,
                ),
        decreases expected_len - i,
    {
        if i >= grouped_score.measure_directives.len() {
            return Err(
                JianPuError::new(
                    Span::new(0, 0),
                    String::from_str(
                        "internal invariant: measure_directives shorter than measure count",
                    ),
                ),
            );
        }
        let directives = &grouped_score.measure_directives[i];
        proof {
            assert forall|u: int| 0 <= u < parts@.len() implies i < track_part(
                #[trigger] parts@[u],
            ).measures@.len() by {
                assert(pv[u].measures.len() == expected_len);
            }
        }
        let part_rows = build_part_rows(parts.as_slice(), i, &lyrics_per_track);
        let first = match &parts[0] {
            GroupedTrack::Timed(p) => p,
        };
        proof {
            assert(pv[0].measures.len() == expected_len);
        }
        let source_span = first.measures[i].source_span;
        let measure = MultiPartMeasure {
            time_signature: directives.time_signature,
            bpm: directives.bpm,
            key: directives.key,
            label: copy_opt_string(&directives.label),
            parts: part_rows,
            source_span,
        };
        proof {
            let ev = expected_measure(grouped_score.measure_directives@, pv, i as int);
            assert(combined_view(measure).4 =~= ev.4);
            assert(pv[0].measures[i as int].1 == source_span);
        }
        combined.push(measure);
        i += 1;
    }
    proof {
        let v = Seq::new(
            expected_len as nat,
            |i: int| expected_measure(grouped_score.measure_directives@, pv, i),
        );
        assert(combined@.map_values(|m: MultiPartMeasure| combined_view(m)) =~= v);
    }
    Ok(combined)
}

proof fn lemma_count_before_mismatch(parts: Seq<PartView>, expected: nat, from: int, u: int)
    requires
        0 <= from <= u < parts.len(),
        first_count_mismatch(parts, expected, from) == parts.len(),
    ensures
        parts[u].measures.len() == expected,
    decreases u - from,
{
    if from < u {
        lemma_count_before_mismatch(parts, expected, from + 1, u);
    }
}

} // verus!
