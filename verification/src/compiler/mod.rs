pub mod slur_chains;
pub mod types;

use vstd::prelude::*;

use self::slur_chains::{
    chains_view, close_groups, extend_note_chains, extend_spec, push_span_unique, push_unique,
    ChainState, PartCrossState, PendingSlurOpen, SlurKey, chord_key,
};
use self::types::{
    block_view, content_view, decoration_view, elements_view, row_view, ColumnElement, CompileResult, ContentView,
    Decoration, DecorationView, ElementContent, MeasureBlock, MeasureRow, RowId, SlurSpan,
};
use crate::ast::grouped::{
    chord_symbol_text, row_slice, GroupedChordNote, GroupedNote, GroupedRest, MultiPartMeasure,
    NoteEvent, PartRow, PartSlice, Score,
};
use crate::ast::parsed::{PartKind, Syllable};
use crate::grouper::{event_duration, lemma_sum_push, sum_durations};
use crate::text::{decimal, decimal_string};

verus! {

/// A note, chord or rest waiting to be beamed: its column, its number of underlines and
/// its duration.
#[derive(Clone, Copy)]
pub struct BeamEntry {
    pub column: u32,
    pub underline_count: u32,
    pub duration: u32,
}

/// Underlines of a note or chord (`rest` false) or a rest (`rest` true): two for a
/// sixteenth, one for an eighth (or a dotted eighth note), none otherwise.
pub open spec fn underline_count_for(duration: u32, rest: bool) -> u32 {
    if duration == 1 {
        2
    } else if duration == 2 || (!rest && duration == 3) {
        1
    } else {
        0
    }
}

pub open spec fn underline(from: u32, to: int, last_head: u32, level: u32) -> (u32, ContentView) {
    (
        from,
        ContentView::Underline {
            from_column: from,
            to_column: to as u32,
            last_head_column: last_head,
            level,
        },
    )
}

/// The second-level underlines from entry `i` on, given the run of sixteenths in
/// progress (start, end, last head).
pub open spec fn level_runs(buf: Seq<BeamEntry>, i: int, run: Option<(u32, int, u32)>) -> Seq<
    (u32, ContentView),
>
    decreases buf.len() - i,
{
    if i < 0 || i >= buf.len() {
        match run {
            Some(r) => seq![underline(r.0, r.1, r.2, 1)],
            None => seq![],
        }
    } else {
        let e = buf[i];
        if e.underline_count >= 2 {
            let start = match run {
                Some(r) => r.0,
                None => e.column,
            };
            level_runs(buf, i + 1, Some((start, e.column + e.duration, e.column)))
        } else {
            match run {
                Some(r) => seq![underline(r.0, r.1, r.2, 1)] + level_runs(buf, i + 1, None),
                None => level_runs(buf, i + 1, None),
            }
        }
    }
}

/// The underlines of a beam group: one under the whole group, and one more under each
/// run of sixteenths.
pub open spec fn underline_elements(buf: Seq<BeamEntry>) -> Seq<(u32, ContentView)> {
    if buf.len() == 0 {
        seq![]
    } else {
        seq![underline(buf[0].column, buf.last().column + buf.last().duration, buf.last().column, 0)]
            + level_runs(buf, 0, None)
    }
}

/// Every entry ends by column `bound`.
pub open spec fn beam_fits(buf: Seq<BeamEntry>, bound: int) -> bool {
    forall|k: int| 0 <= k < buf.len() ==> (#[trigger] buf[k]).column + buf[k].duration <= bound
}

fn underline_element(from: u32, to: u32, last_head: u32, level: u32) -> (e: ColumnElement)
    ensures
        (e.column, content_view(e.content)) == underline(from, to as int, last_head, level),
{
    ColumnElement {
        column: from,
        content: ElementContent::Underline {
            from_column: from,
            to_column: to,
            last_head_column: last_head,
            level,
        },
    }
}

pub fn compute_underline_levels(buffer: &[BeamEntry]) -> (r: Vec<ColumnElement>)
    requires
        beam_fits(buffer@, u32::MAX as int),
    ensures
        elements_view(r@) == underline_elements(buffer@),
{
    let mut result: Vec<ColumnElement> = Vec::new();
    if buffer.len() == 0 {
        proof {
            assert(elements_view(result@) =~= underline_elements(buffer@));
        }
        return result;
    }
    let first = buffer[0];
    let last = buffer[buffer.len() - 1];
    proof {
        assert(buffer@[buffer@.len() - 1].column + buffer@[buffer@.len() - 1].duration <= u32::MAX);
    }
    result.push(underline_element(first.column, last.column + last.duration, last.column, 0));
    let mut run_start: Option<u32> = None;
    let mut run_end: u32 = 0;
    let mut run_last_head: u32 = 0;
    let mut i: usize = 0;
    while i < buffer.len()
        invariant
            i <= buffer@.len(),
            buffer@.len() > 0,
            beam_fits(buffer@, u32::MAX as int),
            elements_view(result@) + level_runs(
                buffer@,
                i as int,
                match run_start {
                    Some(s) => Some((s, run_end as int, run_last_head)),
                    None => None,
                },
            ) == underline_elements(buffer@),
        decreases buffer@.len() - i,
    {
        let entry = buffer[i];
        proof {
            assert(buffer@[i as int].column + buffer@[i as int].duration <= u32::MAX);
        }
        let ghost before = elements_view(result@);
        if entry.underline_count >= 2 {
            if run_start.is_none() {
                run_start = Some(entry.column);
            }
            run_end = entry.column + entry.duration;
            run_last_head = entry.column;
        } else {
            match run_start {
                Some(start) => {
                    result.push(underline_element(start, run_end, run_last_head, 1));
                    proof {
                        assert(elements_view(result@) =~= before + seq![
                            underline(start, run_end as int, run_last_head, 1),
                        ]);
                    }
                    run_start = None;
                },
                None => {},
            }
        }
        i += 1;
    }
    match run_start {
        Some(start) => {
            let ghost before = elements_view(result@);
            result.push(underline_element(start, run_end, run_last_head, 1));
            proof {
                assert(elements_view(result@) =~= before + seq![
                    underline(start, run_end as int, run_last_head, 1),
                ]);
            }
        },
        None => {
            proof {
                assert(elements_view(result@) =~= elements_view(result@) + seq![]);
            }
        },
    }
    result
}

/// The state of compiling one part's measure.
pub struct SliceModel {
    pub elements: Seq<(u32, ContentView)>,
    pub beam: Seq<BeamEntry>,
    pub chains: ChainState,
    pub prev_tie: bool,
    pub prev_tie_column: Option<u32>,
    pub prev_tie_measure: Option<usize>,
    pub prev_key: Option<SlurKey>,
    pub col: int,
    pub cross_open: bool,
    pub lyric_next: int,
}

/// Writing out the pending beam group.
pub open spec fn flush_beam(m: SliceModel) -> SliceModel {
    if m.beam.len() == 0 {
        m
    } else {
        SliceModel { elements: m.elements + underline_elements(m.beam), beam: seq![], ..m }
    }
}

/// The dashes after a note head, one at each further beat of the note.
pub open spec fn dash_count(duration: u32) -> int {
    if duration > 4 {
        (duration - 4 + 3) / 4
    } else {
        0
    }
}

pub open spec fn dashes(col: u32, duration: u32) -> Seq<(u32, ContentView)> {
    Seq::new(dash_count(duration) as nat, |i: int| ((col + 4 * (i + 1)) as u32, ContentView::NoteDash))
}

/// A note: head, beam bookkeeping, slur groups (closing at its extension when asked), a
/// cross-measure tie ending on it, its lyric unless it continues a tie, dashes for its
/// extra beats.
pub open spec fn note_step(
    m: SliceModel,
    note: GroupedNote,
    kind: PartKind,
    lyrics: Seq<Syllable>,
    mi: usize,
    pi: usize,
) -> SliceModel {
    let col = m.col as u32;
    let m1 = SliceModel {
        elements: m.elements.push(
            (col, ContentView::NoteHead { pitch: note.pitch, octave: note.octave, dotted: note.dotted }),
        ),
        ..m
    };
    let uc = underline_count_for(note.duration, false);
    let m2 = if uc == 0 {
        flush_beam(m1)
    } else {
        m1
    };
    let key = SlurKey::Pitch(note.pitch);
    let c1 = extend_spec(m2.chains, note.group_membership, note.group_continuation, col, key, mi, pi);
    let c2 = if note.slur_group_close_at_duration is Some && note.group_membership > 0 {
        extend_spec(
            c1,
            note.group_membership,
            0,
            (col + note.slur_group_close_at_duration->0) as u32,
            SlurKey::Rest,
            mi,
            pi,
        )
    } else {
        c1
    };
    let tie_cont = m2.prev_tie && m2.prev_key == Some(key);
    let closes_tie = m2.cross_open && tie_cont;
    let spans3 = if closes_tie && m2.prev_tie_column is Some && m2.prev_tie_measure is Some {
        push_unique(
            c2.spans,
            SlurSpan {
                part_index: pi,
                from_measure: m2.prev_tie_measure->0,
                from_column: m2.prev_tie_column->0,
                to_measure: mi,
                to_column: col,
            },
        )
    } else {
        c2.spans
    };
    let takes_lyric = kind == PartKind::NotesWithLyrics && !tie_cont && m2.lyric_next < lyrics.len();
    let elements4 = if takes_lyric {
        m2.elements.push((col, ContentView::Lyric(lyrics[m2.lyric_next].text@)))
    } else {
        m2.elements
    };
    let elements5 = if !note.dotted {
        elements4 + dashes(col, note.duration)
    } else {
        elements4
    };
    let m6 = SliceModel {
        elements: elements5,
        beam: if uc > 0 {
            m2.beam.push(BeamEntry { column: col, underline_count: uc, duration: note.duration })
        } else {
            m2.beam
        },
        chains: ChainState { spans: spans3, ..c2 },
        prev_tie: note.tie,
        prev_tie_column: if note.tie {
            Some(col)
        } else {
            None
        },
        prev_tie_measure: if note.tie {
            Some(mi)
        } else {
            None
        },
        prev_key: Some(key),
        col: m.col + note.duration,
        cross_open: if closes_tie {
            false
        } else {
            m2.cross_open
        },
        lyric_next: if takes_lyric {
            m2.lyric_next + 1
        } else {
            m2.lyric_next
        },
    };
    if uc > 0 && m6.col % 4 == 0 {
        flush_beam(m6)
    } else {
        m6
    }
}

/// A rest: beam bookkeeping, the rest itself, its slur groups; it ends any tie.
pub open spec fn rest_step(m: SliceModel, rest: GroupedRest, mi: usize, pi: usize) -> SliceModel {
    let col = m.col as u32;
    let uc = underline_count_for(rest.duration, true);
    let m1 = if uc == 0 {
        flush_beam(m)
    } else {
        m
    };
    let m2 = SliceModel {
        elements: m1.elements.push((col, ContentView::Rest { dotted: rest.dotted })),
        chains: if rest.group_membership > 0 {
            extend_spec(
                m1.chains,
                rest.group_membership,
                rest.group_continuation,
                col,
                SlurKey::Rest,
                mi,
                pi,
            )
        } else {
            m1.chains
        },
        beam: if uc > 0 {
            m1.beam.push(BeamEntry { column: col, underline_count: uc, duration: rest.duration })
        } else {
            m1.beam
        },
        col: m.col + rest.duration,
        prev_tie: false,
        prev_tie_column: None,
        prev_tie_measure: None,
        prev_key: None,
        ..m1
    };
    if uc > 0 && m2.col % 4 == 0 {
        flush_beam(m2)
    } else {
        m2
    }
}

/// A chord symbol: the symbol, beam bookkeeping, slur groups and tie bookkeeping.
pub open spec fn chord_step(m: SliceModel, chord: GroupedChordNote, mi: usize, pi: usize) -> SliceModel {
    let col = m.col as u32;
    let m1 = SliceModel {
        elements: m.elements.push((col, ContentView::ChordSymbol(chord_symbol_text(chord)))),
        ..m
    };
    let uc = underline_count_for(chord.duration, false);
    let m2 = if uc == 0 {
        flush_beam(m1)
    } else {
        m1
    };
    let key = chord_key(chord);
    let m3 = SliceModel {
        chains: extend_spec(
            m2.chains,
            chord.group_membership,
            chord.group_continuation,
            col,
            key,
            mi,
            pi,
        ),
        prev_tie: chord.tie,
        prev_tie_column: if chord.tie {
            Some(col)
        } else {
            None
        },
        prev_tie_measure: if chord.tie {
            Some(mi)
        } else {
            None
        },
        prev_key: Some(key),
        beam: if uc > 0 {
            m2.beam.push(BeamEntry { column: col, underline_count: uc, duration: chord.duration })
        } else {
            m2.beam
        },
        col: m.col + chord.duration,
        ..m2
    };
    if uc > 0 && m3.col % 4 == 0 {
        flush_beam(m3)
    } else {
        m3
    }
}

pub open spec fn event_step(
    m: SliceModel,
    e: NoteEvent,
    kind: PartKind,
    lyrics: Seq<Syllable>,
    mi: usize,
    pi: usize,
) -> SliceModel {
    match e {
        NoteEvent::Note(n) => note_step(m, n, kind, lyrics, mi, pi),
        NoteEvent::Rest(r) => rest_step(m, r, mi, pi),
        NoteEvent::Chord(c) => chord_step(m, c, mi, pi),
    }
}

pub open spec fn events_fold(
    m0: SliceModel,
    events: Seq<NoteEvent>,
    n: int,
    kind: PartKind,
    lyrics: Seq<Syllable>,
    mi: usize,
    pi: usize,
) -> SliceModel
    decreases n,
{
    if n <= 0 {
        m0
    } else {
        event_step(events_fold(m0, events, n - 1, kind, lyrics, mi, pi), events[n - 1], kind, lyrics, mi, pi)
    }
}

/// Whether a measure's events can be compiled with `u32` columns: the measure's length
/// and a few columns past it fit, and so does the column where a slur group closes.
pub open spec fn compilable_slice(events: Seq<NoteEvent>) -> bool {
    &&& sum_durations(events) + 4 <= u32::MAX
    &&& forall|i: int|
        0 <= i < events.len() ==> match #[trigger] events[i] {
            NoteEvent::Note(n) => match n.slur_group_close_at_duration {
                Some(off) => n.group_membership > 0 ==> sum_durations(events.take(i)) + off <= u32::MAX,
                None => true,
            },
            _ => true,
        }
}

pub proof fn lemma_sum_take(s: Seq<NoteEvent>, i: int, j: int)
    requires
        0 <= i <= j <= s.len(),
    ensures
        sum_durations(s.take(i)) <= sum_durations(s.take(j)),
        j == i + 1 ==> sum_durations(s.take(j)) == sum_durations(s.take(i)) + event_duration(s[i]),
    decreases j - i,
{
    if i < j {
        assert(s.take(j).drop_last() =~= s.take(j - 1));
        lemma_sum_take(s, i, j - 1);
    }
}

/// The compiling state of one part's measure.
pub struct SliceState {
    pub elements: Vec<ColumnElement>,
    pub beam_buf: Vec<BeamEntry>,
    pub chains: Vec<Vec<(u32, SlurKey)>>,
    pub pending: Vec<Option<PendingSlurOpen>>,
    pub spans: Vec<SlurSpan>,
    pub prev_tie: bool,
    pub prev_tie_column: Option<u32>,
    pub prev_tie_measure: Option<usize>,
    pub prev_slur_key: Option<SlurKey>,
    pub col: u32,
    pub cross_open: bool,
    pub lyric_next: usize,
}

fn underline_count_of(duration: u32, rest: bool) -> (c: u32)
    ensures
        c == underline_count_for(duration, rest),
{
    if duration == 1 {
        2
    } else if duration == 2 || (!rest && duration == 3) {
        1
    } else {
        0
    }
}

fn append_elements(dst: &mut Vec<ColumnElement>, src: Vec<ColumnElement>)
    ensures
        elements_view(final(dst)@) == elements_view(old(dst)@) + elements_view(src@),
{
    let mut src = src;
    let ghost s = src@;
    dst.append(&mut src);
    proof {
        assert(elements_view(dst@) =~= elements_view(old(dst)@) + elements_view(s));
    }
}

fn push_element(dst: &mut Vec<ColumnElement>, e: ColumnElement)
    ensures
        elements_view(final(dst)@) == elements_view(old(dst)@).push((e.column, content_view(e.content))),
{
    dst.push(e);
    proof {
        assert(elements_view(dst@) =~= elements_view(old(dst)@).push((e.column, content_view(e.content))));
    }
}

impl SliceState {
    pub open spec fn model(&self) -> SliceModel {
        SliceModel {
            elements: elements_view(self.elements@),
            beam: self.beam_buf@,
            chains: ChainState {
                chains: chains_view(self.chains@),
                pending: self.pending@,
                spans: self.spans@,
            },
            prev_tie: self.prev_tie,
            prev_tie_column: self.prev_tie_column,
            prev_tie_measure: self.prev_tie_measure,
            prev_key: self.prev_slur_key,
            col: self.col as int,
            cross_open: self.cross_open,
            lyric_next: self.lyric_next as int,
        }
    }

    fn flush_beam(&mut self)
        requires
            beam_fits(old(self).beam_buf@, u32::MAX as int),
        ensures
            final(self).model() == flush_beam(old(self).model()),
    {
        if self.beam_buf.len() == 0 {
            return;
        }
        let underlines = compute_underline_levels(self.beam_buf.as_slice());
        append_elements(&mut self.elements, underlines);
        self.beam_buf.clear();
        proof {
            assert(self.beam_buf@ =~= seq![]);
        }
    }

    #[verifier::rlimit(50)]
    #[verifier::spinoff_prover]
    fn compile_note(
        &mut self,
        note: &GroupedNote,
        kind: PartKind,
        lyrics: &[Syllable],
        measure_index: usize,
        part_index: usize,
    )
        requires
            beam_fits(old(self).beam_buf@, old(self).col as int),
            old(self).col + note.duration + 4 <= u32::MAX,
            note.group_membership > 0 ==> (note.slur_group_close_at_duration matches Some(off) ==> old(
                self,
            ).col + off <= u32::MAX),
        ensures
            final(self).model() == note_step(
                old(self).model(),
                *note,
                kind,
                lyrics@,
                measure_index,
                part_index,
            ),
            beam_fits(final(self).beam_buf@, final(self).col as int),
    {
        let ghost m0 = self.model();
        let col = self.col;
        push_element(
            &mut self.elements,
            ColumnElement {
                column: col,
                content: ElementContent::NoteHead {
                    pitch: note.pitch,
                    octave: note.octave,
                    dotted: note.dotted,
                },
            },
        );
        let ghost m1 = SliceModel {
            elements: m0.elements.push(
                (col, ContentView::NoteHead { pitch: note.pitch, octave: note.octave, dotted: note.dotted }),
            ),
            ..m0
        };
        assert(self.model() == m1);
        let uc = underline_count_of(note.duration, false);
        if uc == 0 {
            self.flush_beam();
        }
        let ghost m2 = if uc == 0 {
            flush_beam(m1)
        } else {
            m1
        };
        assert(self.model() == m2);
        assert(beam_fits(self.beam_buf@, col as int));
        let key = SlurKey::Pitch(note.pitch);
        extend_note_chains(
            &mut self.chains,
            &mut self.pending,
            note.group_membership,
            note.group_continuation,
            col,
            &key,
            &mut self.spans,
            measure_index,
            part_index,
        );
        if let Some(close_offset) = note.slur_group_close_at_duration {
            if note.group_membership > 0 {
                extend_note_chains(
                    &mut self.chains,
                    &mut self.pending,
                    note.group_membership,
                    0,
                    col + close_offset,
                    &SlurKey::Rest,
                    &mut self.spans,
                    measure_index,
                    part_index,
                );
            }
        }
        let ghost c1 = extend_spec(
            m2.chains,
            note.group_membership,
            note.group_continuation,
            col,
            key,
            measure_index,
            part_index,
        );
        let ghost c2 = if note.slur_group_close_at_duration is Some && note.group_membership > 0 {
            extend_spec(
                c1,
                note.group_membership,
                0,
                (col + note.slur_group_close_at_duration->0) as u32,
                SlurKey::Rest,
                measure_index,
                part_index,
            )
        } else {
            c1
        };
        assert(self.model().chains == c2);
        let tie_cont = self.prev_tie && match self.prev_slur_key {
            Some(k) => k == key,
            None => false,
        };
        assert(tie_cont == (m2.prev_tie && m2.prev_key == Some(key)));
        if self.cross_open && tie_cont {
            match (self.prev_tie_column, self.prev_tie_measure) {
                (Some(from_col), Some(from_measure)) => {
                    push_span_unique(
                        &mut self.spans,
                        SlurSpan {
                            part_index,
                            from_measure,
                            from_column: from_col,
                            to_measure: measure_index,
                            to_column: col,
                        },
                    );
                },
                _ => {},
            }
            self.cross_open = false;
        }
        if kind == PartKind::NotesWithLyrics && !tie_cont && self.lyric_next < lyrics.len() {
            let text = lyrics[self.lyric_next].text.clone();
            push_element(
                &mut self.elements,
                ColumnElement { column: col, content: ElementContent::Lyric(text) },
            );
            self.lyric_next = self.lyric_next + 1;
        }
        if note.tie {
            self.prev_tie_column = Some(col);
            self.prev_tie_measure = Some(measure_index);
        } else {
            self.prev_tie_column = None;
            self.prev_tie_measure = None;
        }
        self.prev_tie = note.tie;
        self.prev_slur_key = Some(key);
        let ghost elements4 = elements_view(self.elements@);
        let ghost pre = self.model();
        assert(self.beam_buf@ == m2.beam);
        if !note.dotted {
            let end: u64 = col as u64 + note.duration as u64;
            let mut dash_col: u64 = col as u64 + 4;
            let mut k: usize = 0;
            while dash_col < end
                invariant
                    end == col + note.duration,
                    end + 4 <= u32::MAX,
                    dash_col == col + 4 * (k + 1),
                    dash_col <= end + 4,
                    k <= dash_count(note.duration),
                    (dash_col < end) == (k < dash_count(note.duration)),
                    elements_view(self.elements@) == elements4 + dashes(col, note.duration).take(
                        k as int,
                    ),
                    self.model() == (SliceModel { elements: elements_view(self.elements@), ..pre }),
                    self.beam_buf@ == m2.beam,
                    self.col == col,
                decreases dash_count(note.duration) - k,
            {
                push_element(
                    &mut self.elements,
                    ColumnElement { column: dash_col as u32, content: ElementContent::NoteDash },
                );
                proof {
                    assert(dashes(col, note.duration).take(k + 1) =~= dashes(
                        col,
                        note.duration,
                    ).take(k as int).push(((col + 4 * (k + 1)) as u32, ContentView::NoteDash)));
                }
                dash_col = dash_col + 4;
                k = k + 1;
            }
            proof {
                assert(dashes(col, note.duration).take(k as int) =~= dashes(col, note.duration));
            }
        }
        if uc > 0 {
            self.beam_buf.push(
                BeamEntry { column: col, underline_count: uc, duration: note.duration },
            );
        }
        self.col = col + note.duration;
        proof {
            assert forall|k: int| 0 <= k < self.beam_buf@.len() implies (#[trigger] self.beam_buf@[k]).column
                + self.beam_buf@[k].duration <= self.col by {
                if uc > 0 && k == self.beam_buf@.len() - 1 {
                } else {
                    assert(self.beam_buf@[k] == m2.beam[k]);
                }
            }
        }
        if uc > 0 && self.col % 4 == 0 {
            self.flush_beam();
        }
    }

    fn compile_rest(&mut self, rest: &GroupedRest, measure_index: usize, part_index: usize)
        requires
            beam_fits(old(self).beam_buf@, old(self).col as int),
            old(self).col + rest.duration + 4 <= u32::MAX,
        ensures
            final(self).model() == rest_step(old(self).model(), *rest, measure_index, part_index),
            beam_fits(final(self).beam_buf@, final(self).col as int),
    {
        let col = self.col;
        let uc = underline_count_of(rest.duration, true);
        if uc == 0 {
            self.flush_beam();
        }
        push_element(
            &mut self.elements,
            ColumnElement { column: col, content: ElementContent::Rest { dotted: rest.dotted } },
        );
        if rest.group_membership > 0 {
            extend_note_chains(
                &mut self.chains,
                &mut self.pending,
                rest.group_membership,
                rest.group_continuation,
                col,
                &SlurKey::Rest,
                &mut self.spans,
                measure_index,
                part_index,
            );
        }
        if uc > 0 {
            self.beam_buf.push(
                BeamEntry { column: col, underline_count: uc, duration: rest.duration },
            );
        }
        self.col = col + rest.duration;
        self.prev_tie = false;
        self.prev_tie_column = None;
        self.prev_tie_measure = None;
        self.prev_slur_key = None;
        if uc > 0 && self.col % 4 == 0 {
            self.flush_beam();
        }
    }

    fn compile_chord(&mut self, chord: &GroupedChordNote, measure_index: usize, part_index: usize)
        requires
            beam_fits(old(self).beam_buf@, old(self).col as int),
            old(self).col + chord.duration + 4 <= u32::MAX,
        ensures
            final(self).model() == chord_step(old(self).model(), *chord, measure_index, part_index),
            beam_fits(final(self).beam_buf@, final(self).col as int),
    {
        let col = self.col;
        let text = chord.format_symbol();
        push_element(
            &mut self.elements,
            ColumnElement { column: col, content: ElementContent::ChordSymbol(text) },
        );
        let uc = underline_count_of(chord.duration, false);
        if uc == 0 {
            self.flush_beam();
        }
        let key = SlurKey::from_chord(chord);
        extend_note_chains(
            &mut self.chains,
            &mut self.pending,
            chord.group_membership,
            chord.group_continuation,
            col,
            &key,
            &mut self.spans,
            measure_index,
            part_index,
        );
        if chord.tie {
            self.prev_tie_column = Some(col);
            self.prev_tie_measure = Some(measure_index);
        } else {
            self.prev_tie_column = None;
            self.prev_tie_measure = None;
        }
        self.prev_tie = chord.tie;
        self.prev_slur_key = Some(key);
        if uc > 0 {
            self.beam_buf.push(
                BeamEntry { column: col, underline_count: uc, duration: chord.duration },
            );
        }
        self.col = col + chord.duration;
        if uc > 0 && self.col % 4 == 0 {
            self.flush_beam();
        }
    }
}

pub proof fn lemma_beam_fits_weaken(buf: Seq<BeamEntry>, a: int, b: int)
    requires
        beam_fits(buf, a),
        a <= b,
    ensures
        beam_fits(buf, b),
{
}

/// What one part carries from a measure into the next, as plain values.
pub struct CrossModel {
    pub prev_tie: bool,
    pub prev_tie_column: Option<u32>,
    pub prev_tie_measure: Option<usize>,
    pub prev_key: Option<SlurKey>,
    pub pending: Seq<Option<PendingSlurOpen>>,
}

pub open spec fn cross_view(c: PartCrossState) -> CrossModel {
    CrossModel {
        prev_tie: c.prev_tie,
        prev_tie_column: c.prev_tie_column,
        prev_tie_measure: c.prev_tie_measure,
        prev_key: c.prev_slur_key,
        pending: c.pending_slur_opens@,
    }
}

pub open spec fn cross_views(s: Seq<PartCrossState>) -> Seq<CrossModel> {
    s.map_values(|c: PartCrossState| cross_view(c))
}

pub open spec fn default_cross() -> CrossModel {
    CrossModel {
        prev_tie: false,
        prev_tie_column: None,
        prev_tie_measure: None,
        prev_key: None,
        pending: seq![],
    }
}

/// The state a part's measure starts from; a tie carried in is open across the bar line.
pub open spec fn slice_start(c: CrossModel, spans: Seq<SlurSpan>) -> SliceModel {
    SliceModel {
        elements: seq![],
        beam: seq![],
        chains: ChainState { chains: seq![], pending: c.pending, spans },
        prev_tie: c.prev_tie,
        prev_tie_column: c.prev_tie_column,
        prev_tie_measure: c.prev_tie_measure,
        prev_key: c.prev_key,
        col: 0,
        cross_open: c.prev_tie,
        lyric_next: 0,
    }
}

pub open spec fn lyrics_of(s: PartSlice) -> Seq<Syllable> {
    match s.lyrics {
        Some(l) => l.syllables@,
        None => seq![],
    }
}

pub open spec fn pad_pending(p: Seq<Option<PendingSlurOpen>>, n: int) -> Seq<Option<PendingSlurOpen>> {
    if p.len() >= n {
        p
    } else {
        p + Seq::new((n - p.len()) as nat, |i: int| None::<PendingSlurOpen>)
    }
}

/// At the bar line, a group still open at depth `d` keeps its recorded start, or starts
/// at its first note in this measure.
pub open spec fn settle_one(
    chain: Seq<(u32, SlurKey)>,
    p: Seq<Option<PendingSlurOpen>>,
    d: int,
    mi: usize,
) -> Seq<Option<PendingSlurOpen>> {
    if chain.len() == 0 {
        p
    } else {
        let q = pad_pending(p, d + 1);
        if q[d] is Some {
            q
        } else {
            q.update(d, Some(PendingSlurOpen { measure_index: mi, from_column: chain[0].0 }))
        }
    }
}

pub open spec fn settle_pending(
    chains: Seq<Seq<(u32, SlurKey)>>,
    p: Seq<Option<PendingSlurOpen>>,
    d: int,
    mi: usize,
) -> Seq<Option<PendingSlurOpen>>
    decreases chains.len() - d,
{
    if d < 0 || d >= chains.len() {
        p
    } else {
        settle_pending(chains, settle_one(chains[d], p, d, mi), d + 1, mi)
    }
}

/// The compiled measure of one part: its elements ending with a bar line, what it
/// carries into the next measure, and the arcs found so far.
pub open spec fn slice_outcome(
    s: PartSlice,
    c: CrossModel,
    spans: Seq<SlurSpan>,
    mi: usize,
    pi: usize,
) -> (Seq<(u32, ContentView)>, CrossModel, Seq<SlurSpan>) {
    let m = flush_beam(
        events_fold(
            slice_start(c, spans),
            s.notes.events@,
            s.notes.events@.len() as int,
            s.kind,
            lyrics_of(s),
            mi,
            pi,
        ),
    );
    (
        m.elements.push((m.col as u32, ContentView::BarLine)),
        CrossModel {
            prev_tie: m.prev_tie,
            prev_tie_column: m.prev_tie_column,
            prev_tie_measure: m.prev_tie_measure,
            prev_key: m.prev_key,
            pending: settle_pending(m.chains.chains, m.chains.pending, 0, mi),
        },
        m.chains.spans,
    )
}

pub struct PartSliceResult {
    pub elements: Vec<ColumnElement>,
    pub final_tie: bool,
    pub final_tie_column: Option<u32>,
    pub final_tie_measure: Option<usize>,
    pub final_slur_key: Option<SlurKey>,
    pub final_pending_opens: Vec<Option<PendingSlurOpen>>,
}

pub open spec fn result_cross(r: PartSliceResult) -> CrossModel {
    CrossModel {
        prev_tie: r.final_tie,
        prev_tie_column: r.final_tie_column,
        prev_tie_measure: r.final_tie_measure,
        prev_key: r.final_slur_key,
        pending: r.final_pending_opens@,
    }
}

fn pad_pending_to(p: &mut Vec<Option<PendingSlurOpen>>, n: usize)
    ensures
        final(p)@ == pad_pending(old(p)@, n as int),
{
    let ghost start = p@;
    while p.len() < n
        invariant
            start.len() <= p@.len(),
            p@.len() <= (if start.len() >= n {
                start.len()
            } else {
                n as nat
            }),
            p@.take(start.len() as int) == start,
            forall|k: int| start.len() <= k < p@.len() ==> (#[trigger] p@[k]) is None,
        decreases n - p@.len(),
    {
        p.push(None);
    }
    proof {
        assert(p@ =~= pad_pending(start, n as int));
    }
}

/// Compiles one part's measure; see `slice_outcome`.
fn compile_part_slice(
    slice: &PartSlice,
    cross: &PartCrossState,
    measure_index: usize,
    part_index: usize,
    slur_spans: &mut Vec<SlurSpan>,
) -> (r: PartSliceResult)
    requires
        compilable_slice(slice.notes.events@),
    ensures
        ({
            let o = slice_outcome(
                *slice,
                cross_view(*cross),
                old(slur_spans)@,
                measure_index,
                part_index,
            );
            &&& elements_view(r.elements@) == o.0
            &&& result_cross(r) == o.1
            &&& final(slur_spans)@ == o.2
        }),
{
    let ghost events = slice.notes.events@;
    let ghost lyrics = lyrics_of(*slice);
    let mut spans: Vec<SlurSpan> = Vec::new();
    std::mem::swap(&mut spans, slur_spans);
    let mut state = SliceState {
        elements: Vec::new(),
        beam_buf: Vec::new(),
        chains: Vec::new(),
        pending: cross.clone_pending_opens(),
        spans,
        prev_tie: cross.prev_tie,
        prev_tie_column: cross.prev_tie_column,
        prev_tie_measure: cross.prev_tie_measure,
        prev_slur_key: cross.prev_slur_key,
        col: 0,
        cross_open: cross.prev_tie,
        lyric_next: 0,
    };
    let ghost m0 = slice_start(cross_view(*cross), old(slur_spans)@);
    proof {
        assert(state.model().elements =~= seq![]);
        assert(state.model().chains.chains =~= seq![]);
        assert(state.model() == m0);
    }
    let empty: Vec<Syllable> = Vec::new();
    let lyric_slice: &[Syllable] = match &slice.lyrics {
        Some(l) => l.syllables.as_slice(),
        None => empty.as_slice(),
    };
    let mut i: usize = 0;
    while i < slice.notes.events.len()
        invariant
            events == slice.notes.events@,
            lyric_slice@ == lyrics,
            lyrics == lyrics_of(*slice),
            compilable_slice(events),
            i <= events.len(),
            state.model() == events_fold(m0, events, i as int, slice.kind, lyrics, measure_index, part_index),
            state.col == sum_durations(events.take(i as int)),
            beam_fits(state.beam_buf@, state.col as int),
        decreases events.len() - i,
    {
        proof {
            lemma_sum_take(events, i as int, i + 1);
            lemma_sum_take(events, i + 1, events.len() as int);
            assert(events.take(events.len() as int) =~= events);
        }
        let ev = slice.notes.events[i];
        match ev {
            NoteEvent::Note(n) => {
                proof {
                    assert(match events[i as int] {
                        NoteEvent::Note(n) => match n.slur_group_close_at_duration {
                            Some(off) => n.group_membership > 0 ==> sum_durations(events.take(i as int))
                                + off <= u32::MAX,
                            None => true,
                        },
                        _ => true,
                    });
                }
                state.compile_note(&n, slice.kind, lyric_slice, measure_index, part_index);
            },
            NoteEvent::Rest(r) => {
                state.compile_rest(&r, measure_index, part_index);
            },
            NoteEvent::Chord(c) => {
                state.compile_chord(&c, measure_index, part_index);
            },
        }
        i += 1;
    }
    proof {
        assert(events.take(events.len() as int) =~= events);
        lemma_beam_fits_weaken(state.beam_buf@, state.col as int, u32::MAX as int);
    }
    state.flush_beam();
    let ghost mf = state.model();
    let mut d: usize = 0;
    while d < state.chains.len()
        invariant
            d <= state.chains@.len(),
            chains_view(state.chains@) == mf.chains.chains,
            state.model() == (SliceModel {
                chains: ChainState { pending: state.pending@, ..mf.chains },
                ..mf
            }),
            settle_pending(mf.chains.chains, state.pending@, d as int, measure_index)
                == settle_pending(mf.chains.chains, mf.chains.pending, 0, measure_index),
        decreases state.chains@.len() - d,
    {
        let n = state.chains[d].len();
        proof {
            assert(mf.chains.chains[d as int] == state.chains@[d as int]@);
        }
        if n > 0 {
            let first_col = state.chains[d][0].0;
            pad_pending_to(&mut state.pending, d + 1);
            if state.pending[d].is_none() {
                state.pending.set(
                    d,
                    Some(PendingSlurOpen { measure_index, from_column: first_col }),
                );
            }
        }
        d += 1;
    }
    push_element(&mut state.elements, ColumnElement { column: state.col, content: ElementContent::BarLine });
    std::mem::swap(&mut state.spans, slur_spans);
    PartSliceResult {
        elements: state.elements,
        final_tie: state.prev_tie,
        final_tie_column: state.prev_tie_column,
        final_tie_measure: state.prev_tie_measure,
        final_slur_key: state.prev_slur_key,
        final_pending_opens: state.pending,
    }
}

/// The decorations of a measure: its bpm, its time signature, and its section label, or
/// its bar number when it has no label.
pub open spec fn decorations_spec(m: MultiPartMeasure, bar_number: int) -> Seq<DecorationView> {
    (match m.bpm {
        Some(b) => seq![DecorationView::Bpm(b)],
        None => seq![],
    }) + (match m.time_signature {
        Some(ts) => seq![
            DecorationView::TimeSignature {
                numerator: ts.numerator as u32,
                denominator: ts.denominator as u32,
            },
        ],
        None => seq![],
    }) + (match m.label {
        Some(l) => seq![DecorationView::SectionLabel(l@)],
        None => seq![DecorationView::BarNumber(bar_number as u32)],
    })
}

fn collect_decorations(measure: &MultiPartMeasure, bar_number: usize) -> (r: Vec<Decoration>)
    requires
        bar_number <= u32::MAX,
    ensures
        r@.map_values(|d: Decoration| decoration_view(d)) == decorations_spec(
            *measure,
            bar_number as int,
        ),
{
    let mut decorations: Vec<Decoration> = Vec::new();
    if let Some(bpm) = measure.bpm {
        decorations.push(Decoration::Bpm(bpm));
    }
    if let Some(ts) = measure.time_signature {
        decorations.push(
            Decoration::TimeSignature {
                numerator: ts.numerator as u32,
                denominator: ts.denominator as u32,
            },
        );
    }
    match &measure.label {
        Some(label) => decorations.push(Decoration::SectionLabel(label.clone())),
        None => decorations.push(Decoration::BarNumber(bar_number as u32)),
    }
    proof {
        assert(decorations@.map_values(|d: Decoration| decoration_view(d)) =~= decorations_spec(
            *measure,
            bar_number as int,
        ));
    }
    decorations
}

pub open spec fn name_text(n: Option<String>) -> Seq<char> {
    match n {
        Some(s) => s@,
        None => seq![],
    }
}

/// A row's id: the part's name, or `__anon_` and the part's index.
pub open spec fn row_id_text(n: Option<String>, p: int) -> Seq<char> {
    match n {
        Some(s) => s@,
        None => "__anon_"@ + decimal(p as nat),
    }
}

/// Compiling a measure part by part: the states carried per part, the arcs, the rows.
pub struct MeasureFold {
    pub cross: Seq<CrossModel>,
    pub spans: Seq<SlurSpan>,
    pub rows: Seq<(Seq<char>, Seq<char>, Seq<(u32, ContentView)>)>,
}

/// One part of a measure: a rendered part adds a row; a ditto part adds its name to the
/// label of the row above it. Either way its content is compiled, for ties and slurs.
pub open spec fn part_step(f: MeasureFold, row: PartRow, p: int, mi: usize) -> MeasureFold {
    let s = row_slice(row);
    let o = slice_outcome(s, f.cross[p], f.spans, mi, p as usize);
    let rows = if row is Timed {
        f.rows.push((row_id_text(s.name, p), name_text(s.name), o.0))
    } else if f.rows.len() > 0 && name_text(s.name).len() > 0 {
        let last = f.rows.last();
        f.rows.update(f.rows.len() - 1, (last.0, last.1 + ", "@ + name_text(s.name), last.2))
    } else {
        f.rows
    };
    MeasureFold { cross: f.cross.update(p, o.1), spans: o.2, rows }
}

pub open spec fn parts_fold(f0: MeasureFold, parts: Seq<PartRow>, n: int, mi: usize) -> MeasureFold
    decreases n,
{
    if n <= 0 {
        f0
    } else {
        part_step(parts_fold(f0, parts, n - 1, mi), parts[n - 1], n - 1, mi)
    }
}

/// The rows of a measure; a single row standing for several parts is labelled `[ALL]`.
pub open spec fn measure_rows(f: MeasureFold, nparts: int) -> Seq<
    (Seq<char>, Seq<char>, Seq<(u32, ContentView)>),
> {
    if f.rows.len() == 1 && nparts > 1 {
        f.rows.update(0, (f.rows[0].0, "[ALL]"@, f.rows[0].2))
    } else {
        f.rows
    }
}

pub open spec fn pad_cross(c: Seq<CrossModel>, n: int) -> Seq<CrossModel> {
    if c.len() >= n {
        c
    } else {
        c + Seq::new((n - c.len()) as nat, |i: int| default_cross())
    }
}

/// Every part's measure can be compiled with `u32` columns.
pub open spec fn compilable_measure(m: MultiPartMeasure) -> bool {
    forall|p: int|
        0 <= p < m.parts@.len() ==> compilable_slice(row_slice(#[trigger] m.parts@[p]).notes.events@)
}

pub open spec fn measure_start(c: Seq<CrossModel>, spans: Seq<SlurSpan>, nparts: int) -> MeasureFold {
    MeasureFold { cross: pad_cross(c, nparts), spans, rows: seq![] }
}

fn row_label(name: Option<&String>) -> (s: String)
    ensures
        s@ == name_text(
            match name {
                Some(n) => Some(*n),
                None => None,
            },
        ),
{
    match name {
        Some(n) => n.clone(),
        None => String::new(),
    }
}

fn row_id(name: Option<&String>, part_idx: usize) -> (s: String)
    ensures
        s@ == row_id_text(
            match name {
                Some(n) => Some(*n),
                None => None,
            },
            part_idx as int,
        ),
{
    match name {
        Some(n) => n.clone(),
        None => {
            let mut s = String::from_str("__anon_");
            let d = decimal_string(part_idx);
            s.append(d.as_str());
            s
        },
    }
}

fn compile_measure(
    measure: &MultiPartMeasure,
    bar_number: usize,
    measure_index: usize,
    cross_states: &mut Vec<PartCrossState>,
    slur_spans: &mut Vec<SlurSpan>,
) -> (b: MeasureBlock)
    requires
        bar_number <= u32::MAX,
        compilable_measure(*measure),
    ensures
        ({
            let f = parts_fold(
                measure_start(cross_views(old(cross_states)@), old(slur_spans)@, measure.parts@.len() as int),
                measure.parts@,
                measure.parts@.len() as int,
                measure_index,
            );
            &&& block_view(b) == (
                measure_rows(f, measure.parts@.len() as int),
                decorations_spec(*measure, bar_number as int),
            )
            &&& cross_views(final(cross_states)@) == f.cross
            &&& final(slur_spans)@ == f.spans
        }),
{
    let ghost c0 = cross_views(cross_states@);
    let ghost f0 = measure_start(c0, slur_spans@, measure.parts@.len() as int);
    while cross_states.len() < measure.parts.len()
        invariant
            c0.len() <= cross_states@.len(),
            cross_states@.len() <= (if c0.len() >= measure.parts@.len() {
                c0.len()
            } else {
                measure.parts@.len()
            }),
            forall|k: int| 0 <= k < c0.len() ==> cross_view(#[trigger] cross_states@[k]) == c0[k],
            forall|k: int|
                c0.len() <= k < cross_states@.len() ==> cross_view(#[trigger] cross_states@[k])
                    == default_cross(),
        decreases measure.parts@.len() - cross_states@.len(),
    {
        cross_states.push(PartCrossState::new());
    }
    proof {
        assert(cross_views(cross_states@) =~= f0.cross);
    }
    let decorations = collect_decorations(measure, bar_number);
    let mut rows: Vec<MeasureRow> = Vec::new();
    let mut p: usize = 0;
    while p < measure.parts.len()
        invariant
            p <= measure.parts@.len(),
            cross_states@.len() >= measure.parts@.len(),
            compilable_measure(*measure),
            ({
                let f = parts_fold(f0, measure.parts@, p as int, measure_index);
                &&& cross_views(cross_states@) == f.cross
                &&& slur_spans@ == f.spans
                &&& rows@.map_values(|r: MeasureRow| row_view(r)) == f.rows
            }),
        decreases measure.parts@.len() - p,
    {
        let ghost f = parts_fold(f0, measure.parts@, p as int, measure_index);
        let part_row = &measure.parts[p];
        proof {
            assert(compilable_slice(row_slice(measure.parts@[p as int]).notes.events@));
            assert(cross_view(cross_states@[p as int]) == f.cross[p as int]);
        }
        let result = compile_part_slice(part_row.slice(), &cross_states[p], measure_index, p, slur_spans);
        let ghost o = slice_outcome(row_slice(*part_row), f.cross[p as int], f.spans, measure_index, p);
        let new_cross = PartCrossState {
            prev_tie: result.final_tie,
            prev_tie_column: result.final_tie_column,
            prev_tie_measure: result.final_tie_measure,
            prev_slur_key: result.final_slur_key,
            pending_slur_opens: result.final_pending_opens,
        };
        let ghost before_cross = cross_states@;
        cross_states.set(p, new_cross);
        proof {
            assert(cross_views(cross_states@) =~= f.cross.update(p as int, o.1));
        }
        let ghost rows_before = rows@.map_values(|r: MeasureRow| row_view(r));
        match part_row.rendered_slice() {
            Some(_) => {
                let label = row_label(part_row.name());
                let id = RowId(row_id(part_row.name(), p));
                rows.push(MeasureRow { id, label, elements: result.elements });
                proof {
                    assert(rows@.map_values(|r: MeasureRow| row_view(r)) =~= rows_before.push(
                        (row_id_text(row_slice(*part_row).name, p as int), name_text(row_slice(*part_row).name), o.0),
                    ));
                }
            },
            None => {
                let ditto_label = row_label(part_row.name());
                if rows.len() > 0 && ditto_label.unicode_len() > 0 {
                    let mut last = rows.pop().unwrap();
                    last.label.append(", ");
                    last.label.append(ditto_label.as_str());
                    rows.push(last);
                    proof {
                        assert(rows@.map_values(|r: MeasureRow| row_view(r)) =~= rows_before.update(
                            rows_before.len() - 1,
                            (
                                rows_before.last().0,
                                rows_before.last().1 + ", "@ + name_text(row_slice(*part_row).name),
                                rows_before.last().2,
                            ),
                        ));
                    }
                }
            },
        }
        p += 1;
    }
    let ghost ff = parts_fold(f0, measure.parts@, measure.parts@.len() as int, measure_index);
    if rows.len() == 1 && measure.parts.len() > 1 {
        let mut row = rows.pop().unwrap();
        row.label = String::from_str("[ALL]");
        rows.push(row);
        proof {
            assert(rows@.map_values(|r: MeasureRow| row_view(r)) =~= measure_rows(
                ff,
                measure.parts@.len() as int,
            ));
        }
    }
    let block = MeasureBlock { rows, decorations };
    block
}

/// Compiling the measures in order: the states carried per part, the arcs, the blocks.
pub struct CompileFold {
    pub cross: Seq<CrossModel>,
    pub spans: Seq<SlurSpan>,
    pub blocks: Seq<(Seq<(Seq<char>, Seq<char>, Seq<(u32, ContentView)>)>, Seq<DecorationView>)>,
}

pub open spec fn compile_fold(ms: Seq<MultiPartMeasure>, k: int) -> CompileFold
    decreases k,
{
    if k <= 0 {
        CompileFold { cross: seq![], spans: seq![], blocks: seq![] }
    } else {
        let prev = compile_fold(ms, k - 1);
        let n = ms[k - 1].parts@.len() as int;
        let f = parts_fold(measure_start(prev.cross, prev.spans, n), ms[k - 1].parts@, n, (k - 1) as usize);
        CompileFold {
            cross: f.cross,
            spans: f.spans,
            blocks: prev.blocks.push((measure_rows(f, n), decorations_spec(ms[k - 1], k))),
        }
    }
}

/// Every measure can be compiled, and bar numbers fit in a `u32`.
pub open spec fn compilable(score: Score) -> bool {
    &&& score.measures@.len() <= u32::MAX
    &&& forall|i: int| 0 <= i < score.measures@.len() ==> compilable_measure(#[trigger] score.measures@[i])
}

/// Compiles a score into a block per measure, and the slur and tie arcs across them.
pub fn compile(score: &Score) -> (r: CompileResult)
    requires
        compilable(*score),
    ensures
        r.blocks@.map_values(|b: MeasureBlock| block_view(b)) == compile_fold(
            score.measures@,
            score.measures@.len() as int,
        ).blocks,
        r.slur_spans@ == compile_fold(score.measures@, score.measures@.len() as int).spans,
        r.blocks@.len() == score.measures@.len(),
        forall|i: int|
            0 <= i < r.blocks@.len() ==> decorations_match(
                block_view(#[trigger] r.blocks@[i]).1,
                score.measures@[i],
                i + 1,
            ),
        no_duplicate_spans(r.slur_spans@),
{
    let mut cross_states: Vec<PartCrossState> = Vec::new();
    let mut slur_spans: Vec<SlurSpan> = Vec::new();
    let mut blocks: Vec<MeasureBlock> = Vec::new();
    let mut i: usize = 0;
    while i < score.measures.len()
        invariant
            i <= score.measures@.len(),
            compilable(*score),
            ({
                let cf = compile_fold(score.measures@, i as int);
                &&& cross_views(cross_states@) == cf.cross
                &&& slur_spans@ == cf.spans
                &&& blocks@.map_values(|b: MeasureBlock| block_view(b)) == cf.blocks
            }),
        decreases score.measures@.len() - i,
    {
        let ghost before = blocks@.map_values(|b: MeasureBlock| block_view(b));
        proof {
            assert(compilable_measure(score.measures@[i as int]));
        }
        let block = compile_measure(&score.measures[i], i + 1, i, &mut cross_states, &mut slur_spans);
        blocks.push(block);
        proof {
            assert(blocks@.map_values(|b: MeasureBlock| block_view(b)) =~= before.push(block_view(block)));
        }
        i += 1;
    }
    proof {
        let ms = score.measures@;
        let n = ms.len() as int;
        compile_gives_block_per_measure(ms, n);
        compile_reports_each_arc_once(ms, n);
        assert(blocks@.len() == blocks@.map_values(|b: MeasureBlock| block_view(b)).len());
        assert forall|j: int| 0 <= j < blocks@.len() implies decorations_match(
            block_view(#[trigger] blocks@[j]).1,
            ms[j],
            j + 1,
        ) by {
            compile_decorations_match_directives(ms, n, j);
            assert(blocks@.map_values(|b: MeasureBlock| block_view(b))[j] == block_view(blocks@[j]));
        }
    }
    CompileResult { blocks, slur_spans }
}

/// No arc is listed twice.
pub open spec fn no_duplicate_spans(s: Seq<SlurSpan>) -> bool {
    forall|i: int, j: int| 0 <= i < j < s.len() ==> s[i] != s[j]
}

proof fn lemma_push_unique_keeps(s: Seq<SlurSpan>, x: SlurSpan)
    requires
        no_duplicate_spans(s),
    ensures
        no_duplicate_spans(push_unique(s, x)),
{
    if !s.contains(x) {
        let t = s.push(x);
        assert forall|i: int, j: int| 0 <= i < j < t.len() implies t[i] != t[j] by {
            if j == s.len() {
                assert(t[i] == s[i]);
                assert(s.contains(s[i]));
            }
        }
    }
}

proof fn lemma_close_groups_keeps(st: ChainState, from: int, to: int, col: u32, mi: usize, pi: usize)
    requires
        no_duplicate_spans(st.spans),
    ensures
        no_duplicate_spans(close_groups(st, from, to, col, mi, pi).spans),
    decreases to - from,
{
    if from < to {
        let st2 = slur_chains::close_group(st, from, col, mi, pi);
        match slur_chains::group_origin(st, from, mi) {
            Some(o) => lemma_push_unique_keeps(
                st.spans,
                SlurSpan {
                    part_index: pi,
                    from_measure: o.0,
                    from_column: o.1,
                    to_measure: mi,
                    to_column: col,
                },
            ),
            None => {},
        }
        lemma_close_groups_keeps(st2, from + 1, to, col, mi, pi);
    }
}

proof fn lemma_extend_keeps(st: ChainState, mem: u8, cont: u8, col: u32, key: SlurKey, mi: usize, pi: usize)
    requires
        no_duplicate_spans(st.spans),
    ensures
        no_duplicate_spans(extend_spec(st, mem, cont, col, key, mi, pi).spans),
{
    let joined = ChainState {
        chains: slur_chains::joined_chains(st.chains, mem as int, (col, key)),
        pending: st.pending,
        spans: st.spans,
    };
    lemma_close_groups_keeps(joined, cont as int, mem as int, col, mi, pi);
}

proof fn lemma_step_keeps_spans(
    m: SliceModel,
    e: NoteEvent,
    kind: PartKind,
    lyrics: Seq<Syllable>,
    mi: usize,
    pi: usize,
)
    requires
        no_duplicate_spans(m.chains.spans),
    ensures
        no_duplicate_spans(event_step(m, e, kind, lyrics, mi, pi).chains.spans),
        event_step(m, e, kind, lyrics, mi, pi).col == m.col + event_duration(e),
{
    match e {
        NoteEvent::Note(note) => {
            let col = m.col as u32;
            let key = SlurKey::Pitch(note.pitch);
            let m2c = m.chains;
            lemma_extend_keeps(m2c, note.group_membership, note.group_continuation, col, key, mi, pi);
            let c1 = extend_spec(m2c, note.group_membership, note.group_continuation, col, key, mi, pi);
            if note.slur_group_close_at_duration is Some && note.group_membership > 0 {
                lemma_extend_keeps(
                    c1,
                    note.group_membership,
                    0,
                    (col + note.slur_group_close_at_duration->0) as u32,
                    SlurKey::Rest,
                    mi,
                    pi,
                );
            }
            let c2 = if note.slur_group_close_at_duration is Some && note.group_membership > 0 {
                extend_spec(
                    c1,
                    note.group_membership,
                    0,
                    (col + note.slur_group_close_at_duration->0) as u32,
                    SlurKey::Rest,
                    mi,
                    pi,
                )
            } else {
                c1
            };
            if m.prev_tie_column is Some && m.prev_tie_measure is Some {
                lemma_push_unique_keeps(
                    c2.spans,
                    SlurSpan {
                        part_index: pi,
                        from_measure: m.prev_tie_measure->0,
                        from_column: m.prev_tie_column->0,
                        to_measure: mi,
                        to_column: col,
                    },
                );
            }
        },
        NoteEvent::Rest(rest) => {
            if rest.group_membership > 0 {
                lemma_extend_keeps(
                    m.chains,
                    rest.group_membership,
                    rest.group_continuation,
                    m.col as u32,
                    SlurKey::Rest,
                    mi,
                    pi,
                );
            }
        },
        NoteEvent::Chord(chord) => {
            lemma_extend_keeps(
                m.chains,
                chord.group_membership,
                chord.group_continuation,
                m.col as u32,
                chord_key(chord),
                mi,
                pi,
            );
        },
    }
}

proof fn lemma_fold_keeps(
    m0: SliceModel,
    events: Seq<NoteEvent>,
    n: int,
    kind: PartKind,
    lyrics: Seq<Syllable>,
    mi: usize,
    pi: usize,
)
    requires
        no_duplicate_spans(m0.chains.spans),
        0 <= n <= events.len(),
    ensures
        no_duplicate_spans(events_fold(m0, events, n, kind, lyrics, mi, pi).chains.spans),
        events_fold(m0, events, n, kind, lyrics, mi, pi).col == m0.col + sum_durations(
            events.take(n),
        ),
    decreases n,
{
    if n > 0 {
        lemma_fold_keeps(m0, events, n - 1, kind, lyrics, mi, pi);
        lemma_step_keeps_spans(
            events_fold(m0, events, n - 1, kind, lyrics, mi, pi),
            events[n - 1],
            kind,
            lyrics,
            mi,
            pi,
        );
        assert(events.take(n).drop_last() =~= events.take(n - 1));
    } else {
        assert(events.take(0).len() == 0);
    }
}

/// Law: a part's compiled measure ends with its bar line, at the column where the
/// measure's events end.
pub proof fn slice_ends_with_bar_line(
    s: PartSlice,
    c: CrossModel,
    spans: Seq<SlurSpan>,
    mi: usize,
    pi: usize,
)
    ensures
        slice_outcome(s, c, spans, mi, pi).0.last() == (
            sum_durations(s.notes.events@) as u32,
            ContentView::BarLine,
        ),
{
    lemma_fold_keeps_col(slice_start(c, spans), s.notes.events@, s.notes.events@.len() as int, s.kind, lyrics_of(s), mi, pi);
    assert(s.notes.events@.take(s.notes.events@.len() as int) =~= s.notes.events@);
}

proof fn lemma_fold_keeps_col(
    m0: SliceModel,
    events: Seq<NoteEvent>,
    n: int,
    kind: PartKind,
    lyrics: Seq<Syllable>,
    mi: usize,
    pi: usize,
)
    requires
        0 <= n <= events.len(),
    ensures
        events_fold(m0, events, n, kind, lyrics, mi, pi).col == m0.col + sum_durations(
            events.take(n),
        ),
    decreases n,
{
    if n > 0 {
        lemma_fold_keeps_col(m0, events, n - 1, kind, lyrics, mi, pi);
        let m = events_fold(m0, events, n - 1, kind, lyrics, mi, pi);
        let e = events[n - 1];
        assert(event_step(m, e, kind, lyrics, mi, pi).col == m.col + event_duration(e));
        assert(events.take(n).drop_last() =~= events.take(n - 1));
    } else {
        assert(events.take(0).len() == 0);
    }
}

proof fn lemma_parts_fold_keeps(f0: MeasureFold, parts: Seq<PartRow>, n: int, mi: usize)
    requires
        no_duplicate_spans(f0.spans),
        0 <= n <= parts.len(),
    ensures
        no_duplicate_spans(parts_fold(f0, parts, n, mi).spans),
    decreases n,
{
    if n > 0 {
        lemma_parts_fold_keeps(f0, parts, n - 1, mi);
        let f = parts_fold(f0, parts, n - 1, mi);
        let s = row_slice(parts[n - 1]);
        let c = f.cross[n - 1];
        let m0 = slice_start(c, f.spans);
        lemma_fold_keeps(m0, s.notes.events@, s.notes.events@.len() as int, s.kind, lyrics_of(s), mi, (n - 1) as usize);
    }
}

/// Law: compiling a score reports each slur or tie arc once.
pub proof fn compile_reports_each_arc_once(ms: Seq<MultiPartMeasure>, k: int)
    requires
        0 <= k <= ms.len(),
    ensures
        no_duplicate_spans(compile_fold(ms, k).spans),
    decreases k,
{
    if k > 0 {
        compile_reports_each_arc_once(ms, k - 1);
        let prev = compile_fold(ms, k - 1);
        let n = ms[k - 1].parts@.len() as int;
        lemma_parts_fold_keeps(measure_start(prev.cross, prev.spans, n), ms[k - 1].parts@, n, (k - 1) as usize);
    }
}

/// Law: compiling a score gives one block per measure.
pub proof fn compile_gives_block_per_measure(ms: Seq<MultiPartMeasure>, k: int)
    requires
        0 <= k,
    ensures
        compile_fold(ms, k).blocks.len() == k,
    decreases k,
{
    if k > 0 {
        compile_gives_block_per_measure(ms, k - 1);
    }
}

proof fn lemma_fold_block_stable(ms: Seq<MultiPartMeasure>, k: int, i: int)
    requires
        0 <= i < k,
    ensures
        compile_fold(ms, k).blocks[i] == (
            measure_rows(
                parts_fold(
                    measure_start(compile_fold(ms, i).cross, compile_fold(ms, i).spans, ms[i].parts@.len() as int),
                    ms[i].parts@,
                    ms[i].parts@.len() as int,
                    i as usize,
                ),
                ms[i].parts@.len() as int,
            ),
            decorations_spec(ms[i], i + 1),
        ),
    decreases k,
{
    compile_gives_block_per_measure(ms, k - 1);
    if i < k - 1 {
        lemma_fold_block_stable(ms, k - 1, i);
    }
}

proof fn lemma_contains3(a: Seq<DecorationView>, b: Seq<DecorationView>, c: Seq<DecorationView>, x: DecorationView)
    ensures
        (a + b + c).contains(x) <==> (a.contains(x) || b.contains(x) || c.contains(x)),
{
    let s = a + b + c;
    if s.contains(x) {
        let j = choose|j: int| 0 <= j < s.len() && s[j] == x;
        if j < a.len() {
            assert(a[j] == x);
        } else if j < a.len() + b.len() {
            assert(b[j - a.len()] == x);
        } else {
            assert(c[j - a.len() - b.len()] == x);
        }
    }
    if a.contains(x) {
        let j = choose|j: int| 0 <= j < a.len() && a[j] == x;
        assert(s[j] == x);
    }
    if b.contains(x) {
        let j = choose|j: int| 0 <= j < b.len() && b[j] == x;
        assert(s[a.len() + j] == x);
    }
    if c.contains(x) {
        let j = choose|j: int| 0 <= j < c.len() && c[j] == x;
        assert(s[a.len() + b.len() + j] == x);
    }
}

/// The decorations of a measure hold what its directives say, and nothing else.
pub open spec fn decorations_match(d: Seq<DecorationView>, m: MultiPartMeasure, bar_number: int) -> bool {
    &&& forall|b: u32| #[trigger] d.contains(DecorationView::Bpm(b)) <==> m.bpm == Some(b)
    &&& forall|n: u32, e: u32|
        #[trigger] d.contains(DecorationView::TimeSignature { numerator: n, denominator: e })
            <==> (m.time_signature matches Some(ts) && ts.numerator as u32 == n && ts.denominator as u32 == e)
    &&& forall|l: Seq<char>|
        #[trigger] d.contains(DecorationView::SectionLabel(l)) <==> (m.label matches Some(x) && x@ == l)
    &&& forall|n: u32|
        #[trigger] d.contains(DecorationView::BarNumber(n)) <==> (m.label is None && n == bar_number as u32)
}

proof fn lemma_decorations_match(m: MultiPartMeasure, bar_number: int)
    ensures
        decorations_match(decorations_spec(m, bar_number), m, bar_number),
{
    let a = match m.bpm {
        Some(b) => seq![DecorationView::Bpm(b)],
        None => Seq::<DecorationView>::empty(),
    };
    let t = match m.time_signature {
        Some(ts) => seq![
            DecorationView::TimeSignature {
                numerator: ts.numerator as u32,
                denominator: ts.denominator as u32,
            },
        ],
        None => Seq::<DecorationView>::empty(),
    };
    let c = match m.label {
        Some(l) => seq![DecorationView::SectionLabel(l@)],
        None => seq![DecorationView::BarNumber(bar_number as u32)],
    };
    let d = decorations_spec(m, bar_number);
    assert(d == a + t + c);
    assert forall|b: u32| #[trigger] d.contains(DecorationView::Bpm(b)) <==> m.bpm == Some(b) by {
        let x = DecorationView::Bpm(b);
        lemma_contains3(a, t, c, x);
        if m.bpm == Some(b) {
            assert(a[0] == x);
        }
    }
    assert forall|n: u32, e: u32|
        #[trigger] d.contains(DecorationView::TimeSignature { numerator: n, denominator: e })
            <==> (m.time_signature matches Some(ts) && ts.numerator as u32 == n && ts.denominator as u32 == e) by {
        let x = DecorationView::TimeSignature { numerator: n, denominator: e };
        lemma_contains3(a, t, c, x);
        if m.time_signature is Some {
            if t[0] == x {
                assert(t.contains(x));
            }
        }
    }
    assert forall|l: Seq<char>| #[trigger] d.contains(DecorationView::SectionLabel(l)) <==> (m.label matches Some(
        x,
    ) && x@ == l) by {
        let x = DecorationView::SectionLabel(l);
        lemma_contains3(a, t, c, x);
        if c[0] == x {
            assert(c.contains(x));
        }
    }
    assert forall|n: u32| #[trigger] d.contains(DecorationView::BarNumber(n)) <==> (m.label is None && n
        == bar_number as u32) by {
        let x = DecorationView::BarNumber(n);
        lemma_contains3(a, t, c, x);
        if c[0] == x {
            assert(c.contains(x));
        }
    }
}

/// Law: the decorations of each compiled block are the directives of its measure: a bpm
/// exactly when the measure sets that bpm, a time signature exactly when it sets that one,
/// a section label exactly when it has that label, and otherwise the measure's number
/// (counting from one) as its bar number.
pub proof fn compile_decorations_match_directives(ms: Seq<MultiPartMeasure>, k: int, i: int)
    requires
        0 <= i < k,
    ensures
        decorations_match(compile_fold(ms, k).blocks[i].1, ms[i], i + 1),
{
    lemma_fold_block_stable(ms, k, i);
    lemma_decorations_match(ms[i], i + 1);
}

} // verus!
