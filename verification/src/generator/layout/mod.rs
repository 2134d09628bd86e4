pub mod types;

use vstd::prelude::*;

use self::types::{
    content_view, element_view, elements_view, pages_view, ContentView, ElementView, GridContent, GridElement,
    GridPosition, HorizontalAlignment, Page, RowGroup, VerticalAlignment,
};
use crate::compositor::is_cjk_char;
use crate::generator::ast::grouped::{Measure, NoteEvent, Score};
use crate::generator::ast::parsed::Syllable;
use crate::generator::grouper::{duration_sum, event_duration};

verus! {

/// The columns a measure takes: one per quarter-beat of its notes and rests, and one
/// for the bar line after it.
pub fn measure_column_width(measure: &Measure) -> (w: u32)
    requires
        duration_sum(measure.notes@) + 1 <= u32::MAX,
    ensures
        w == duration_sum(measure.notes@) + 1,
{
    let mut total: u32 = 0;
    let mut i: usize = 0;
    while i < measure.notes.len()
        invariant
            i <= measure.notes@.len(),
            duration_sum(measure.notes@) + 1 <= u32::MAX,
            total == duration_sum(measure.notes@.take(i as int)),
        decreases measure.notes@.len() - i,
    {
        proof {
            assert(measure.notes@.take(i + 1).drop_last() == measure.notes@.take(i as int));
            lemma_prefix_sum_bound(measure.notes@, i + 1);
        }
        let d = match measure.notes[i] {
            NoteEvent::Note(note) => note.duration,
            NoteEvent::Rest(rest) => rest.duration,
        };
        total = total + d;
        i += 1;
    }
    proof {
        assert(measure.notes@.take(i as int) == measure.notes@);
    }
    total + 1
}

/// The durations of a prefix add up to no more than those of the whole run.
pub proof fn lemma_prefix_sum_bound(s: Seq<NoteEvent>, k: int)
    requires
        0 <= k <= s.len(),
    ensures
        0 <= duration_sum(s.take(k)) <= duration_sum(s),
    decreases s.len(),
{
    if k == s.len() {
        assert(s.take(k) == s);
        lemma_sum_nonneg(s);
    } else {
        assert(s.drop_last().take(k) == s.take(k));
        lemma_prefix_sum_bound(s.drop_last(), k);
    }
}

proof fn lemma_sum_nonneg(s: Seq<NoteEvent>)
    ensures
        duration_sum(s) >= 0,
    decreases s.len(),
{
    if s.len() > 0 {
        lemma_sum_nonneg(s.drop_last());
    }
}


/// The height of a row group: a row for octave dots above, the notes, underlines and
/// dots below, and the lyrics.
pub open spec fn row_group_height() -> u32 {
    4
}

/// Underlines under a note: two for a quarter-beat, one for a half-beat.
pub open spec fn underline_count(duration: u32) -> u32 {
    if duration == 1 {
        2
    } else if duration == 2 {
        1
    } else {
        0
    }
}

/// The syllable's text begins with a CJK ideograph.
pub open spec fn starts_cjk(t: Seq<char>) -> bool {
    t.len() > 0 && is_cjk_char(t[0])
}

/// The lyric under a note or rest at `col`, when syllable `li` is left.
pub open spec fn lyric_elements(col: int, row: int, lyrics: Seq<Syllable>, li: int) -> Seq<ElementView> {
    if 0 <= li < lyrics.len() {
        seq![
            (
                col,
                row + 3,
                HorizontalAlignment::Center,
                VerticalAlignment::Top,
                ContentView::Lyric { text: lyrics[li].text@, is_cjk: starts_cjk(lyrics[li].text@) },
            ),
        ]
    } else {
        seq![]
    }
}

/// The next syllable after a note or rest takes one.
pub open spec fn next_lyric(li: int, lyrics: Seq<Syllable>) -> int {
    if 0 <= li < lyrics.len() {
        li + 1
    } else {
        li
    }
}

/// The elements of a note or rest at `col` in the row group at `row`: its head (or rest
/// mark), the underlines of a short note, and the next syllable.
pub open spec fn event_elements(e: NoteEvent, col: int, row: int, lyrics: Seq<Syllable>, li: int) -> Seq<ElementView> {
    match e {
        NoteEvent::Note(n) => seq![
            (
                col,
                row + 1,
                HorizontalAlignment::Center,
                VerticalAlignment::Center,
                ContentView::NoteHead { pitch: n.pitch, octave: n.octave },
            ),
        ] + (if underline_count(n.duration) > 0 {
            seq![
                (
                    col,
                    row + 2,
                    HorizontalAlignment::Center,
                    VerticalAlignment::Top,
                    ContentView::DurationUnderlines { count: underline_count(n.duration) },
                ),
            ]
        } else {
            seq![]
        }) + lyric_elements(col, row, lyrics, li),
        NoteEvent::Rest(_) => seq![
            (col, row + 1, HorizontalAlignment::Center, VerticalAlignment::Center, ContentView::Rest),
        ] + lyric_elements(col, row, lyrics, li),
    }
}

/// The first `n` notes and rests of a measure from `col`: their elements, the column
/// after them, and the next syllable.
pub open spec fn body_upto(
    notes: Seq<NoteEvent>,
    n: int,
    col: int,
    row: int,
    lyrics: Seq<Syllable>,
    li: int,
) -> (Seq<ElementView>, int, int)
    decreases n,
{
    if n <= 0 {
        (seq![], col, li)
    } else {
        let p = body_upto(notes, n - 1, col, row, lyrics, li);
        (
            p.0 + event_elements(notes[n - 1], p.1, row, lyrics, p.2),
            p.1 + event_duration(notes[n - 1]),
            next_lyric(p.2, lyrics),
        )
    }
}

/// Laying out measures: the pages done, the row groups of the page being filled, the
/// elements of the row group being filled, its next column, its first row, and the next
/// syllable.
pub struct LayoutState {
    pub pages: Seq<Seq<(Seq<ElementView>, u32)>>,
    pub groups: Seq<(Seq<ElementView>, u32)>,
    pub elements: Seq<ElementView>,
    pub col: int,
    pub row: int,
    pub lyric: int,
}

/// The columns a measure takes, its bar line included.
pub open spec fn measure_width(m: Measure) -> int {
    duration_sum(m.notes@) + 1
}

/// Before a measure that does not fit in what is left of the line: the line is closed
/// and a new one starts below it; the page is closed when it holds `row_groups_per_page`
/// lines.
pub open spec fn break_line(st: LayoutState, row_groups_per_page: u32) -> LayoutState {
    let g1 = if st.elements.len() > 0 {
        st.groups.push((st.elements, row_group_height()))
    } else {
        st.groups
    };
    if g1.len() >= row_groups_per_page {
        LayoutState {
            pages: if g1.len() > 0 {
                st.pages.push(g1)
            } else {
                st.pages
            },
            groups: seq![],
            elements: seq![],
            col: 0,
            row: 0,
            lyric: st.lyric,
        }
    } else {
        LayoutState { groups: g1, elements: seq![], col: 0, row: st.row + row_group_height(), ..st }
    }
}

/// One measure: a new line when it does not fit, its notes and rests, then its bar line.
#[verifier::opaque]
pub open spec fn measure_step(
    st: LayoutState,
    m: Measure,
    columns_per_page: u32,
    row_groups_per_page: u32,
    lyrics: Seq<Syllable>,
) -> LayoutState {
    let s1 = if st.col + measure_width(m) > columns_per_page {
        break_line(st, row_groups_per_page)
    } else {
        st
    };
    let b = body_upto(m.notes@, m.notes@.len() as int, s1.col, s1.row, lyrics, s1.lyric);
    LayoutState {
        elements: s1.elements + b.0 + seq![
            (b.1, s1.row + 1, HorizontalAlignment::Left, VerticalAlignment::Center, ContentView::BarLine),
        ],
        col: b.1 + 1,
        lyric: b.2,
        ..s1
    }
}

pub open spec fn layout_upto(
    ms: Seq<Measure>,
    k: int,
    columns_per_page: u32,
    row_groups_per_page: u32,
    lyrics: Seq<Syllable>,
) -> LayoutState
    decreases k,
{
    if k <= 0 {
        LayoutState { pages: seq![], groups: seq![], elements: seq![], col: 0, row: 0, lyric: 0 }
    } else {
        measure_step(
            layout_upto(ms, k - 1, columns_per_page, row_groups_per_page, lyrics),
            ms[k - 1],
            columns_per_page,
            row_groups_per_page,
            lyrics,
        )
    }
}

/// The pages of a score: the measures laid out in lines of `columns_per_page` columns,
/// `row_groups_per_page` lines to a page; the last line and page closed; one empty page
/// for a score with nothing to show.
pub open spec fn grid_pages(
    ms: Seq<Measure>,
    lyrics: Seq<Syllable>,
    columns_per_page: u32,
    row_groups_per_page: u32,
) -> Seq<Seq<(Seq<ElementView>, u32)>> {
    close_pages(layout_upto(ms, ms.len() as int, columns_per_page, row_groups_per_page, lyrics))
}

/// The pages once the last line and page are closed; one empty page when there is none.
pub open spec fn close_pages(st: LayoutState) -> Seq<Seq<(Seq<ElementView>, u32)>> {
    let g = if st.elements.len() > 0 {
        st.groups.push((st.elements, row_group_height()))
    } else {
        st.groups
    };
    let p = if g.len() > 0 {
        st.pages.push(g)
    } else {
        st.pages
    };
    if p.len() == 0 {
        seq![seq![]]
    } else {
        p
    }
}

/// A score whose columns and rows can be counted in `u32`: a measure's width added to
/// the line width or to the width of the measure before it fits, and so does the row
/// of the last line a page can hold.
pub open spec fn layable(ms: Seq<Measure>, columns_per_page: u32, row_groups_per_page: u32) -> bool {
    &&& 4 * row_groups_per_page + 8 <= u32::MAX
    &&& forall|i: int|
        0 <= i < ms.len() ==> measure_width(#[trigger] ms[i]) + columns_per_page <= u32::MAX && (i > 0
            ==> measure_width(ms[i - 1]) + measure_width(ms[i]) <= u32::MAX)
}

fn starts_with_cjk(t: &String) -> (b: bool)
    ensures
        b == starts_cjk(t@),
{
    let s = t.as_str();
    if s.unicode_len() == 0 {
        false
    } else {
        let c = s.get_char(0);
        let code = c as u32;
        0x4E00 <= code && code <= 0x9FFF
    }
}

fn push_element(out: &mut Vec<GridElement>, e: GridElement)
    ensures
        elements_view(final(out)@) == elements_view(old(out)@).push(element_view(e)),
{
    let ghost before = out@;
    out.push(e);
    proof {
        assert(elements_view(out@) =~= elements_view(before).push(element_view(e)));
    }
}

/// Puts the next syllable, if any is left, under the note or rest at `col`.
fn push_lyric(out: &mut Vec<GridElement>, col: u32, row: u32, lyrics: &[Syllable], li: usize) -> (next: usize)
    requires
        row + 3 <= u32::MAX,
        li <= lyrics@.len(),
    ensures
        elements_view(final(out)@) == elements_view(old(out)@) + lyric_elements(col as int, row as int, lyrics@, li as int),
        next == next_lyric(li as int, lyrics@),
        next <= lyrics@.len(),
{
    if li < lyrics.len() {
        let syllable = &lyrics[li];
        let is_cjk = starts_with_cjk(&syllable.text);
        push_element(
            out,
            GridElement {
                position: GridPosition { column: col, row: row + 3 },
                horizontal_alignment: HorizontalAlignment::Center,
                vertical_alignment: VerticalAlignment::Top,
                content: GridContent::Lyric { text: syllable.text.clone(), is_cjk },
            },
        );
        li + 1
    } else {
        proof {
            assert(elements_view(out@) + lyric_elements(col as int, row as int, lyrics@, li as int) =~= elements_view(out@));
        }
        li
    }
}

/// Puts a note or rest at `col`: its head or rest mark, a short note's underlines, and
/// the next syllable.
fn push_event(out: &mut Vec<GridElement>, e: NoteEvent, col: u32, row: u32, lyrics: &[Syllable], li: usize) -> (next: usize)
    requires
        row + 3 <= u32::MAX,
        li <= lyrics@.len(),
    ensures
        elements_view(final(out)@) == elements_view(old(out)@) + event_elements(e, col as int, row as int, lyrics@, li as int),
        next == next_lyric(li as int, lyrics@),
        next <= lyrics@.len(),
{
    let ghost before = elements_view(out@);
    match e {
        NoteEvent::Note(note) => {
            push_element(
                out,
                GridElement {
                    position: GridPosition { column: col, row: row + 1 },
                    horizontal_alignment: HorizontalAlignment::Center,
                    vertical_alignment: VerticalAlignment::Center,
                    content: GridContent::NoteHead { pitch: note.pitch, octave: note.octave },
                },
            );
            let ghost after_head = elements_view(out@);
            let count: u32 = if note.duration == 1 {
                2
            } else if note.duration == 2 {
                1
            } else {
                0
            };
            if count > 0 {
                push_element(
                    out,
                    GridElement {
                        position: GridPosition { column: col, row: row + 2 },
                        horizontal_alignment: HorizontalAlignment::Center,
                        vertical_alignment: VerticalAlignment::Top,
                        content: GridContent::DurationUnderlines { count },
                    },
                );
            }
            let ghost after_lines = elements_view(out@);
            let next = push_lyric(out, col, row, lyrics, li);
            proof {
                let head = seq![
                    (
                        col as int,
                        row + 1,
                        HorizontalAlignment::Center,
                        VerticalAlignment::Center,
                        ContentView::NoteHead { pitch: note.pitch, octave: note.octave },
                    ),
                ];
                let lines = if underline_count(note.duration) > 0 {
                    seq![
                        (
                            col as int,
                            row + 2,
                            HorizontalAlignment::Center,
                            VerticalAlignment::Top,
                            ContentView::DurationUnderlines { count: underline_count(note.duration) },
                        ),
                    ]
                } else {
                    Seq::<ElementView>::empty()
                };
                assert(after_head =~= before + head);
                assert(after_lines =~= before + head + lines);
                assert(elements_view(out@) =~= before + (head + lines + lyric_elements(col as int, row as int, lyrics@, li as int)));
            }
            next
        },
        NoteEvent::Rest(_) => {
            push_element(
                out,
                GridElement {
                    position: GridPosition { column: col, row: row + 1 },
                    horizontal_alignment: HorizontalAlignment::Center,
                    vertical_alignment: VerticalAlignment::Center,
                    content: GridContent::Rest,
                },
            );
            let ghost after_head = elements_view(out@);
            let next = push_lyric(out, col, row, lyrics, li);
            proof {
                let head = seq![
                    (col as int, row + 1, HorizontalAlignment::Center, VerticalAlignment::Center, ContentView::Rest),
                ];
                assert(after_head =~= before + head);
                assert(elements_view(out@) =~= before + (head + lyric_elements(col as int, row as int, lyrics@, li as int)));
            }
            next
        },
    }
}

/// Puts a measure's notes and rests from `col` on; gives the column after them and the
/// next syllable.
fn push_measure_body(
    out: &mut Vec<GridElement>,
    measure: &Measure,
    col: u32,
    row: u32,
    lyrics: &[Syllable],
    li: usize,
) -> (r: (u32, usize))
    requires
        row + 3 <= u32::MAX,
        li <= lyrics@.len(),
        col + measure_width(*measure) <= u32::MAX,
    ensures
        ({
            let b = body_upto(measure.notes@, measure.notes@.len() as int, col as int, row as int, lyrics@, li as int);
            &&& elements_view(final(out)@) == elements_view(old(out)@) + b.0
            &&& r.0 == b.1
            &&& r.0 == col + duration_sum(measure.notes@)
            &&& r.1 == b.2
            &&& r.1 <= lyrics@.len()
        }),
{
    let ghost notes = measure.notes@;
    let ghost start = elements_view(out@);
    let mut c = col;
    let mut l = li;
    let mut i: usize = 0;
    while i < measure.notes.len()
        invariant
            notes == measure.notes@,
            i <= notes.len(),
            row + 3 <= u32::MAX,
            col + duration_sum(notes) + 1 <= u32::MAX,
            l <= lyrics@.len(),
            c == col + duration_sum(notes.take(i as int)),
            elements_view(out@) == start + body_upto(notes, i as int, col as int, row as int, lyrics@, li as int).0,
            c == body_upto(notes, i as int, col as int, row as int, lyrics@, li as int).1,
            l == body_upto(notes, i as int, col as int, row as int, lyrics@, li as int).2,
        decreases notes.len() - i,
    {
        let e = measure.notes[i];
        proof {
            assert(notes.take(i + 1).drop_last() =~= notes.take(i as int));
            lemma_prefix_sum_bound(notes, i + 1);
        }
        let ghost before = elements_view(out@);
        let next = push_event(out, e, c, row, lyrics, l);
        let d = match e {
            NoteEvent::Note(n) => n.duration,
            NoteEvent::Rest(r) => r.duration,
        };
        proof {
            assert(elements_view(out@) =~= start + body_upto(notes, i + 1, col as int, row as int, lyrics@, li as int).0);
        }
        c = c + d;
        l = next;
        i += 1;
    }
    proof {
        assert(notes.take(i as int) =~= notes);
    }
    (c, l)
}

/// The state of the layout as plain values.
pub open spec fn state_of(
    pages: Seq<Page>,
    groups: Seq<RowGroup>,
    elements: Seq<GridElement>,
    col: u32,
    row: u32,
    li: usize,
) -> LayoutState {
    LayoutState {
        pages: pages_view(pages),
        groups: groups.map_values(|g: RowGroup| types::row_group_view(g)),
        elements: elements_view(elements),
        col: col as int,
        row: row as int,
        lyric: li as int,
    }
}

/// Closes the line before a measure that does not fit; see `break_line`.
fn break_line_exec(
    pages: &mut Vec<Page>,
    groups: &mut Vec<RowGroup>,
    elements: &mut Vec<GridElement>,
    row: u32,
    li: usize,
    row_groups_per_page: u32,
) -> (new_row: u32)
    requires
        row <= 4 * old(groups)@.len() + 4,
        old(groups)@.len() <= row_groups_per_page,
        4 * row_groups_per_page + 8 <= u32::MAX,
        old(elements)@.len() == 0 ==> row == 0 && old(groups)@.len() == 0,
    ensures
        state_of(final(pages)@, final(groups)@, final(elements)@, 0, new_row, li) == break_line(
            state_of(old(pages)@, old(groups)@, old(elements)@, 0, row, li),
            row_groups_per_page,
        ),
        final(elements)@.len() == 0,
        new_row <= 4 * final(groups)@.len() + 4,
        final(groups)@.len() <= row_groups_per_page,
        final(groups)@.len() < row_groups_per_page || final(groups)@.len() == 0,
{
    let ghost st = state_of(pages@, groups@, elements@, 0, row, li);
    let ghost g1 = if st.elements.len() > 0 {
        st.groups.push((st.elements, row_group_height()))
    } else {
        st.groups
    };
    if elements.len() > 0 {
        let ghost gb = groups@;
        let mut taken: Vec<GridElement> = Vec::new();
        std::mem::swap(&mut taken, elements);
        groups.push(RowGroup { elements: taken, height_in_rows: 4 });
        proof {
            assert(groups@.map_values(|g: RowGroup| types::row_group_view(g)) =~= gb.map_values(
                |g: RowGroup| types::row_group_view(g),
            ).push((st.elements, row_group_height())));
        }
    }
    assert(groups@.map_values(|g: RowGroup| types::row_group_view(g)) == g1);
    assert(elements_view(elements@) =~= Seq::<ElementView>::empty());
    let mut new_row = row + 4;
    if groups.len() >= row_groups_per_page as usize {
        if groups.len() > 0 {
            let ghost pb = pages@;
            let mut taken: Vec<RowGroup> = Vec::new();
            std::mem::swap(&mut taken, groups);
            pages.push(Page { row_groups: taken });
            proof {
                assert(pages_view(pages@) =~= pages_view(pb).push(g1));
            }
        }
        assert(groups@.map_values(|g: RowGroup| types::row_group_view(g)) =~= Seq::<(Seq<ElementView>, u32)>::empty());
        new_row = 0;
    }
    new_row
}

/// Lays out one measure; see `measure_step`.
fn layout_measure(
    pages: &mut Vec<Page>,
    groups: &mut Vec<RowGroup>,
    elements: &mut Vec<GridElement>,
    col: u32,
    row: u32,
    li: usize,
    measure: &Measure,
    lyrics: &[Syllable],
    columns_per_page: u32,
    row_groups_per_page: u32,
) -> (r: (u32, u32, usize))
    requires
        4 * row_groups_per_page + 8 <= u32::MAX,
        col + measure_width(*measure) <= u32::MAX,
        measure_width(*measure) + columns_per_page <= u32::MAX,
        row <= 4 * old(groups)@.len() + 4,
        old(groups)@.len() <= row_groups_per_page,
        old(elements)@.len() == 0 ==> row == 0 && old(groups)@.len() == 0,
        li <= lyrics@.len(),
    ensures
        state_of(final(pages)@, final(groups)@, final(elements)@, r.0, r.1, r.2) == measure_step(
            state_of(old(pages)@, old(groups)@, old(elements)@, col, row, li),
            *measure,
            columns_per_page,
            row_groups_per_page,
            lyrics@,
        ),
        r.0 <= columns_per_page || r.0 <= measure_width(*measure),
        r.1 <= 4 * final(groups)@.len() + 4,
        final(groups)@.len() <= row_groups_per_page,
        final(elements)@.len() > 0,
        r.2 <= lyrics@.len(),
{
    reveal(measure_step);
    let ghost st = state_of(pages@, groups@, elements@, col, row, li);
    proof {
        lemma_prefix_sum_bound(measure.notes@, 0);
    }
    let width = measure_column_width(measure);
    let mut c = col;
    let mut rw = row;
    if col + width > columns_per_page {
        rw = break_line_exec(pages, groups, elements, row, li, row_groups_per_page);
        c = 0;
    }
    let ghost s1 = state_of(pages@, groups@, elements@, c, rw, li);
    assert(s1 == (if st.col + measure_width(*measure) > columns_per_page {
        break_line(st, row_groups_per_page)
    } else {
        st
    }));
    let (end, next) = push_measure_body(elements, measure, c, rw, lyrics, li);
    let ghost before_bar = elements_view(elements@);
    push_element(
        elements,
        GridElement {
            position: GridPosition { column: end, row: rw + 1 },
            horizontal_alignment: HorizontalAlignment::Left,
            vertical_alignment: VerticalAlignment::Center,
            content: GridContent::BarLine,
        },
    );
    let ghost b = body_upto(measure.notes@, measure.notes@.len() as int, s1.col, s1.row, lyrics@, s1.lyric);
    assert(elements_view(elements@) =~= s1.elements + b.0 + seq![
        (b.1, s1.row + 1, HorizontalAlignment::Left, VerticalAlignment::Center, ContentView::BarLine),
    ]);
    (end + 1, rw, next)
}

/// Lays the score out on pages of `row_groups_per_page` lines of `columns_per_page`
/// columns: each note or rest takes a column per quarter-beat and a bar line follows each
/// measure; a measure that does not fit in what is left of a line starts the next one.
/// See `grid_pages`.
pub fn layout(score: &Score, columns_per_page: u32, row_groups_per_page: u32) -> (pages: Vec<Page>)
    requires
        layable(score.measures@, columns_per_page, row_groups_per_page),
    ensures
        pages_view(pages@) == grid_pages(score.measures@, score.lyrics@, columns_per_page, row_groups_per_page),
{
    let ghost ms = score.measures@;
    let ghost lyrics = score.lyrics@;
    let mut pages: Vec<Page> = Vec::new();
    let mut groups: Vec<RowGroup> = Vec::new();
    let mut elements: Vec<GridElement> = Vec::new();
    let mut col: u32 = 0;
    let mut row: u32 = 0;
    let mut li: usize = 0;
    let mut k: usize = 0;
    proof {
        let z = state_of(pages@, groups@, elements@, col, row, li);
        assert(z.pages =~= Seq::<Seq<(Seq<ElementView>, u32)>>::empty());
        assert(z.groups =~= Seq::<(Seq<ElementView>, u32)>::empty());
        assert(z.elements =~= Seq::<ElementView>::empty());
    }
    while k < score.measures.len()
        invariant
            ms == score.measures@,
            lyrics == score.lyrics@,
            layable(ms, columns_per_page, row_groups_per_page),
            k <= ms.len(),
            state_of(pages@, groups@, elements@, col, row, li) == layout_upto(
                ms,
                k as int,
                columns_per_page,
                row_groups_per_page,
                lyrics,
            ),
            k == 0 ==> col == 0,
            k > 0 ==> col <= columns_per_page || col <= measure_width(ms[k - 1]),
            row <= 4 * groups@.len() + 4,
            groups@.len() <= row_groups_per_page,
            elements@.len() == 0 ==> k == 0,
            k == 0 ==> row == 0 && groups@.len() == 0,
            li <= lyrics.len(),
        decreases ms.len() - k,
    {
        proof {
            assert(measure_width(ms[k as int]) + columns_per_page <= u32::MAX);
            if k > 0 {
                assert(measure_width(ms[k - 1]) + measure_width(ms[k as int]) <= u32::MAX);
            }
        }
        let r = layout_measure(
            &mut pages,
            &mut groups,
            &mut elements,
            col,
            row,
            li,
            &score.measures[k],
            score.lyrics.as_slice(),
            columns_per_page,
            row_groups_per_page,
        );
        col = r.0;
        row = r.1;
        li = r.2;
        k += 1;
    }
    finish_pages(pages, groups, elements, col, row, li)
}

/// Closes the last line and page; see `close_pages`.
fn finish_pages(
    pages: Vec<Page>,
    groups: Vec<RowGroup>,
    elements: Vec<GridElement>,
    col: u32,
    row: u32,
    li: usize,
) -> (r: Vec<Page>)
    ensures
        pages_view(r@) == close_pages(state_of(pages@, groups@, elements@, col, row, li)),
{
    let ghost st = state_of(pages@, groups@, elements@, col, row, li);
    let mut pages = pages;
    let mut groups = groups;
    if elements.len() > 0 {
        let ghost gb = groups@;
        groups.push(RowGroup { elements, height_in_rows: 4 });
        proof {
            assert(groups@.map_values(|g: RowGroup| types::row_group_view(g)) =~= gb.map_values(
                |g: RowGroup| types::row_group_view(g),
            ).push((st.elements, row_group_height())));
        }
    }
    if groups.len() > 0 {
        let ghost pb = pages@;
        let ghost gv = groups@.map_values(|g: RowGroup| types::row_group_view(g));
        pages.push(Page { row_groups: groups });
        proof {
            assert(pages_view(pages@) =~= pages_view(pb).push(gv));
        }
    }
    if pages.len() == 0 {
        let empty: Vec<RowGroup> = Vec::new();
        proof {
            assert(empty@.map_values(|g: RowGroup| types::row_group_view(g)) =~= Seq::<(Seq<ElementView>, u32)>::empty());
        }
        pages.push(Page { row_groups: empty });
        proof {
            assert(pages_view(pages@) =~= seq![Seq::<(Seq<ElementView>, u32)>::empty()]);
        }
    }
    pages
}


} // verus!
