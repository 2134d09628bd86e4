use vstd::prelude::*;

use crate::compiler::types::{
    block_view, content_view, decoration_view, element_view, ColumnElement, Decoration,
    ElementContent, MeasureBlock, MeasureRow, RowId,
};
use crate::render_config::RenderConfig;

verus! {

// ── Row classification ──────────────────────────────────────────────────────

/// The row holds a lyric syllable.
pub open spec fn has_lyric_element(row: MeasureRow) -> bool {
    exists|i: int| 0 <= i < row.elements@.len() && (#[trigger] row.elements@[i]).content is Lyric
}

/// The row holds a note head or a rest.
pub open spec fn has_note_element(row: MeasureRow) -> bool {
    exists|i: int|
        0 <= i < row.elements@.len() && ((#[trigger] row.elements@[i]).content is NoteHead
            || row.elements@[i].content is Rest)
}

/// The row holds a chord symbol.
pub open spec fn has_chord_element(row: MeasureRow) -> bool {
    exists|i: int| 0 <= i < row.elements@.len() && (#[trigger] row.elements@[i]).content is ChordSymbol
}

fn any_lyric(row: &MeasureRow) -> (b: bool)
    ensures
        b == has_lyric_element(*row),
{
    let mut i: usize = 0;
    while i < row.elements.len()
        invariant
            i <= row.elements@.len(),
            forall|k: int| 0 <= k < i ==> !((#[trigger] row.elements@[k]).content is Lyric),
        decreases row.elements@.len() - i,
    {
        if let ElementContent::Lyric(_) = &row.elements[i].content {
            return true;
        }
        i += 1;
    }
    false
}

fn any_note(row: &MeasureRow) -> (b: bool)
    ensures
        b == has_note_element(*row),
{
    let mut i: usize = 0;
    while i < row.elements.len()
        invariant
            i <= row.elements@.len(),
            forall|k: int|
                0 <= k < i ==> !((#[trigger] row.elements@[k]).content is NoteHead
                    || row.elements@[k].content is Rest),
        decreases row.elements@.len() - i,
    {
        match &row.elements[i].content {
            ElementContent::NoteHead { .. } => {
                return true;
            },
            ElementContent::Rest { .. } => {
                return true;
            },
            _ => {},
        }
        i += 1;
    }
    false
}

fn any_chord(row: &MeasureRow) -> (b: bool)
    ensures
        b == has_chord_element(*row),
{
    let mut i: usize = 0;
    while i < row.elements.len()
        invariant
            i <= row.elements@.len(),
            forall|k: int| 0 <= k < i ==> !((#[trigger] row.elements@[k]).content is ChordSymbol),
        decreases row.elements@.len() - i,
    {
        if let ElementContent::ChordSymbol(_) = &row.elements[i].content {
            return true;
        }
        i += 1;
    }
    false
}

/// A lyric row holds syllables and no note or rest.
pub fn is_lyric_row(row: &MeasureRow) -> (b: bool)
    ensures
        b == (has_lyric_element(*row) && !has_note_element(*row)),
{
    let has_lyric = any_lyric(row);
    let has_note = any_note(row);
    has_lyric && !has_note
}

/// The row holds at least one lyric syllable.
pub fn has_lyrics(row: &MeasureRow) -> (b: bool)
    ensures
        b == has_lyric_element(*row),
{
    any_lyric(row)
}

/// A chord-only row holds chord symbols and neither notes, rests nor syllables.
pub fn is_chord_only_row(row: &MeasureRow) -> (b: bool)
    ensures
        b == (!has_lyric_element(*row) && !has_note_element(*row) && has_chord_element(*row)),
{
    if is_lyric_row(row) {
        return false;
    }
    let has_note = any_note(row);
    !has_note && any_chord(row)
}

// ── Column width ────────────────────────────────────────────────────────────

/// The column of the first bar line among `elems`.
pub open spec fn first_bar_column(elems: Seq<ColumnElement>) -> Option<u32>
    decreases elems.len(),
{
    if elems.len() == 0 {
        None
    } else if elems[0].content is BarLine {
        Some(elems[0].column)
    } else {
        first_bar_column(elems.drop_first())
    }
}

/// The columns a block takes: one past the first bar line of its first row, or one.
pub open spec fn block_width(block: MeasureBlock) -> int {
    if block.rows@.len() == 0 {
        1
    } else {
        match first_bar_column(block.rows@[0].elements@) {
            Some(c) => c + 1,
            None => 1,
        }
    }
}

/// Number of columns in a MeasureBlock (BarLine column + 1).
pub fn block_column_width(block: &MeasureBlock) -> (w: u32)
    requires
        block_width(*block) <= u32::MAX,
    ensures
        w == block_width(*block),
{
    if block.rows.len() == 0 {
        return 1;
    }
    let row = &block.rows[0];
    let mut i: usize = 0;
    proof {
        assert(row.elements@.skip(0) == row.elements@);
    }
    while i < row.elements.len()
        invariant
            i <= row.elements@.len(),
            block.rows@.len() > 0,
            *row == block.rows@[0],
            block_width(*block) <= u32::MAX,
            first_bar_column(row.elements@) == first_bar_column(row.elements@.skip(i as int)),
        decreases row.elements@.len() - i,
    {
        proof {
            assert(row.elements@.skip(i as int).drop_first() == row.elements@.skip(i + 1));
        }
        if let ElementContent::BarLine = &row.elements[i].content {
            return row.elements[i].column + 1;
        }
        i += 1;
    }
    1
}

// ── Systems ─────────────────────────────────────────────────────────────────

/// The ids of a block's rows, in order.
pub open spec fn row_ids(block: MeasureBlock) -> Seq<Seq<char>> {
    Seq::new(block.rows@.len(), |i: int| block.rows@[i].id.0@)
}

fn same_row_ids(a: &MeasureBlock, b: &MeasureBlock) -> (r: bool)
    ensures
        r == (row_ids(*a) == row_ids(*b)),
{
    if a.rows.len() != b.rows.len() {
        proof {
            assert(row_ids(*a).len() != row_ids(*b).len());
        }
        return false;
    }
    let mut i: usize = 0;
    while i < a.rows.len()
        invariant
            i <= a.rows@.len() == b.rows@.len(),
            forall|k: int| 0 <= k < i ==> row_ids(*a)[k] == row_ids(*b)[k],
        decreases a.rows@.len() - i,
    {
        if a.rows[i].id.0 != b.rows[i].id.0 {
            proof {
                assert(row_ids(*a)[i as int] != row_ids(*b)[i as int]);
            }
            return false;
        }
        i += 1;
    }
    proof {
        assert(row_ids(*a) == row_ids(*b));
    }
    true
}

/// A block as plain values.
pub type BlockView = (
    Seq<(Seq<char>, Seq<char>, Seq<(u32, crate::compiler::types::ContentView)>)>,
    Seq<crate::compiler::types::DecorationView>,
);

/// Systems being packed: those closed, the open one (its blocks, the row ids of its
/// first block) and the columns it takes.
pub struct PackState {
    pub systems: Seq<Seq<MeasureBlock>>,
    pub current: Seq<MeasureBlock>,
    pub cols: int,
}

/// Packing the first `n` blocks: a block opens a new system when the open one would
/// then exceed `max_columns`, or when its rows differ from those of the open system's
/// first block.
pub open spec fn pack_upto(blocks: Seq<MeasureBlock>, max_columns: u32, n: int) -> PackState
    decreases n,
{
    if n <= 0 {
        PackState { systems: seq![], current: seq![], cols: 0 }
    } else {
        let st = pack_upto(blocks, max_columns, n - 1);
        let b = blocks[n - 1];
        let w = block_width(b);
        let needs_new = st.current.len() > 0 && (st.cols + w > max_columns || row_ids(b)
            != row_ids(st.current[0]));
        if needs_new {
            PackState { systems: st.systems.push(st.current), current: seq![b], cols: w }
        } else {
            PackState { systems: st.systems, current: st.current.push(b), cols: st.cols + w }
        }
    }
}

/// The systems that the blocks are packed into.
pub open spec fn packed(blocks: Seq<MeasureBlock>, max_columns: u32) -> Seq<Seq<MeasureBlock>> {
    let st = pack_upto(blocks, max_columns, blocks.len() as int);
    if st.current.len() > 0 {
        st.systems.push(st.current)
    } else {
        st.systems
    }
}

/// The plain values of packed systems.
pub open spec fn systems_view(s: Seq<Seq<MeasureBlock>>) -> Seq<Seq<BlockView>> {
    Seq::new(s.len(), |i: int| Seq::new(s[i].len(), |j: int| block_view(s[i][j])))
}

/// Blocks whose columns can be counted in a `u32`: each block's width fits, and so does
/// the open system's width plus the width of the block that is weighed against it.
pub open spec fn packable(blocks: Seq<MeasureBlock>, max_columns: u32) -> bool {
    forall|i: int|
        0 <= i < blocks.len() ==> block_width(#[trigger] blocks[i]) <= u32::MAX && (pack_upto(
            blocks,
            max_columns,
            i,
        ).current.len() > 0 ==> pack_upto(blocks, max_columns, i).cols + block_width(blocks[i])
            <= u32::MAX)
}

/// The blocks of a run of systems, in order.
pub open spec fn flatten(s: Seq<Seq<MeasureBlock>>) -> Seq<MeasureBlock>
    decreases s.len(),
{
    if s.len() == 0 {
        seq![]
    } else {
        flatten(s.drop_last()) + s.last()
    }
}

/// A system holds at least one block, and all its blocks have the rows of its first.
pub open spec fn uniform_system(sys: Seq<MeasureBlock>) -> bool {
    &&& sys.len() > 0
    &&& forall|j: int| 0 <= j < sys.len() ==> row_ids(#[trigger] sys[j]) == row_ids(sys[0])
}

proof fn lemma_pack_upto(blocks: Seq<MeasureBlock>, max_columns: u32, n: int)
    requires
        0 <= n <= blocks.len(),
    ensures
        flatten(pack_upto(blocks, max_columns, n).systems) + pack_upto(blocks, max_columns, n).current
            == blocks.take(n),
        forall|k: int|
            0 <= k < pack_upto(blocks, max_columns, n).systems.len() ==> uniform_system(
                #[trigger] pack_upto(blocks, max_columns, n).systems[k],
            ),
        n > 0 ==> uniform_system(pack_upto(blocks, max_columns, n).current),
    decreases n,
{
    if n > 0 {
        lemma_pack_upto(blocks, max_columns, n - 1);
        let st = pack_upto(blocks, max_columns, n - 1);
        let nx = pack_upto(blocks, max_columns, n);
        assert(blocks.take(n) == blocks.take(n - 1).push(blocks[n - 1]));
        if nx.systems.len() > st.systems.len() {
            assert(nx.systems.drop_last() == st.systems);
            assert(flatten(nx.systems) == flatten(st.systems) + st.current);
            assert(flatten(nx.systems) + nx.current == (flatten(st.systems) + st.current).push(
                blocks[n - 1],
            ));
            assert forall|k: int| 0 <= k < nx.systems.len() implies uniform_system(
                #[trigger] nx.systems[k],
            ) by {
                if k < st.systems.len() {
                    assert(nx.systems[k] == st.systems[k]);
                }
            }
        } else {
            assert(flatten(nx.systems) + nx.current == (flatten(st.systems) + st.current).push(
                blocks[n - 1],
            ));
            if n == 1 {
                assert(nx.current == seq![blocks[0]]);
            }
        }
    }
}

/// The columns of a run of blocks.
pub open spec fn sys_width(s: Seq<MeasureBlock>) -> int
    decreases s.len(),
{
    if s.len() == 0 {
        0
    } else {
        sys_width(s.drop_last()) + block_width(s.last())
    }
}

/// A system fits: it is a single block, or its columns stay within `max_columns`.
pub open spec fn fits_system(s: Seq<MeasureBlock>, max_columns: u32) -> bool {
    s.len() == 1 || sys_width(s) <= max_columns
}

/// System `b` had to start after system `a`: its first block has other rows than `a`'s
/// first, or adding it would take `a` past `max_columns`.
pub open spec fn must_break(a: Seq<MeasureBlock>, b: Seq<MeasureBlock>, max_columns: u32) -> bool {
    row_ids(b[0]) != row_ids(a[0]) || sys_width(a) + block_width(b[0]) > max_columns
}

proof fn lemma_pack_rules(blocks: Seq<MeasureBlock>, max_columns: u32, n: int)
    requires
        0 <= n <= blocks.len(),
    ensures
        ({
            let st = pack_upto(blocks, max_columns, n);
            &&& st.cols == sys_width(st.current)
            &&& (n > 0 <==> st.current.len() > 0)
            &&& st.current.len() > 0 ==> fits_system(st.current, max_columns)
            &&& forall|k: int| 0 <= k < st.systems.len() ==> fits_system(#[trigger] st.systems[k], max_columns)
            &&& forall|k: int|
                0 <= k < st.systems.len() ==> (#[trigger] st.systems[k]).len() > 0
            &&& forall|k: int|
                0 <= k < st.systems.len() - 1 ==> must_break(
                    #[trigger] st.systems[k],
                    st.systems[k + 1],
                    max_columns,
                )
            &&& st.systems.len() > 0 && st.current.len() > 0 ==> must_break(
                st.systems.last(),
                st.current,
                max_columns,
            )
        }),
    decreases n,
{
    if n > 0 {
        lemma_pack_rules(blocks, max_columns, n - 1);
        let st = pack_upto(blocks, max_columns, n - 1);
        let nx = pack_upto(blocks, max_columns, n);
        let b = blocks[n - 1];
        let one = seq![b];
        assert(one.drop_last() =~= Seq::<MeasureBlock>::empty());
        assert(sys_width(Seq::<MeasureBlock>::empty()) == 0);
        assert(sys_width(one) == block_width(b));
        if nx.systems.len() > st.systems.len() {
            assert forall|k: int| 0 <= k < nx.systems.len() implies fits_system(
                #[trigger] nx.systems[k],
                max_columns,
            ) && nx.systems[k].len() > 0 by {
                if k < st.systems.len() {
                    assert(nx.systems[k] == st.systems[k]);
                }
            }
            assert forall|k: int| 0 <= k < nx.systems.len() - 1 implies must_break(
                #[trigger] nx.systems[k],
                nx.systems[k + 1],
                max_columns,
            ) by {
                assert(nx.systems[k] == st.systems[k]);
                if k + 1 < st.systems.len() {
                    assert(nx.systems[k + 1] == st.systems[k + 1]);
                }
            }
        } else {
            assert(st.current.push(b).drop_last() =~= st.current);
            if st.current.len() > 0 {
                assert(st.current.push(b)[0] == st.current[0]);
            }
        }
    }
}

/// Packing follows the width and row rules: a system is one block or fits within
/// `max_columns`, and each system after the first starts because its first block has
/// other rows than the system before, or would have taken that system past
/// `max_columns`.
pub proof fn packing_follows_width_and_row_rules(blocks: Seq<MeasureBlock>, max_columns: u32)
    ensures
        forall|k: int|
            0 <= k < packed(blocks, max_columns).len() ==> fits_system(
                #[trigger] packed(blocks, max_columns)[k],
                max_columns,
            ),
        forall|k: int|
            0 <= k < packed(blocks, max_columns).len() - 1 ==> must_break(
                #[trigger] packed(blocks, max_columns)[k],
                packed(blocks, max_columns)[k + 1],
                max_columns,
            ),
{
    let n = blocks.len() as int;
    lemma_pack_rules(blocks, max_columns, n);
    let st = pack_upto(blocks, max_columns, n);
    let p = packed(blocks, max_columns);
    if st.current.len() > 0 {
        assert forall|k: int| 0 <= k < p.len() implies fits_system(#[trigger] p[k], max_columns) by {
            if k < st.systems.len() {
                assert(p[k] == st.systems[k]);
            }
        }
        assert forall|k: int| 0 <= k < p.len() - 1 implies must_break(
            #[trigger] p[k],
            p[k + 1],
            max_columns,
        ) by {
            assert(p[k] == st.systems[k]);
            if k + 1 < st.systems.len() {
                assert(p[k + 1] == st.systems[k + 1]);
            }
        }
    }
}

/// Packing keeps every block, in order, and makes systems of blocks with the same rows:
/// the systems put end to end are the blocks, and no system is empty.
pub proof fn packing_keeps_every_block(blocks: Seq<MeasureBlock>, max_columns: u32)
    ensures
        flatten(packed(blocks, max_columns)) == blocks,
        forall|k: int|
            0 <= k < packed(blocks, max_columns).len() ==> uniform_system(
                #[trigger] packed(blocks, max_columns)[k],
            ),
{
    let n = blocks.len() as int;
    lemma_pack_upto(blocks, max_columns, n);
    let st = pack_upto(blocks, max_columns, n);
    assert(blocks.take(n) == blocks);
    if st.current.len() > 0 {
        let p = st.systems.push(st.current);
        assert(p.drop_last() == st.systems);
        assert forall|k: int| 0 <= k < p.len() implies uniform_system(#[trigger] p[k]) by {
            if k < st.systems.len() {
                assert(p[k] == st.systems[k]);
            }
        }
    } else {
        assert(flatten(st.systems) + st.current == flatten(st.systems));
    }
}

proof fn lemma_systems_view_push(
    a: Seq<Seq<MeasureBlock>>,
    b: Seq<Seq<MeasureBlock>>,
    x: Seq<MeasureBlock>,
    y: Seq<MeasureBlock>,
)
    requires
        systems_view(a) == systems_view(b),
        x.len() == y.len(),
        forall|k: int| 0 <= k < x.len() ==> block_view(#[trigger] x[k]) == block_view(y[k]),
    ensures
        systems_view(a.push(x)) == systems_view(b.push(y)),
{
    assert(a.len() == systems_view(a).len());
    assert(b.len() == systems_view(b).len());
    assert forall|i: int| 0 <= i < a.len() + 1 implies systems_view(a.push(x))[i] == systems_view(
        b.push(y),
    )[i] by {
        if i < a.len() {
            assert(a.push(x)[i] == a[i]);
            assert(b.push(y)[i] == b[i]);
            assert(systems_view(a)[i] == systems_view(b)[i]);
        } else {
            assert(systems_view(a.push(x))[i] =~= systems_view(b.push(y))[i]);
        }
    }
    assert(systems_view(a.push(x)) =~= systems_view(b.push(y)));
}

/// The blocks of a vector of systems, as sequences.
pub open spec fn nested(s: Seq<Vec<MeasureBlock>>) -> Seq<Seq<MeasureBlock>> {
    Seq::new(s.len(), |i: int| s[i]@)
}

/// Break `blocks` into systems: a block starts a new system when adding it would take
/// the system past `max_columns` columns, or when its rows differ from those of the
/// system's first block.
pub fn pack_into_systems(blocks: &[MeasureBlock], config: &RenderConfig) -> (systems: Vec<Vec<MeasureBlock>>)
    requires
        packable(blocks@, config.max_columns),
    ensures
        systems_view(nested(systems@)) == systems_view(packed(blocks@, config.max_columns)),
        flatten(packed(blocks@, config.max_columns)) == blocks@,
        forall|k: int|
            0 <= k < packed(blocks@, config.max_columns).len() ==> {
                &&& uniform_system(#[trigger] packed(blocks@, config.max_columns)[k])
                &&& fits_system(packed(blocks@, config.max_columns)[k], config.max_columns)
            },
        forall|k: int|
            0 <= k < packed(blocks@, config.max_columns).len() - 1 ==> must_break(
                #[trigger] packed(blocks@, config.max_columns)[k],
                packed(blocks@, config.max_columns)[k + 1],
                config.max_columns,
            ),
{
    proof {
        packing_keeps_every_block(blocks@, config.max_columns);
        packing_follows_width_and_row_rules(blocks@, config.max_columns);
    }
    let ghost max = config.max_columns;
    let mut systems: Vec<Vec<MeasureBlock>> = Vec::new();
    let mut current: Vec<MeasureBlock> = Vec::new();
    let mut current_cols: u32 = 0;
    let mut i: usize = 0;
    proof {
        assert(systems_view(nested(systems@)) == systems_view(pack_upto(blocks@, max, 0).systems));
    }
    while i < blocks.len()
        invariant
            i <= blocks@.len(),
            max == config.max_columns,
            packable(blocks@, max),
            systems_view(nested(systems@)) == systems_view(pack_upto(blocks@, max, i as int).systems),
            current@.len() == pack_upto(blocks@, max, i as int).current.len(),
            forall|k: int|
                0 <= k < current@.len() ==> block_view(#[trigger] current@[k]) == block_view(
                    pack_upto(blocks@, max, i as int).current[k],
                ) && row_ids(current@[k]) == row_ids(pack_upto(blocks@, max, i as int).current[k]),
            current_cols == pack_upto(blocks@, max, i as int).cols,
        decreases blocks@.len() - i,
    {
        let ghost st = pack_upto(blocks@, max, i as int);
        let block = &blocks[i];
        assert(block_width(blocks@[i as int]) <= u32::MAX);
        let col_w = block_column_width(block);
        let needs_new = if current.len() > 0 {
            current_cols + col_w > config.max_columns || !same_row_ids(block, &current[0])
        } else {
            false
        };
        if needs_new {
            let ghost before = systems@;
            let mut taken: Vec<MeasureBlock> = Vec::new();
            std::mem::swap(&mut taken, &mut current);
            systems.push(taken);
            current_cols = 0;
            proof {
                assert(nested(systems@) == nested(before).push(taken@));
                lemma_systems_view_push(nested(before), st.systems, taken@, st.current);
            }
        }
        current_cols = current_cols + col_w;
        let copy = copy_block(block);
        current.push(copy);
        i += 1;
        proof {
            let nx = pack_upto(blocks@, max, i as int);
            assert(current@.len() == nx.current.len());
            assert forall|k: int| 0 <= k < current@.len() implies block_view(#[trigger] current@[k])
                == block_view(nx.current[k]) && row_ids(current@[k]) == row_ids(nx.current[k]) by {
                if k == current@.len() - 1 {
                    assert(nx.current[k] == blocks@[i - 1]);
                }
            }
        }
    }
    if current.len() > 0 {
        let ghost before = systems@;
        let ghost st = pack_upto(blocks@, max, i as int);
        let ghost cur = current@;
        systems.push(current);
        proof {
            assert(nested(systems@) == nested(before).push(cur));
            lemma_systems_view_push(nested(before), st.systems, cur, st.current);
        }
    }
    proof {
        assert(blocks@.len() == i);
    }
    systems
}

fn copy_content(c: &ElementContent) -> (r: ElementContent)
    ensures
        content_view(r) == content_view(*c),
{
    match c {
        ElementContent::NoteHead { pitch, octave, dotted } => ElementContent::NoteHead {
            pitch: *pitch,
            octave: *octave,
            dotted: *dotted,
        },
        ElementContent::Rest { dotted } => ElementContent::Rest { dotted: *dotted },
        ElementContent::ChordSymbol(s) => ElementContent::ChordSymbol(s.clone()),
        ElementContent::Underline { from_column, to_column, last_head_column, level } =>
            ElementContent::Underline {
            from_column: *from_column,
            to_column: *to_column,
            last_head_column: *last_head_column,
            level: *level,
        },
        ElementContent::BarLine => ElementContent::BarLine,
        ElementContent::NoteDash => ElementContent::NoteDash,
        ElementContent::Lyric(s) => ElementContent::Lyric(s.clone()),
    }
}

fn copy_decoration(d: &Decoration) -> (r: Decoration)
    ensures
        decoration_view(r) == decoration_view(*d),
{
    match d {
        Decoration::Bpm(b) => Decoration::Bpm(*b),
        Decoration::TimeSignature { numerator, denominator } => Decoration::TimeSignature {
            numerator: *numerator,
            denominator: *denominator,
        },
        Decoration::SectionLabel(s) => Decoration::SectionLabel(s.clone()),
        Decoration::BarNumber(n) => Decoration::BarNumber(*n),
    }
}

fn copy_row(row: &MeasureRow) -> (r: MeasureRow)
    ensures
        r.id.0@ == row.id.0@,
        r.label@ == row.label@,
        crate::compiler::types::elements_view(r.elements@) == crate::compiler::types::elements_view(
            row.elements@,
        ),
{
    let mut elements: Vec<ColumnElement> = Vec::new();
    let mut i: usize = 0;
    while i < row.elements.len()
        invariant
            i <= row.elements@.len(),
            elements@.len() == i,
            forall|k: int| 0 <= k < i ==> element_view(#[trigger] elements@[k]) == element_view(row.elements@[k]),
        decreases row.elements@.len() - i,
    {
        let e = &row.elements[i];
        elements.push(ColumnElement { column: e.column, content: copy_content(&e.content) });
        i += 1;
    }
    proof {
        assert(crate::compiler::types::elements_view(elements@) == crate::compiler::types::elements_view(
            row.elements@,
        ));
    }
    MeasureRow { id: RowId(row.id.0.clone()), label: row.label.clone(), elements }
}

/// A copy of a block.
pub fn copy_block(b: &MeasureBlock) -> (r: MeasureBlock)
    ensures
        block_view(r) == block_view(*b),
        row_ids(r) == row_ids(*b),
        block_width(r) == block_width(*b),
{
    let mut rows: Vec<MeasureRow> = Vec::new();
    let mut i: usize = 0;
    while i < b.rows.len()
        invariant
            i <= b.rows@.len(),
            rows@.len() == i,
            forall|k: int|
                0 <= k < i ==> crate::compiler::types::row_view(#[trigger] rows@[k])
                    == crate::compiler::types::row_view(b.rows@[k]),
        decreases b.rows@.len() - i,
    {
        rows.push(copy_row(&b.rows[i]));
        i += 1;
    }
    let mut decorations: Vec<Decoration> = Vec::new();
    let mut j: usize = 0;
    while j < b.decorations.len()
        invariant
            j <= b.decorations@.len(),
            decorations@.len() == j,
            forall|k: int|
                0 <= k < j ==> decoration_view(#[trigger] decorations@[k]) == decoration_view(
                    b.decorations@[k],
                ),
        decreases b.decorations@.len() - j,
    {
        decorations.push(copy_decoration(&b.decorations[j]));
        j += 1;
    }
    let r = MeasureBlock { rows, decorations };
    proof {
        assert(block_view(r) == block_view(*b));
        assert(row_ids(r) == row_ids(*b)) by {
            assert forall|k: int| 0 <= k < r.rows@.len() implies row_ids(r)[k] == row_ids(*b)[k] by {
                assert(crate::compiler::types::row_view(r.rows@[k]) == crate::compiler::types::row_view(
                    b.rows@[k],
                ));
            }
        }
        if r.rows@.len() > 0 {
            lemma_first_bar_column_of_view(r.rows@[0].elements@, b.rows@[0].elements@);
            assert(crate::compiler::types::row_view(r.rows@[0]) == crate::compiler::types::row_view(
                b.rows@[0],
            ));
        }
    }
    r
}

/// Elements with the same plain values have the same first bar line.
proof fn lemma_first_bar_column_of_view(a: Seq<ColumnElement>, b: Seq<ColumnElement>)
    requires
        crate::compiler::types::elements_view(a) == crate::compiler::types::elements_view(b),
    ensures
        first_bar_column(a) == first_bar_column(b),
    decreases a.len(),
{
    assert(a.len() == crate::compiler::types::elements_view(a).len());
    assert(b.len() == crate::compiler::types::elements_view(b).len());
    if a.len() > 0 {
        assert(element_view(a[0]) == crate::compiler::types::elements_view(a)[0]);
        assert(element_view(b[0]) == crate::compiler::types::elements_view(b)[0]);
        assert(crate::compiler::types::elements_view(a.drop_first()) == crate::compiler::types::elements_view(
            a,
        ).drop_first());
        assert(crate::compiler::types::elements_view(b.drop_first()) == crate::compiler::types::elements_view(
            b,
        ).drop_first());
        lemma_first_bar_column_of_view(a.drop_first(), b.drop_first());
    }
}


/// The block carries at least one decoration.
pub fn has_any_decoration(block: &MeasureBlock) -> (b: bool)
    ensures
        b == (block.decorations@.len() > 0),
{
    block.decorations.len() > 0
}

} // verus!
