use vstd::prelude::*;

use crate::ast::parsed::PartColumn;
use crate::error::{ErrorKind, JianPuError, Span};
use crate::text::{decimal, decimal_string, is_single_char, starts_with_char};

verus! {

/// What kind of line a parts column holds.
#[derive(Debug, Clone, Copy, PartialEq, Eq, Structural)]
pub enum ColType {
    Notes,
    Lyrics,
    Chord,
}

/// The lines of a group as plain values: the text of each line and its byte offset.
pub open spec fn line_views(lines: Seq<(String, usize)>) -> Seq<(Seq<char>, usize)> {
    lines.map_values(|l: (String, usize)| (l.0@, l.1))
}

pub open spec fn column_kind(c: PartColumn) -> ColType {
    match c {
        PartColumn::Notes { .. } => ColType::Notes,
        PartColumn::Lyrics { .. } => ColType::Lyrics,
        PartColumn::Chord { .. } => ColType::Chord,
    }
}

pub open spec fn column_kind_name(c: PartColumn) -> Seq<char> {
    match c {
        PartColumn::Notes { .. } => "notes"@,
        PartColumn::Lyrics { .. } => "lyrics"@,
        PartColumn::Chord { .. } => "chord"@,
    }
}

pub open spec fn column_name(c: PartColumn) -> Seq<char> {
    match c {
        PartColumn::Notes { name } => name@,
        PartColumn::Lyrics { name } => name@,
        PartColumn::Chord { name } => name@,
    }
}

/// The ditto marker: a line that is exactly `"`.
pub open spec fn ditto_mark() -> Seq<char> {
    seq!['"']
}

/// A group opens with a directive line when its first line starts with `(`.
pub open spec fn directive_count(g: Seq<(Seq<char>, usize)>) -> int {
    if g.len() > 0 && g[0].0.len() > 0 && g[0].0[0] == '(' {
        1
    } else {
        0
    }
}

/// The one-byte span at `off`.
pub open spec fn span_at(off: usize) -> Span {
    Span { start: off, end: (off + 1) as usize }
}

/// The last index below `j` whose column has the kind of column `i`, or -1.
pub open spec fn same_kind_before(parts: Seq<PartColumn>, i: int, j: int) -> int
    decreases j,
{
    if j <= 0 {
        -1
    } else if column_kind(parts[j - 1]) == column_kind(parts[i]) {
        j - 1
    } else {
        same_kind_before(parts, i, j - 1)
    }
}

/// Column `i` has an earlier column of the same kind.
pub open spec fn has_precedent(parts: Seq<PartColumn>, i: int) -> bool {
    same_kind_before(parts, i, i) >= 0
}

/// The first column at or after `from` with no earlier column of its kind; the column count if none.
pub open spec fn first_missing_precedent(parts: Seq<PartColumn>, from: int) -> int
    decreases parts.len() - from,
{
    if from >= parts.len() {
        parts.len() as int
    } else if !has_precedent(parts, from) {
        from
    } else {
        first_missing_precedent(parts, from + 1)
    }
}

pub open spec fn missing_line_hint(c: PartColumn) -> Seq<char> {
    match c {
        PartColumn::Lyrics { .. } => "write content, '\"' ditto, or '_' for no lyrics"@,
        _ => "write content or '\"' ditto"@,
    }
}

pub open spec fn missing_line_message(c: PartColumn) -> Seq<char> {
    "expected "@ + column_kind_name(c) + " line for '"@ + column_name(c) + "'; "@
        + missing_line_hint(c)
}

pub open spec fn too_many_lines_message(columns: nat, lines: nat) -> Seq<char> {
    "expected at most "@ + decimal(columns) + " lines (one per parts column), got "@ + decimal(
        lines,
    )
}

/// A group with its omitted trailing data lines filled in as `"` dittos, or the error that
/// stops it: no data line, more data lines than columns, or an omitted line whose column
/// has no earlier column of its kind to copy from.
pub open spec fn pad_group_spec(g: Seq<(Seq<char>, usize)>, parts: Seq<PartColumn>) -> Result<
    Seq<(Seq<char>, usize)>,
    (Span, Seq<char>),
> {
    let data = g.skip(directive_count(g));
    if data.len() == 0 {
        let span = if g.len() > 0 {
            span_at(g.last().1)
        } else {
            Span { start: 0, end: 1 }
        };
        Err((span, "expected at least one data line in measure group"@))
    } else if data.len() > parts.len() {
        Err((span_at(data.last().1), too_many_lines_message(parts.len(), data.len())))
    } else {
        let m = first_missing_precedent(parts, data.len() as int);
        let off = data.last().1;
        if m < parts.len() {
            Err((span_at(off), missing_line_message(parts[m])))
        } else {
            Ok(g + Seq::new((parts.len() - data.len()) as nat, |k: int| (ditto_mark(), off)))
        }
    }
}

/// Data line `i` is a ditto of a column that has no earlier column of its kind.
pub open spec fn unsourced_ditto(data: Seq<(Seq<char>, usize)>, parts: Seq<PartColumn>, i: int) -> bool {
    data[i].0 == ditto_mark() && i < parts.len() && !has_precedent(parts, i)
}

/// The first unsourced ditto at or after `from`; the line count if none.
pub open spec fn first_unsourced_ditto(
    data: Seq<(Seq<char>, usize)>,
    parts: Seq<PartColumn>,
    from: int,
) -> int
    decreases data.len() - from,
{
    if from >= data.len() {
        data.len() as int
    } else if unsourced_ditto(data, parts, from) {
        from
    } else {
        first_unsourced_ditto(data, parts, from + 1)
    }
}

/// The text of data line `i` once dittos are resolved: a ditto takes the resolved text of
/// the closest earlier line of the same column kind.
pub open spec fn resolved_line(data: Seq<(Seq<char>, usize)>, parts: Seq<PartColumn>, i: int) -> Seq<
    char,
>
    decreases i,
{
    if data[i].0 == ditto_mark() && i < parts.len() {
        let j = same_kind_before(parts, i, i);
        if 0 <= j < i {
            resolved_line(data, parts, j)
        } else {
            data[i].0
        }
    } else {
        data[i].0
    }
}

pub open spec fn unsourced_ditto_message(c: PartColumn) -> Seq<char> {
    "ditto '\"' has no preceding "@ + column_kind_name(c) + " line in this measure group"@
}

/// A group with every ditto data line replaced by the text it copies (keeping its own
/// offset), or the error for the first ditto that has nothing to copy.
pub open spec fn desugar_group_spec(g: Seq<(Seq<char>, usize)>, parts: Seq<PartColumn>) -> Result<
    Seq<(Seq<char>, usize)>,
    (Span, Seq<char>),
> {
    let dc = directive_count(g);
    let data = g.skip(dc);
    let i = first_unsourced_ditto(data, parts, 0);
    if i < data.len() {
        Err((span_at(data[i].1), unsourced_ditto_message(parts[i])))
    } else {
        Ok(
            g.take(dc) + Seq::new(
                data.len(),
                |k: int| (resolved_line(data, parts, k), data[k].1),
            ),
        )
    }
}

/// What one group becomes: padded, then desugared.
pub open spec fn group_outcome(g: Seq<(Seq<char>, usize)>, parts: Seq<PartColumn>) -> Result<
    Seq<(Seq<char>, usize)>,
    (Span, Seq<char>),
> {
    match pad_group_spec(g, parts) {
        Ok(p) => desugar_group_spec(p, parts),
        Err(e) => Err(e),
    }
}

/// Every offset leaves room for a one-byte span after it.
pub open spec fn offsets_fit(g: Seq<(String, usize)>) -> bool {
    forall|k: int| 0 <= k < g.len() ==> #[trigger] g[k].1 < usize::MAX
}

/// The error made from a spec error value.
pub open spec fn error_is(e: JianPuError, v: (Span, Seq<char>)) -> bool {
    &&& e.span == v.0
    &&& e.message@ == v.1
    &&& e.path.is_none()
    &&& e.kind == ErrorKind::General
}

proof fn lemma_same_kind_before_range(parts: Seq<PartColumn>, i: int, j: int)
    ensures
        -1 <= same_kind_before(parts, i, j) < j || (j <= 0 && same_kind_before(parts, i, j) == -1),
        same_kind_before(parts, i, j) >= 0 ==> column_kind(parts[same_kind_before(parts, i, j)])
            == column_kind(parts[i]),
    decreases j,
{
    if j > 0 {
        lemma_same_kind_before_range(parts, i, j - 1);
    }
}

proof fn lemma_first_missing_is(parts: Seq<PartColumn>, from: int, i: int)
    requires
        from <= i <= parts.len(),
        forall|k: int| from <= k < i ==> has_precedent(parts, k),
        i < parts.len() ==> !has_precedent(parts, i),
    ensures
        first_missing_precedent(parts, from) == i,
    decreases i - from,
{
    if from < i {
        lemma_first_missing_is(parts, from + 1, i);
    }
}

proof fn lemma_first_unsourced_is(
    data: Seq<(Seq<char>, usize)>,
    parts: Seq<PartColumn>,
    from: int,
    i: int,
)
    requires
        0 <= from <= i <= data.len(),
        forall|k: int| from <= k < i ==> !unsourced_ditto(data, parts, k),
        i < data.len() ==> unsourced_ditto(data, parts, i),
    ensures
        first_unsourced_ditto(data, parts, from) == i,
    decreases i - from,
{
    if from < i {
        lemma_first_unsourced_is(data, parts, from + 1, i);
    }
}

/// The kind of line a column holds.
pub fn column_type(col: &PartColumn) -> (t: ColType)
    ensures
        t == column_kind(*col),
{
    match col {
        PartColumn::Notes { .. } => ColType::Notes,
        PartColumn::Lyrics { .. } => ColType::Lyrics,
        PartColumn::Chord { .. } => ColType::Chord,
    }
}

/// The word naming a column's kind: `notes`, `lyrics` or `chord`.
pub fn col_type_name(col: &PartColumn) -> (s: &'static str)
    ensures
        s@ == column_kind_name(*col),
{
    match col {
        PartColumn::Notes { .. } => "notes",
        PartColumn::Lyrics { .. } => "lyrics",
        PartColumn::Chord { .. } => "chord",
    }
}

/// The name of the part a column belongs to.
pub fn part_display_name(col: &PartColumn) -> (s: &str)
    ensures
        s@ == column_name(*col),
{
    match col {
        PartColumn::Notes { name } => name.as_str(),
        PartColumn::Lyrics { name } => name.as_str(),
        PartColumn::Chord { name } => name.as_str(),
    }
}

/// The last column below `upto` with the kind of column `i`.
fn nearest_same_kind(parts: &[PartColumn], i: usize, upto: usize) -> (r: Option<usize>)
    requires
        i < parts@.len(),
        upto <= parts@.len(),
    ensures
        match r {
            Some(j) => j == same_kind_before(parts@, i as int, upto as int),
            None => same_kind_before(parts@, i as int, upto as int) == -1,
        },
{
    let kind = column_type(&parts[i]);
    let mut j: usize = upto;
    while j > 0
        invariant
            j <= upto <= parts@.len(),
            i < parts@.len(),
            kind == column_kind(parts@[i as int]),
            same_kind_before(parts@, i as int, upto as int) == same_kind_before(
                parts@,
                i as int,
                j as int,
            ),
        decreases j,
    {
        if column_type(&parts[j - 1]) == kind {
            return Some(j - 1);
        }
        j -= 1;
    }
    None
}

fn copy_line(line: &(String, usize)) -> (r: (String, usize))
    ensures
        r.0@ == line.0@,
        r.1 == line.1,
{
    (line.0.clone(), line.1)
}

/// Whether the group opens with a directive line.
fn group_directive_count(group: &[(String, usize)]) -> (n: usize)
    ensures
        n == directive_count(line_views(group@)),
{
    if group.len() > 0 && starts_with_char(group[0].0.as_str(), '(') {
        1
    } else {
        0
    }
}

/// Pads omitted trailing data lines with implicit `"` ditto markers.
fn pad_implicit_ditto_group(group: &[(String, usize)], parts: &[PartColumn]) -> (r: Result<
    Vec<(String, usize)>,
    JianPuError,
>)
    requires
        offsets_fit(group@),
    ensures
        match r {
            Ok(v) => pad_group_spec(line_views(group@), parts@) == Ok::<
                Seq<(Seq<char>, usize)>,
                (Span, Seq<char>),
            >(line_views(v@)) && offsets_fit(v@),
            Err(e) => pad_group_spec(line_views(group@), parts@) matches Err(v) && error_is(e, v),
        },
{
    let ghost g = line_views(group@);
    let dc = group_directive_count(group);
    let ghost data = g.skip(dc as int);
    let d = group.len() - dc;
    if d == 0 {
        let span = if group.len() > 0 {
            let off = group[group.len() - 1].1;
            Span::new(off, off + 1)
        } else {
            Span::new(0, 1)
        };
        return Err(
            JianPuError::new(span, String::from_str("expected at least one data line in measure group")),
        );
    }
    let last_off = group[group.len() - 1].1;
    proof {
        assert(data.last().1 == last_off);
        assert(group@[group@.len() - 1].1 < usize::MAX);
    }
    if d > parts.len() {
        let mut msg = String::from_str("expected at most ");
        let columns = decimal_string(parts.len());
        msg.append(columns.as_str());
        msg.append(" lines (one per parts column), got ");
        let lines = decimal_string(d);
        msg.append(lines.as_str());
        return Err(JianPuError::new(Span::new(last_off, last_off + 1), msg));
    }
    let mut result: Vec<(String, usize)> = Vec::new();
    let mut k: usize = 0;
    while k < group.len()
        invariant
            k <= group@.len(),
            result@.len() == k,
            forall|m: int| 0 <= m < k ==> #[trigger] result@[m].0@ == group@[m].0@ && result@[m].1 == group@[m].1,
        decreases group@.len() - k,
    {
        result.push(copy_line(&group[k]));
        k += 1;
    }
    let mut i: usize = d;
    while i < parts.len()
        invariant
            0 < d <= i <= parts@.len(),
            d == data.len(),
            g == line_views(group@),
            data == g.skip(dc as int),
            dc == directive_count(g),
            last_off == data.last().1,
            last_off < usize::MAX,
            offsets_fit(group@),
            result@.len() == group@.len() + (i - d),
            forall|m: int| #![trigger result@[m]] 0 <= m < group@.len() ==> result@[m].0@ == group@[m].0@ && result@[m].1 == group@[m].1,
            forall|m: int| #![trigger result@[m]] group@.len() <= m < result@.len() ==> result@[m].0@ == ditto_mark() && result@[m].1 == last_off,
            forall|m: int| d <= m < i ==> has_precedent(parts@, m),
        decreases parts@.len() - i,
    {
        let found = nearest_same_kind(parts, i, i);
        if found.is_none() {
            proof {
                lemma_first_missing_is(parts@, d as int, i as int);
            }
            let col = &parts[i];
            let mut msg = String::from_str("expected ");
            msg.append(col_type_name(col));
            msg.append(" line for '");
            msg.append(part_display_name(col));
            msg.append("'; ");
            let hint = match col {
                PartColumn::Lyrics { .. } => "write content, '\"' ditto, or '_' for no lyrics",
                _ => "write content or '\"' ditto",
            };
            msg.append(hint);
            return Err(JianPuError::new(Span::new(last_off, last_off + 1), msg));
        }
        let mark = String::from_str("\"");
        proof {
            reveal_strlit("\"");
            assert(mark@ =~= ditto_mark());
        }
        result.push((mark, last_off));
        i += 1;
    }
    proof {
        lemma_first_missing_is(parts@, d as int, parts@.len() as int);
        let pad = Seq::new((parts@.len() - data.len()) as nat, |k: int| (ditto_mark(), last_off));
        assert(line_views(result@) =~= g + pad);
        assert forall|m: int| 0 <= m < result@.len() implies #[trigger] result@[m].1 < usize::MAX by {
            if m < group@.len() {
                assert(group@[m].1 < usize::MAX);
            }
        }
    }
    Ok(result)
}

/// Resolves the `"` ditto lines of one padded group.
fn desugar_group(group: &[(String, usize)], parts: &[PartColumn]) -> (r: Result<
    Vec<(String, usize)>,
    JianPuError,
>)
    requires
        offsets_fit(group@),
    ensures
        match r {
            Ok(v) => desugar_group_spec(line_views(group@), parts@) == Ok::<
                Seq<(Seq<char>, usize)>,
                (Span, Seq<char>),
            >(line_views(v@)),
            Err(e) => desugar_group_spec(line_views(group@), parts@) matches Err(v) && error_is(e, v),
        },
{
    let ghost g = line_views(group@);
    let dc = group_directive_count(group);
    let ghost data = g.skip(dc as int);
    let mut result: Vec<(String, usize)> = Vec::new();
    if dc == 1 {
        result.push(copy_line(&group[0]));
    }
    let mut i: usize = 0;
    while i < group.len() - dc
        invariant
            dc <= group@.len(),
            g == line_views(group@),
            dc == directive_count(g),
            data == g.skip(dc as int),
            offsets_fit(group@),
            i <= data.len(),
            result@.len() == dc + i,
            forall|m: int| 0 <= m < dc ==> #[trigger] result@[m].0@ == group@[m].0@ && result@[m].1 == group@[m].1,
            forall|m: int| dc <= m < dc + i ==> #[trigger] result@[m].0@ == resolved_line(data, parts@, m - dc)
                && result@[m].1 == data[m - dc].1,
            forall|m: int| 0 <= m < i ==> !unsourced_ditto(data, parts@, m),
        decreases data.len() - i,
    {
        let line = &group[dc + i];
        proof {
            assert(data[i as int] == (line.0@, line.1));
        }
        if is_single_char(line.0.as_str(), '"') && i < parts.len() {
            match nearest_same_kind(parts, i, i) {
                Some(j) => {
                    proof {
                        lemma_same_kind_before_range(parts@, i as int, i as int);
                    }
                    let src = result[dc + j].0.clone();
                    result.push((src, line.1));
                },
                None => {
                    proof {
                        lemma_first_unsourced_is(data, parts@, 0, i as int);
                    }
                    let mut msg = String::from_str("ditto '\"' has no preceding ");
                    msg.append(col_type_name(&parts[i]));
                    msg.append(" line in this measure group");
                    return Err(JianPuError::new(Span::new(line.1, line.1 + 1), msg));
                },
            }
        } else {
            result.push(copy_line(line));
        }
        i += 1;
    }
    proof {
        lemma_first_unsourced_is(data, parts@, 0, data.len() as int);
        let target = g.take(dc as int) + Seq::new(
            data.len(),
            |k: int| (resolved_line(data, parts@, k), data[k].1),
        );
        assert(line_views(result@) =~= target);
    }
    Ok(result)
}

/// The lines of each group, as plain values.
pub open spec fn groups_view(gs: Seq<Vec<(String, usize)>>) -> Seq<Seq<(Seq<char>, usize)>> {
    gs.map_values(|g: Vec<(String, usize)>| line_views(g@))
}

/// Desugaring groups in order: the outcome of each, or the error of the first that fails.
pub open spec fn groups_outcome(gs: Seq<Seq<(Seq<char>, usize)>>, parts: Seq<PartColumn>) -> Result<
    Seq<Seq<(Seq<char>, usize)>>,
    (Span, Seq<char>),
>
    decreases gs.len(),
{
    if gs.len() == 0 {
        Ok(seq![])
    } else {
        match groups_outcome(gs.drop_last(), parts) {
            Err(e) => Err(e),
            Ok(o) => match group_outcome(gs.last(), parts) {
                Ok(g) => Ok(o.push(g)),
                Err(e) => Err(e),
            },
        }
    }
}

proof fn lemma_groups_outcome_ok(gs: Seq<Seq<(Seq<char>, usize)>>, parts: Seq<PartColumn>)
    ensures
        groups_outcome(gs, parts) is Ok <==> forall|k: int| 0 <= k < gs.len() ==> (#[trigger] group_outcome(gs[k], parts)) is Ok,
        groups_outcome(gs, parts) is Ok ==> groups_outcome(gs, parts)->Ok_0 == Seq::new(
            gs.len(),
            |k: int| group_outcome(gs[k], parts)->Ok_0,
        ),
    decreases gs.len(),
{
    if gs.len() > 0 {
        let d = gs.drop_last();
        lemma_groups_outcome_ok(d, parts);
        assert forall|k: int| 0 <= k < d.len() implies #[trigger] group_outcome(d[k], parts) == group_outcome(gs[k], parts) by {
            assert(d[k] == gs[k]);
        }
        assert(gs.last() == gs[gs.len() - 1]);
        if groups_outcome(gs, parts) is Ok {
            assert forall|k: int| 0 <= k < gs.len() implies (#[trigger] group_outcome(gs[k], parts)) is Ok by {
                if k < d.len() {
                    assert(group_outcome(d[k], parts) is Ok);
                }
            }
            assert(groups_outcome(gs, parts)->Ok_0 =~= Seq::new(
                gs.len(),
                |k: int| group_outcome(gs[k], parts)->Ok_0,
            ));
        } else if groups_outcome(d, parts) is Ok {
            assert(group_outcome(gs[gs.len() - 1], parts) is Err);
        } else {
            let k = choose|k: int| 0 <= k < d.len() && !(#[trigger] group_outcome(d[k], parts) is Ok);
            assert(!(group_outcome(gs[k], parts) is Ok));
        }
    }
}

proof fn lemma_groups_outcome_err(gs: Seq<Seq<(Seq<char>, usize)>>, parts: Seq<PartColumn>, k: int)
    requires
        0 <= k < gs.len(),
        forall|m: int| 0 <= m < k ==> (#[trigger] group_outcome(gs[m], parts)) is Ok,
        group_outcome(gs[k], parts) is Err,
    ensures
        groups_outcome(gs, parts) == Err::<Seq<Seq<(Seq<char>, usize)>>, (Span, Seq<char>)>(
            group_outcome(gs[k], parts)->Err_0,
        ),
    decreases gs.len(),
{
    let d = gs.drop_last();
    if k < gs.len() - 1 {
        assert forall|m: int| 0 <= m < k implies (#[trigger] group_outcome(d[m], parts)) is Ok by {
            assert(d[m] == gs[m]);
        }
        assert(d[k] == gs[k]);
        lemma_groups_outcome_err(d, parts, k);
    } else {
        lemma_groups_outcome_ok(d, parts);
        assert forall|m: int| 0 <= m < d.len() implies (#[trigger] group_outcome(d[m], parts)) is Ok by {
            assert(d[m] == gs[m]);
        }
    }
}

/// Law: measure groups are desugared independently: a list of groups desugars if and
/// only if each group desugars on its own, and then each group's lines are what it gives
/// on its own (a ditto never copies from another group).
pub proof fn groups_desugar_independently(gs: Seq<Seq<(Seq<char>, usize)>>, parts: Seq<PartColumn>)
    ensures
        groups_outcome(gs, parts) is Ok <==> forall|k: int| 0 <= k < gs.len() ==> (#[trigger] groups_outcome(seq![gs[k]], parts)) is Ok,
        groups_outcome(gs, parts) matches Ok(o) ==> o.len() == gs.len() && forall|k: int|
            0 <= k < gs.len() ==> #[trigger] groups_outcome(seq![gs[k]], parts) == Ok::<
                Seq<Seq<(Seq<char>, usize)>>,
                (Span, Seq<char>),
            >(seq![o[k]]),
{
    lemma_groups_outcome_ok(gs, parts);
    assert forall|k: int| 0 <= k < gs.len() implies #[trigger] groups_outcome(seq![gs[k]], parts) == match group_outcome(gs[k], parts) {
        Ok(g) => Ok::<Seq<Seq<(Seq<char>, usize)>>, (Span, Seq<char>)>(seq![g]),
        Err(e) => Err(e),
    } by {
        let one = seq![gs[k]];
        assert(one.drop_last() =~= Seq::<Seq<(Seq<char>, usize)>>::empty());
        assert(one.last() == gs[k]);
        assert(groups_outcome(one.drop_last(), parts) == Ok::<Seq<Seq<(Seq<char>, usize)>>, (Span, Seq<char>)>(seq![]));
        assert(seq![].push(group_outcome(gs[k], parts)->Ok_0) =~= seq![group_outcome(gs[k], parts)->Ok_0]);
    }
    if groups_outcome(gs, parts) is Ok {
        assert forall|k: int| 0 <= k < gs.len() implies (#[trigger] groups_outcome(seq![gs[k]], parts)) is Ok by {
            assert(group_outcome(gs[k], parts) is Ok);
        }
    } else {
        let k = choose|k: int| 0 <= k < gs.len() && !(#[trigger] group_outcome(gs[k], parts) is Ok);
        assert(!(groups_outcome(seq![gs[k]], parts) is Ok));
    }
}

/// Resolves `"` ditto lines within each measure group.
///
/// A `"` on a data line means "same content as the closest preceding line of
/// the same column type in this group." The directive line (starts with `(`)
/// is never a ditto source or target. Omitted trailing data lines count as dittos.
///
/// `parts` maps each data-line position to its column type.
pub fn desugar_groups(groups: Vec<Vec<(String, usize)>>, parts: &[PartColumn]) -> (r: Result<
    Vec<Vec<(String, usize)>>,
    JianPuError,
>)
    requires
        forall|k: int| 0 <= k < groups@.len() ==> offsets_fit(#[trigger] groups@[k]@),
    ensures
        match r {
            Ok(out) => out@.len() == groups@.len() && forall|k: int|
                0 <= k < groups@.len() ==> group_outcome(line_views(#[trigger] groups@[k]@), parts@)
                    == Ok::<Seq<(Seq<char>, usize)>, (Span, Seq<char>)>(line_views(out@[k]@)),
            Err(e) => exists|k: int|
                #![trigger groups@[k]]
                {
                    &&& 0 <= k < groups@.len()
                    &&& forall|m: int|
                        0 <= m < k ==> (#[trigger] group_outcome(line_views(groups@[m]@), parts@)) is Ok
                    &&& group_outcome(line_views(groups@[k]@), parts@) matches Err(v) && error_is(e, v)
                },
        },
        match r {
            Ok(out) => groups_outcome(groups_view(groups@), parts@) == Ok::<
                Seq<Seq<(Seq<char>, usize)>>,
                (Span, Seq<char>),
            >(groups_view(out@)),
            Err(e) => groups_outcome(groups_view(groups@), parts@) matches Err(v) && error_is(e, v),
        },
{
    let mut out: Vec<Vec<(String, usize)>> = Vec::new();
    let mut k: usize = 0;
    while k < groups.len()
        invariant
            k <= groups@.len(),
            out@.len() == k,
            forall|m: int| 0 <= m < groups@.len() ==> offsets_fit(#[trigger] groups@[m]@),
            forall|m: int|
                0 <= m < k ==> group_outcome(line_views(#[trigger] groups@[m]@), parts@) == Ok::<
                    Seq<(Seq<char>, usize)>,
                    (Span, Seq<char>),
                >(line_views(out@[m]@)),
        decreases groups@.len() - k,
    {
        let padded = match pad_implicit_ditto_group(&groups[k], parts) {
            Ok(p) => p,
            Err(e) => {
                proof {
                    assert(forall|m: int| 0 <= m < k ==> (#[trigger] group_outcome(line_views(groups@[m]@), parts@)) is Ok);
                    lemma_desugar_failed(groups@, parts@, k as int);
                }
                return Err(e);
            },
        };
        let resolved = match desugar_group(&padded, parts) {
            Ok(v) => v,
            Err(e) => {
                proof {
                    assert(forall|m: int| 0 <= m < k ==> (#[trigger] group_outcome(line_views(groups@[m]@), parts@)) is Ok);
                    lemma_desugar_failed(groups@, parts@, k as int);
                }
                return Err(e);
            },
        };
        out.push(resolved);
        k += 1;
    }
    proof {
        let gv = groups_view(groups@);
        assert forall|m: int| 0 <= m < gv.len() implies (#[trigger] group_outcome(gv[m], parts@)) is Ok by {
            assert(gv[m] == line_views(groups@[m]@));
        }
        lemma_groups_outcome_ok(gv, parts@);
        assert(groups_outcome(gv, parts@)->Ok_0 =~= groups_view(out@));
    }
    Ok(out)
}

proof fn lemma_desugar_failed(groups: Seq<Vec<(String, usize)>>, parts: Seq<PartColumn>, k: int)
    requires
        0 <= k < groups.len(),
        forall|m: int| 0 <= m < k ==> (#[trigger] group_outcome(line_views(groups[m]@), parts)) is Ok,
        group_outcome(line_views(groups[k]@), parts) is Err,
    ensures
        groups_outcome(groups_view(groups), parts) == Err::<Seq<Seq<(Seq<char>, usize)>>, (Span, Seq<char>)>(
            group_outcome(line_views(groups[k]@), parts)->Err_0,
        ),
{
    let gv = groups_view(groups);
    assert forall|m: int| 0 <= m < k implies (#[trigger] group_outcome(gv[m], parts)) is Ok by {
        assert(gv[m] == line_views(groups[m]@));
    }
    assert(gv[k] == line_views(groups[k]@));
    lemma_groups_outcome_err(gv, parts, k);
}

} // verus!
