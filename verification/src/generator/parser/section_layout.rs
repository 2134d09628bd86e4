//! Where the sections of a score file stand in its text.
use vstd::prelude::*;

use crate::generator::parser::metadata_parser::MetaError;
use crate::generator::parser::section_splitter::{
    closed_sections, header_name, is_header, section_kind_of, sections_outcome, split_line,
    split_upto, SectionKind, SectionModel, SplitState,
};
use crate::scan::{line_bytes, lines_from, split_lines, strip_cr, utf8_len};

verus! {

/// The lines put back together, each followed by `\n`.
pub open spec fn join_lines(ls: Seq<Seq<char>>) -> Seq<char>
    decreases ls.len(),
{
    if ls.len() == 0 {
        seq![]
    } else {
        ls[0].push('\n') + join_lines(ls.drop_first())
    }
}

/// The text holds no carriage return.
pub open spec fn no_cr(s: Seq<char>) -> bool {
    forall|i: int| 0 <= i < s.len() ==> s[i] != '\r'
}

/// The name in a section's header.
pub open spec fn section_name(k: SectionKind) -> Seq<char> {
    match k {
        SectionKind::Metadata => "metadata"@,
        SectionKind::Score => "score"@,
        SectionKind::Lyrics => "lyrics"@,
    }
}

/// A section's header line, with its line break.
pub open spec fn header_text(k: SectionKind) -> Seq<char> {
    seq!['['] + section_name(k) + seq![']', '\n']
}

/// Section `s` stands in `input` at character position `p`: its content offset is the
/// UTF-8 length of the text before `p`, that text ends with the section's header line,
/// and the content is the text from `p` on.
pub open spec fn section_stands_at(input: Seq<char>, s: SectionModel, p: int) -> bool {
    &&& header_text(s.0).len() <= p
    &&& p + s.1.len() <= input.len()
    &&& s.2 == utf8_len(input.take(p))
    &&& input.subrange(p - header_text(s.0).len(), p) == header_text(s.0)
    &&& input.subrange(p, p + s.1.len()) == s.1
}

proof fn lemma_join_append(a: Seq<Seq<char>>, b: Seq<Seq<char>>)
    ensures
        join_lines(a + b) == join_lines(a) + join_lines(b),
    decreases a.len(),
{
    if a.len() == 0 {
        assert(a + b =~= b);
    } else {
        lemma_join_append(a.drop_first(), b);
        assert((a + b).drop_first() =~= a.drop_first() + b);
        assert((a + b)[0] == a[0]);
    }
}

proof fn lemma_join_one(x: Seq<char>)
    ensures
        join_lines(seq![x]) == x.push('\n'),
{
    assert(seq![x].drop_first() =~= Seq::<Seq<char>>::empty());
    assert(join_lines(Seq::<Seq<char>>::empty()) == Seq::<char>::empty());
    assert(x.push('\n') + Seq::<char>::empty() =~= x.push('\n'));
}

proof fn lemma_utf8_append(a: Seq<char>, b: Seq<char>)
    ensures
        utf8_len(a + b) == utf8_len(a) + utf8_len(b),
    decreases b.len(),
{
    if b.len() == 0 {
        assert(a + b =~= a);
    } else {
        lemma_utf8_append(a, b.drop_last());
        assert((a + b).drop_last() =~= a + b.drop_last());
    }
}

proof fn lemma_line_bytes_join(ls: Seq<Seq<char>>, k: int)
    requires
        0 <= k <= ls.len(),
    ensures
        line_bytes(ls, k) == utf8_len(join_lines(ls.take(k))),
    decreases k,
{
    if k == 0 {
        assert(ls.take(0) =~= Seq::<Seq<char>>::empty());
    } else {
        lemma_line_bytes_join(ls, k - 1);
        assert(ls.take(k) =~= ls.take(k - 1) + seq![ls[k - 1]]);
        lemma_join_append(ls.take(k - 1), seq![ls[k - 1]]);
        lemma_join_one(ls[k - 1]);
        lemma_utf8_append(join_lines(ls.take(k - 1)), ls[k - 1].push('\n'));
        assert(ls[k - 1].push('\n').drop_last() =~= ls[k - 1]);
    }
}

proof fn lemma_lines_join(rest: Seq<char>, cur: Seq<char>)
    requires
        no_cr(rest),
        no_cr(cur),
        (rest.len() > 0 && rest.last() == '\n') || (rest.len() == 0 && cur.len() == 0),
    ensures
        join_lines(lines_from(rest, cur)) == cur + rest,
    decreases rest.len(),
{
    if rest.len() == 0 {
        assert(cur + rest =~= Seq::<char>::empty());
    } else if rest[0] == '\n' {
        let t = rest.drop_first();
        if cur.len() > 0 {
            assert(cur.last() != '\r');
        }
        assert(strip_cr(cur) == cur);
        lemma_lines_join(t, seq![]);
        let ls = seq![cur] + lines_from(t, seq![]);
        assert(ls[0] == cur);
        assert(ls.drop_first() =~= lines_from(t, seq![]));
        assert(Seq::<char>::empty() + t =~= t);
        assert(cur.push('\n') + t =~= cur + rest);
    } else {
        let t = rest.drop_first();
        assert(t.len() > 0 && t.last() == '\n');
        let c2 = cur.push(rest[0]);
        assert(no_cr(c2)) by {
            assert forall|i: int| 0 <= i < c2.len() implies c2[i] != '\r' by {
                if i < cur.len() {
                    assert(c2[i] == cur[i]);
                } else {
                    assert(c2[i] == rest[0]);
                }
            }
        }
        lemma_lines_join(t, c2);
        assert(c2 + t =~= cur + rest);
    }
}

/// Section `s` comes from header line `h` and holds the lines after it up to line `e`.
pub open spec fn section_from(ls: Seq<Seq<char>>, s: SectionModel, h: int, e: int) -> bool {
    &&& 0 <= h < e <= ls.len()
    &&& is_header(ls[h])
    &&& section_kind_of(header_name(ls[h])) == Some(s.0)
    &&& s.2 == line_bytes(ls, h + 1)
    &&& s.1 == join_lines(ls.subrange(h + 1, e))
}

/// Section `s` comes from a header and the lines after it, within the first `n` lines.
pub open spec fn section_within(ls: Seq<Seq<char>>, s: SectionModel, n: int) -> bool {
    exists|h: int, e: int| e <= n && #[trigger] section_from(ls, s, h, e)
}

/// Section `s` stands somewhere in `input`.
pub open spec fn section_stands(input: Seq<char>, s: SectionModel) -> bool {
    exists|p: int| #[trigger] section_stands_at(input, s, p)
}

/// Every section closed after `n` lines comes from a header and the lines after it,
/// and so does the one being read, up to line `n`.
pub open spec fn located(ls: Seq<Seq<char>>, st: SplitState, n: int) -> bool {
    &&& forall|i: int| 0 <= i < st.sections.len() ==> #[trigger] section_within(ls, st.sections[i], n)
    &&& st.current matches Some(k) ==> exists|h: int|
        #[trigger] section_from(ls, (k, st.content, st.content_offset), h, n)
}

proof fn lemma_split_located(ls: Seq<Seq<char>>, n: int)
    requires
        0 <= n <= ls.len(),
        split_upto(ls, n) is Ok,
    ensures
        located(ls, split_upto(ls, n)->Ok_0, n),
    decreases n,
{
    if n > 0 {
        lemma_split_located(ls, n - 1);
        let st = split_upto(ls, n - 1)->Ok_0;
        let nx = split_upto(ls, n)->Ok_0;
        let line = ls[n - 1];
        if is_header(line) {
            let k = section_kind_of(header_name(line))->Some_0;
            assert(nx.current == Some(k));
            assert(nx.content == Seq::<char>::empty());
            assert(nx.content_offset == line_bytes(ls, n));
            assert(section_from(ls, (k, nx.content, nx.content_offset), n - 1, n)) by {
                assert(ls.subrange(n, n) =~= Seq::<Seq<char>>::empty());
            }
            assert(nx.sections == closed_sections(st));
            assert forall|i: int| #![trigger nx.sections[i]] 0 <= i < nx.sections.len() implies section_within(ls, nx.sections[i], n) by {
                if i < st.sections.len() {
                    assert(nx.sections[i] == st.sections[i]);
                    assert(section_within(ls, st.sections[i], n - 1));
                    let (h, e) = choose|h: int, e: int| e <= n - 1 && #[trigger] section_from(ls, st.sections[i], h, e);
                    assert(section_from(ls, nx.sections[i], h, e));
                } else {
                    let kk = st.current->Some_0;
                    let h = choose|h: int| #[trigger] section_from(ls, (kk, st.content, st.content_offset), h, n - 1);
                    assert(nx.sections[i] == (kk, st.content, st.content_offset));
                    assert(section_from(ls, nx.sections[i], h, n - 1));
                }
            }
        } else if st.current is Some {
            let kk = st.current->Some_0;
            let h = choose|h: int| #[trigger] section_from(ls, (kk, st.content, st.content_offset), h, n - 1);
            assert(ls.subrange(h + 1, n) =~= ls.subrange(h + 1, n - 1) + seq![line]);
            lemma_join_append(ls.subrange(h + 1, n - 1), seq![line]);
            lemma_join_one(line);
            assert(section_from(ls, (kk, nx.content, nx.content_offset), h, n));
            assert(nx.sections == st.sections);
            assert forall|i: int| #![trigger nx.sections[i]] 0 <= i < nx.sections.len() implies section_within(ls, nx.sections[i], n) by {
                assert(nx.sections[i] == st.sections[i]);
                assert(section_within(ls, st.sections[i], n - 1));
                    let (h, e) = choose|h: int, e: int| e <= n - 1 && #[trigger] section_from(ls, st.sections[i], h, e);
                assert(section_from(ls, nx.sections[i], h, e));
            }
        } else {
            assert(nx == st);
            assert forall|i: int| #![trigger nx.sections[i]] 0 <= i < nx.sections.len() implies section_within(ls, nx.sections[i], n) by {
                assert(nx.sections[i] == st.sections[i]);
                assert(section_within(ls, st.sections[i], n - 1));
                    let (h, e) = choose|h: int, e: int| e <= n - 1 && #[trigger] section_from(ls, st.sections[i], h, e);
                assert(section_from(ls, nx.sections[i], h, e));
            }
        }
        assert(located(ls, nx, n));
    } else {
        assert(split_upto(ls, n)->Ok_0.sections.len() == 0);
        assert(located(ls, split_upto(ls, n)->Ok_0, n));
    }
}

proof fn lemma_section_stands(input: Seq<char>, ls: Seq<Seq<char>>, s: SectionModel, h: int, e: int)
    requires
        join_lines(ls) == input,
        section_from(ls, s, h, e),
    ensures
        section_stands_at(input, s, join_lines(ls.take(h + 1)).len() as int),
{
    let a = join_lines(ls.take(h));
    let line = ls[h];
    let name = header_name(line);
    assert(name == section_name(s.0));
    assert(line =~= seq!['['] + name + seq![']']);
    assert(line.push('\n') =~= header_text(s.0));
    assert(ls.take(h + 1) =~= ls.take(h) + seq![line]);
    lemma_join_append(ls.take(h), seq![line]);
    lemma_join_one(line);
    let pre = join_lines(ls.take(h + 1));
    let mid = join_lines(ls.subrange(h + 1, e));
    let post = join_lines(ls.skip(e));
    assert(ls =~= ls.take(h + 1) + (ls.subrange(h + 1, e) + ls.skip(e)));
    lemma_join_append(ls.take(h + 1), ls.subrange(h + 1, e) + ls.skip(e));
    lemma_join_append(ls.subrange(h + 1, e), ls.skip(e));
    assert(input == pre + (mid + post));
    let p = pre.len() as int;
    assert(input.take(p) =~= pre);
    lemma_line_bytes_join(ls, h + 1);
    assert(pre == a + header_text(s.0));
    assert(input.subrange(p - header_text(s.0).len(), p) =~= header_text(s.0));
    assert(input.subrange(p, p + s.1.len()) =~= mid);
}

/// Law: each section's content starts right after its header line: for a text with no
/// carriage returns that ends with a line break, the content offset of every section is
/// the UTF-8 length of the text before a position at which the text has just had the
/// section's `[name]` header line, and the content is the text from there on.
pub proof fn section_contents_follow_their_headers(input: Seq<char>)
    requires
        no_cr(input),
        input.len() == 0 || input.last() == '\n',
        sections_outcome(input) is Ok,
    ensures
        forall|i: int|
            0 <= i < sections_outcome(input)->Ok_0.len() ==> #[trigger] section_stands(input, sections_outcome(input)->Ok_0[i]),
{
    let ls = split_lines(input);
    lemma_lines_join(input, seq![]);
    assert(Seq::<char>::empty() + input =~= input);
    let n = ls.len() as int;
    lemma_split_located(ls, n);
    let st = split_upto(ls, n)->Ok_0;
    let v = sections_outcome(input)->Ok_0;
    assert(v == closed_sections(st));
    assert forall|i: int| 0 <= i < v.len() implies #[trigger] section_stands(input, v[i]) by {
        if i < st.sections.len() {
            assert(v[i] == st.sections[i]);
            assert(section_within(ls, st.sections[i], n));
            let (h, e) = choose|h: int, e: int| e <= n && #[trigger] section_from(ls, st.sections[i], h, e);
            lemma_section_stands(input, ls, v[i], h, e);
            assert(section_stands_at(input, v[i], join_lines(ls.take(h + 1)).len() as int));
        } else {
            let kk = st.current->Some_0;
            let h = choose|h: int| #[trigger] section_from(ls, (kk, st.content, st.content_offset), h, n);
            assert(v[i] == (kk, st.content, st.content_offset));
            lemma_section_stands(input, ls, v[i], h, n);
            assert(section_stands_at(input, v[i], join_lines(ls.take(h + 1)).len() as int));
        }
    }
}

} // verus!
