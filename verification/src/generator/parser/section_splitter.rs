use vstd::prelude::*;

use crate::error::{JianPuError, Span};
use crate::generator::parser::metadata_parser::{span_of, MetaError};
use crate::generator::parser::section_layout::{no_cr, section_contents_follow_their_headers, section_stands};
use crate::scan::{
    chars_equal, copy_range, lemma_split_lines_bytes, lemma_split_lines_short, line_bytes, lines,
    push_chars, split_lines, utf8_len, utf8_len_of, views,
};
use crate::text::{chars_of, string_from_chars};

verus! {

/// One `[name]` section of a score file: its kind, the text of its lines (each followed
/// by `\n`) and the byte offset where that text begins.
pub struct RawSection {
    pub kind: SectionKind,
    pub content: String,
    /// Byte offset in the source text where this section's content begins.
    pub content_offset: usize,
}

#[derive(Debug, Clone, Copy, PartialEq, Eq, Structural)]
pub enum SectionKind {
    Metadata,
    Score,
    Lyrics,
}

/// A section as a plain value.
pub type SectionModel = (SectionKind, Seq<char>, int);

impl RawSection {
    pub open spec fn model(&self) -> SectionModel {
        (self.kind, self.content@, self.content_offset as int)
    }
}

/// A line that starts with `[` and ends with `]` opens a section.
pub open spec fn is_header(line: Seq<char>) -> bool {
    line.len() > 0 && line[0] == '[' && line.last() == ']'
}

/// The text between the brackets of a header line.
pub open spec fn header_name(line: Seq<char>) -> Seq<char> {
    line.subrange(1, line.len() - 1)
}

/// The section that a header names.
pub open spec fn section_kind_of(name: Seq<char>) -> Option<SectionKind> {
    if name == "metadata"@ {
        Some(SectionKind::Metadata)
    } else if name == "score"@ {
        Some(SectionKind::Score)
    } else if name == "lyrics"@ {
        Some(SectionKind::Lyrics)
    } else {
        None
    }
}

/// The sections closed so far and the one being read, if any.
pub struct SplitState {
    pub sections: Seq<SectionModel>,
    pub current: Option<SectionKind>,
    pub content: Seq<char>,
    pub content_offset: int,
}

/// The sections, with the one being read closed.
pub open spec fn closed_sections(st: SplitState) -> Seq<SectionModel> {
    match st.current {
        Some(k) => st.sections.push((k, st.content, st.content_offset)),
        None => st.sections,
    }
}

/// The effect of one line that starts at byte `offset`: a header closes the section
/// being read and opens its own, whose text begins after the header line; another line
/// belongs to the section being read (before the first header it is dropped).
pub open spec fn split_line(st: SplitState, line: Seq<char>, offset: int) -> Result<SplitState, MetaError> {
    if is_header(line) {
        match section_kind_of(header_name(line)) {
            None => Err(
                (
                    span_of(offset, utf8_len(line) as int),
                    "unknown section: ["@ + header_name(line) + "]"@,
                ),
            ),
            Some(k) => Ok(
                SplitState {
                    sections: closed_sections(st),
                    current: Some(k),
                    content: seq![],
                    content_offset: offset + utf8_len(line) + 1,
                },
            ),
        }
    } else if st.current is Some {
        Ok(SplitState { content: st.content + line.push('\n'), ..st })
    } else {
        Ok(st)
    }
}

/// The state after the first `n` lines, or the first error.
pub open spec fn split_upto(ls: Seq<Seq<char>>, n: int) -> Result<SplitState, MetaError>
    decreases n,
{
    if n <= 0 {
        Ok(SplitState { sections: seq![], current: None, content: seq![], content_offset: 0 })
    } else {
        match split_upto(ls, n - 1) {
            Err(e) => Err(e),
            Ok(st) => split_line(st, ls[n - 1], line_bytes(ls, n - 1)),
        }
    }
}

/// The sections of a score file, or the first unknown section header.
pub open spec fn sections_outcome(input: Seq<char>) -> Result<Seq<SectionModel>, MetaError> {
    let ls = split_lines(input);
    match split_upto(ls, ls.len() as int) {
        Err(e) => Err(e),
        Ok(st) => Ok(closed_sections(st)),
    }
}

/// The plain values of a run of sections.
pub open spec fn section_models(v: Seq<RawSection>) -> Seq<SectionModel> {
    Seq::new(v.len(), |i: int| v[i].model())
}

fn is_header_line(line: &Vec<char>) -> (b: bool)
    ensures
        b == is_header(line@),
{
    let n = line.len();
    n > 0 && line[0] == '[' && line[n - 1] == ']'
}

fn kind_of(name: &Vec<char>) -> (k: Option<SectionKind>)
    ensures
        k == section_kind_of(name@),
{
    if chars_equal(name, "metadata") {
        Some(SectionKind::Metadata)
    } else if chars_equal(name, "score") {
        Some(SectionKind::Score)
    } else if chars_equal(name, "lyrics") {
        Some(SectionKind::Lyrics)
    } else {
        None
    }
}

proof fn lemma_split_err_persists(ls: Seq<Seq<char>>, k: int, n: int, e: MetaError)
    requires
        0 <= k <= n,
        split_upto(ls, k) == Err::<SplitState, MetaError>(e),
    ensures
        split_upto(ls, n) == Err::<SplitState, MetaError>(e),
    decreases n - k,
{
    if k < n {
        lemma_split_err_persists(ls, k, n - 1, e);
    }
}

/// Split a score file into its `[metadata]`, `[score]` and `[lyrics]` sections, in the
/// order they appear.
pub fn split_sections(input: &str) -> (r: Result<Vec<RawSection>, JianPuError>)
    requires
        4 * input@.len() + 1 <= usize::MAX,
    ensures
        match r {
            Ok(v) => sections_outcome(input@) == Ok::<Seq<SectionModel>, MetaError>(section_models(v@)),
            Err(e) => sections_outcome(input@) == Err::<Seq<SectionModel>, MetaError>((e.span, e.message@)),
        },
        no_cr(input@) && (input@.len() == 0 || input@.last() == '\n') ==> (r matches Ok(v) ==> forall|i: int|
            0 <= i < v@.len() ==> section_stands(input@, #[trigger] v@[i].model())),
{
    let chars = chars_of(input);
    let ls = lines(&chars);
    let ghost sl = split_lines(input@);
    let mut sections: Vec<RawSection> = Vec::new();
    let mut current_kind: Option<SectionKind> = None;
    let mut current_content: Vec<char> = Vec::new();
    let mut current_content_offset: usize = 0;
    let mut byte_offset: usize = 0;
    let mut i: usize = 0;
    proof {
        assert(section_models(sections@) == Seq::<SectionModel>::empty());
    }
    while i < ls.len()
        invariant
            views(ls@) == sl,
            sl == split_lines(input@),
            chars@ == input@,
            i <= ls@.len(),
            4 * input@.len() + 1 <= usize::MAX,
            byte_offset == line_bytes(sl, i as int),
            split_upto(sl, i as int) == Ok::<SplitState, MetaError>(
                SplitState {
                    sections: section_models(sections@),
                    current: current_kind,
                    content: current_content@,
                    content_offset: current_content_offset as int,
                },
            ),
        decreases ls@.len() - i,
    {
        let line = &ls[i];
        proof {
            assert(sl[i as int] == line@);
            lemma_split_lines_short(input@, i as int);
            lemma_split_lines_bytes(input@, i + 1);
            crate::scan::lemma_utf8_len_bound(line@);
        }
        let len = utf8_len_of(line);
        let ghost st = SplitState {
            sections: section_models(sections@),
            current: current_kind,
            content: current_content@,
            content_offset: current_content_offset as int,
        };
        if is_header_line(line) {
            let name = copy_range(line, 1, line.len() - 1);
            match kind_of(&name) {
                None => {
                    let mut m = chars_of("unknown section: [");
                    push_chars(&mut m, &name);
                    m.push(']');
                    let e = JianPuError::new(Span::new(byte_offset, byte_offset + len), string_from_chars(&m));
                    proof {
                        assert(e.message@ == "unknown section: ["@ + header_name(line@) + "]"@) by {
                            reveal_strlit("]");
                        }
                        lemma_split_err_persists(sl, i + 1, sl.len() as int, (e.span, e.message@));
                    }
                    return Err(e);
                },
                Some(kind) => {
                    if let Some(k) = current_kind {
                        let ghost before = sections@;
                        let s = RawSection {
                            kind: k,
                            content: string_from_chars(&current_content),
                            content_offset: current_content_offset,
                        };
                        sections.push(s);
                        proof {
                            assert(section_models(sections@) == section_models(before).push(s.model()));
                        }
                    }
                    current_kind = Some(kind);
                    current_content = Vec::new();
                    current_content_offset = byte_offset + len + 1;
                },
            }
        } else if current_kind.is_some() {
            push_chars(&mut current_content, line);
            current_content.push('\n');
        }
        byte_offset = byte_offset + len + 1;
        i += 1;
    }
    if let Some(k) = current_kind {
        let ghost before = sections@;
        let s = RawSection {
            kind: k,
            content: string_from_chars(&current_content),
            content_offset: current_content_offset,
        };
        sections.push(s);
        proof {
            assert(section_models(sections@) == section_models(before).push(s.model()));
        }
    }
    proof {
        if no_cr(input@) && (input@.len() == 0 || input@.last() == '\n') {
            assert(sections_outcome(input@) == Ok::<Seq<SectionModel>, MetaError>(section_models(sections@)));
            section_contents_follow_their_headers(input@);
            assert forall|i: int| 0 <= i < sections@.len() implies section_stands(input@, #[trigger] sections@[i].model()) by {
                assert(section_models(sections@)[i] == sections@[i].model());
                assert(section_stands(input@, sections_outcome(input@)->Ok_0[i]));
            }
        }
    }
    Ok(sections)
}

} // verus!
