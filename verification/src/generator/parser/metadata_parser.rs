use vstd::prelude::*;

use crate::error::{JianPuError, Span};
use crate::generator::ast::parsed::ParsedMetadata;
use crate::scan::{
    chars_equal, lemma_split_lines_bytes, lemma_split_lines_short, line_bytes, lines, parse_u32,
    parse_u32_spec, push_chars, split_lines, split_once, split_once_spec, trim, trim_char,
    trimmed, trimmed_char, utf8_len, utf8_len_of, views,
};
use crate::text::{chars_of, string_from_chars};

verus! {

/// The fields of the `[metadata]` section read so far.
pub struct MetaState {
    pub title: Option<Seq<char>>,
    pub author: Option<Seq<char>>,
    pub cell_size: Option<u32>,
}

/// An error as a plain value: where and what.
pub type MetaError = (Span, Seq<char>);

/// The span `start..start + len`.
pub open spec fn span_of(start: int, len: int) -> Span {
    Span { start: start as usize, end: (start + len) as usize }
}

/// The effect of one line of the `[metadata]` section that starts at byte `offset`.
///
/// A blank line is skipped. Any other line is `key = value`: the key and value are
/// trimmed, and the value loses its surrounding double quotes. The keys are `title`,
/// `author` and `cell_size`, a positive integer; a later line overrides an earlier one.
pub open spec fn meta_line(st: MetaState, line: Seq<char>, offset: int) -> Result<MetaState, MetaError> {
    let t = trimmed(line);
    let span = span_of(offset, utf8_len(line) as int);
    if t.len() == 0 {
        Ok(st)
    } else {
        match split_once_spec(t, '=') {
            None => Err((span, "expected key = value, got: "@ + t)),
            Some((k, v)) => {
                let key = trimmed(k);
                let value = trimmed_char(trimmed(v), '"');
                if key == "title"@ {
                    Ok(MetaState { title: Some(value), ..st })
                } else if key == "author"@ {
                    Ok(MetaState { author: Some(value), ..st })
                } else if key == "cell_size"@ {
                    match parse_u32_spec(value) {
                        None => Err((span, "cell_size must be a positive integer, got: "@ + value)),
                        Some(n) => if n == 0 {
                            Err((span, "cell_size must be greater than zero"@))
                        } else {
                            Ok(MetaState { cell_size: Some(n), ..st })
                        },
                    }
                } else {
                    Err((span, "unknown metadata field: "@ + key))
                }
            },
        }
    }
}

/// The fields after the first `n` lines, or the first error. Line `k` starts at
/// `base` plus one more byte than the length of each line before it.
pub open spec fn meta_upto(ls: Seq<Seq<char>>, n: int, base: int) -> Result<MetaState, MetaError>
    decreases n,
{
    if n <= 0 {
        Ok(MetaState { title: None, author: None, cell_size: None })
    } else {
        match meta_upto(ls, n - 1, base) {
            Err(e) => Err(e),
            Ok(st) => meta_line(st, ls[n - 1], base + line_bytes(ls, n - 1)),
        }
    }
}

/// What the `[metadata]` section gives: title, author and cell size, or the first error;
/// a missing title (then a missing author) is an error at the empty span at `base`.
pub open spec fn metadata_outcome(content: Seq<char>, base: int) -> Result<
    (Seq<char>, Seq<char>, Option<u32>),
    MetaError,
> {
    let ls = split_lines(content);
    match meta_upto(ls, ls.len() as int, base) {
        Err(e) => Err(e),
        Ok(st) => match st.title {
            None => Err((span_of(base, 0), "missing required field: title"@)),
            Some(t) => match st.author {
                None => Err((span_of(base, 0), "missing required field: author"@)),
                Some(a) => Ok((t, a, st.cell_size)),
            },
        },
    }
}

struct MetaFields {
    title: Option<Vec<char>>,
    author: Option<Vec<char>>,
    cell_size: Option<u32>,
}

spec fn opt_chars(o: Option<Vec<char>>) -> Option<Seq<char>> {
    match o {
        Some(v) => Some(v@),
        None => None,
    }
}

impl MetaFields {
    spec fn model(&self) -> MetaState {
        MetaState {
            title: opt_chars(self.title),
            author: opt_chars(self.author),
            cell_size: self.cell_size,
        }
    }
}

/// An error at `span` whose message is `prefix` followed by `tail`.
fn error_with(span: Span, prefix: &str, tail: &Vec<char>) -> (e: JianPuError)
    ensures
        e.span == span,
        e.message@ == prefix@ + tail@,
{
    let mut m = chars_of(prefix);
    push_chars(&mut m, tail);
    JianPuError::new(span, string_from_chars(&m))
}

fn read_line(fields: &mut MetaFields, line: &Vec<char>, offset: usize, len: usize) -> (r: Result<(), JianPuError>)
    requires
        len == utf8_len(line@),
        offset + len <= usize::MAX,
    ensures
        match r {
            Ok(()) => meta_line(old(fields).model(), line@, offset as int) == Ok::<MetaState, MetaError>(final(fields).model()),
            Err(e) => meta_line(old(fields).model(), line@, offset as int) == Err::<MetaState, MetaError>((e.span, e.message@)),
        },
{
    let t = trim(line);
    let span = Span::new(offset, offset + len);
    if t.len() == 0 {
        return Ok(());
    }
    match split_once(&t, '=') {
        None => Err(error_with(span, "expected key = value, got: ", &t)),
        Some((k, v)) => {
            let key = trim(&k);
            let tv = trim(&v);
            let value = trim_char(&tv, '"');
            if chars_equal(&key, "title") {
                fields.title = Some(value);
                Ok(())
            } else if chars_equal(&key, "author") {
                fields.author = Some(value);
                Ok(())
            } else if chars_equal(&key, "cell_size") {
                match parse_u32(&value) {
                    None => Err(error_with(span, "cell_size must be a positive integer, got: ", &value)),
                    Some(n) => {
                        if n == 0 {
                            Err(JianPuError::new(span, String::from_str("cell_size must be greater than zero")))
                        } else {
                            fields.cell_size = Some(n);
                            Ok(())
                        }
                    },
                }
            } else {
                Err(error_with(span, "unknown metadata field: ", &key))
            }
        },
    }
}

/// Parse the `[metadata]` section, whose text starts at byte `base_offset` of the file.
pub fn parse_metadata(content: &str, base_offset: usize) -> (r: Result<ParsedMetadata, JianPuError>)
    requires
        base_offset + 4 * content@.len() + 1 <= usize::MAX,
    ensures
        match r {
            Ok(m) => metadata_outcome(content@, base_offset as int) == Ok::<
                (Seq<char>, Seq<char>, Option<u32>),
                MetaError,
            >((m.title@, m.author@, m.cell_size)),
            Err(e) => metadata_outcome(content@, base_offset as int) == Err::<
                (Seq<char>, Seq<char>, Option<u32>),
                MetaError,
            >((e.span, e.message@)),
        },
{
    let chars = chars_of(content);
    let ls = lines(&chars);
    let ghost sl = split_lines(content@);
    let mut fields = MetaFields { title: None, author: None, cell_size: None };
    let mut byte_offset = base_offset;
    let mut i: usize = 0;
    while i < ls.len()
        invariant
            views(ls@) == sl,
            sl == split_lines(content@),
            chars@ == content@,
            i <= ls@.len(),
            base_offset + 4 * content@.len() + 1 <= usize::MAX,
            byte_offset == base_offset + line_bytes(sl, i as int),
            meta_upto(sl, i as int, base_offset as int) == Ok::<MetaState, MetaError>(fields.model()),
        decreases ls@.len() - i,
    {
        let line = &ls[i];
        proof {
            assert(sl[i as int] == line@);
            lemma_split_lines_short(content@, i as int);
            lemma_split_lines_bytes(content@, i + 1);
            crate::scan::lemma_utf8_len_bound(line@);
        }
        let len = utf8_len_of(line);
        match read_line(&mut fields, line, byte_offset, len) {
            Ok(()) => {},
            Err(e) => {
                proof {
                    lemma_meta_err_persists(sl, i + 1, sl.len() as int, base_offset as int, (e.span, e.message@));
                }
                return Err(e);
            },
        }
        byte_offset = byte_offset + len + 1;
        i += 1;
    }
    let zero_span = Span::new(base_offset, base_offset);
    let MetaFields { title, author, cell_size } = fields;
    match title {
        None => Err(JianPuError::new(zero_span, String::from_str("missing required field: title"))),
        Some(t) => match author {
            None => Err(JianPuError::new(zero_span, String::from_str("missing required field: author"))),
            Some(a) => Ok(ParsedMetadata { title: string_from_chars(&t), author: string_from_chars(&a), cell_size }),
        },
    }
}

proof fn lemma_meta_err_persists(ls: Seq<Seq<char>>, k: int, n: int, base: int, e: MetaError)
    requires
        0 <= k <= n,
        meta_upto(ls, k, base) == Err::<MetaState, MetaError>(e),
    ensures
        meta_upto(ls, n, base) == Err::<MetaState, MetaError>(e),
    decreases n - k,
{
    if k < n {
        lemma_meta_err_persists(ls, k, n - 1, base, e);
    }
}

} // verus!
