//! Line splitting, trimming and number parsing over character sequences,
//! with the same results as the corresponding `str` methods of std.
use vstd::prelude::*;

verus! {

/// Whether `c` has the Unicode `White_Space` property (what `char::is_whitespace` tests).
pub open spec fn is_white(c: char) -> bool {
    let n = c as u32;
    ||| 0x9 <= n <= 0xD
    ||| n == 0x20
    ||| n == 0x85
    ||| n == 0xA0
    ||| n == 0x1680
    ||| 0x2000 <= n <= 0x200A
    ||| n == 0x2028
    ||| n == 0x2029
    ||| n == 0x202F
    ||| n == 0x205F
    ||| n == 0x3000
}

pub fn char_is_white(c: char) -> (b: bool)
    ensures
        b == is_white(c),
{
    let n = c as u32;
    (0x9 <= n && n <= 0xD) || n == 0x20 || n == 0x85 || n == 0xA0 || n == 0x1680 || (0x2000 <= n
        && n <= 0x200A) || n == 0x2028 || n == 0x2029 || n == 0x202F || n == 0x205F || n == 0x3000
}


/// `s` without its leading characters that satisfy `is_white`.
pub open spec fn trim_start_white(s: Seq<char>) -> Seq<char>
    decreases s.len(),
{
    if s.len() > 0 && is_white(s[0]) {
        trim_start_white(s.drop_first())
    } else {
        s
    }
}

/// `s` without its trailing characters that satisfy `is_white`.
pub open spec fn trim_end_white(s: Seq<char>) -> Seq<char>
    decreases s.len(),
{
    if s.len() > 0 && is_white(s.last()) {
        trim_end_white(s.drop_last())
    } else {
        s
    }
}

/// `s` with leading and trailing whitespace removed (`str::trim`).
pub open spec fn trimmed(s: Seq<char>) -> Seq<char> {
    trim_end_white(trim_start_white(s))
}

/// `s` without its leading copies of `c`.
pub open spec fn trim_start_char(s: Seq<char>, c: char) -> Seq<char>
    decreases s.len(),
{
    if s.len() > 0 && s[0] == c {
        trim_start_char(s.drop_first(), c)
    } else {
        s
    }
}

/// `s` without its trailing copies of `c`.
pub open spec fn trim_end_char(s: Seq<char>, c: char) -> Seq<char>
    decreases s.len(),
{
    if s.len() > 0 && s.last() == c {
        trim_end_char(s.drop_last(), c)
    } else {
        s
    }
}

/// `s` with all leading and trailing copies of `c` removed (`str::trim_matches` with a char).
pub open spec fn trimmed_char(s: Seq<char>, c: char) -> Seq<char> {
    trim_end_char(trim_start_char(s, c), c)
}

/// The characters of `s` from `i` to `j`.
pub fn copy_range(s: &Vec<char>, i: usize, j: usize) -> (t: Vec<char>)
    requires
        i <= j <= s@.len(),
    ensures
        t@ == s@.subrange(i as int, j as int),
{
    let mut t: Vec<char> = Vec::new();
    let mut k = i;
    while k < j
        invariant
            i <= k <= j <= s@.len(),
            t@ == s@.subrange(i as int, k as int),
        decreases j - k,
    {
        t.push(s[k]);
        proof {
            assert(s@.subrange(i as int, k + 1) == s@.subrange(i as int, k as int).push(s@[k as int]));
        }
        k += 1;
    }
    t
}

/// `str::trim` on a character vector.
pub fn trim(s: &Vec<char>) -> (t: Vec<char>)
    ensures
        t@ == trimmed(s@),
{
    let n = s.len();
    let mut i: usize = 0;
    proof {
        assert(s@.skip(0) == s@);
    }
    while i < n && char_is_white(s[i])
        invariant
            i <= n == s@.len(),
            trim_start_white(s@) == trim_start_white(s@.skip(i as int)),
        decreases n - i,
    {
        proof {
            assert(s@.skip(i as int).drop_first() == s@.skip(i + 1));
        }
        i += 1;
    }
    let ghost front = s@.skip(i as int);
    proof {
        assert(trim_start_white(front) == front);
        assert(front == s@.subrange(i as int, n as int));
    }
    let mut j: usize = n;
    while j > i && char_is_white(s[j - 1])
        invariant
            i <= j <= n == s@.len(),
            trim_start_white(s@) == s@.subrange(i as int, n as int),
            trimmed(s@) == trim_end_white(s@.subrange(i as int, j as int)),
        decreases j - i,
    {
        proof {
            assert(s@.subrange(i as int, j as int).drop_last() == s@.subrange(i as int, j - 1));
        }
        j -= 1;
    }
    copy_range(s, i, j)
}

/// `str::trim_matches(c)` on a character vector.
pub fn trim_char(s: &Vec<char>, c: char) -> (t: Vec<char>)
    ensures
        t@ == trimmed_char(s@, c),
{
    let n = s.len();
    let mut i: usize = 0;
    proof {
        assert(s@.skip(0) == s@);
    }
    while i < n && s[i] == c
        invariant
            i <= n == s@.len(),
            trim_start_char(s@, c) == trim_start_char(s@.skip(i as int), c),
        decreases n - i,
    {
        proof {
            assert(s@.skip(i as int).drop_first() == s@.skip(i + 1));
        }
        i += 1;
    }
    proof {
        assert(s@.skip(i as int) == s@.subrange(i as int, n as int));
    }
    let mut j: usize = n;
    while j > i && s[j - 1] == c
        invariant
            i <= j <= n == s@.len(),
            trim_start_char(s@, c) == s@.subrange(i as int, n as int),
            trimmed_char(s@, c) == trim_end_char(s@.subrange(i as int, j as int), c),
        decreases j - i,
    {
        proof {
            assert(s@.subrange(i as int, j as int).drop_last() == s@.subrange(i as int, j - 1));
        }
        j -= 1;
    }
    copy_range(s, i, j)
}


/// `l` without one trailing carriage return.
pub open spec fn strip_cr(l: Seq<char>) -> Seq<char> {
    if l.len() > 0 && l.last() == '\r' {
        l.drop_last()
    } else {
        l
    }
}

/// The lines of `rest`, where `cur` holds the characters of a line already begun:
/// a line ends at `\n` (and then loses one trailing `\r`); a last line without `\n`
/// is kept as it is, unless it is empty.
pub open spec fn lines_from(rest: Seq<char>, cur: Seq<char>) -> Seq<Seq<char>>
    decreases rest.len(),
{
    if rest.len() == 0 {
        if cur.len() == 0 {
            seq![]
        } else {
            seq![cur]
        }
    } else if rest[0] == '\n' {
        seq![strip_cr(cur)] + lines_from(rest.drop_first(), seq![])
    } else {
        lines_from(rest.drop_first(), cur.push(rest[0]))
    }
}

/// The lines of a text, as `str::lines` yields them.
pub open spec fn split_lines(s: Seq<char>) -> Seq<Seq<char>> {
    lines_from(s, seq![])
}

/// The contents of a sequence of character vectors.
pub open spec fn views(v: Seq<Vec<char>>) -> Seq<Seq<char>> {
    Seq::new(v.len(), |i: int| v[i]@)
}

/// `str::lines` on a character vector.
pub fn lines(s: &Vec<char>) -> (out: Vec<Vec<char>>)
    ensures
        views(out@) == split_lines(s@),
{
    let n = s.len();
    let mut out: Vec<Vec<char>> = Vec::new();
    let mut cur: Vec<char> = Vec::new();
    let mut i: usize = 0;
    proof {
        assert(s@.skip(0) == s@);
        assert(views(out@) + lines_from(s@.skip(0), cur@) == split_lines(s@));
    }
    while i < n
        invariant
            i <= n == s@.len(),
            views(out@) + lines_from(s@.skip(i as int), cur@) == split_lines(s@),
        decreases n - i,
    {
        let c = s[i];
        proof {
            assert(s@.skip(i as int).drop_first() == s@.skip(i + 1));
            assert(s@.skip(i as int)[0] == c);
        }
        if c == '\n' {
            let ghost before = views(out@);
            let ghost line = strip_cr(cur@);
            if cur.len() > 0 && cur[cur.len() - 1] == '\r' {
                cur.pop();
            }
            assert(cur@ == line);
            out.push(cur);
            cur = Vec::new();
            proof {
                assert(views(out@) == before.push(line));
                assert(before + (seq![line] + lines_from(s@.skip(i + 1), seq![])) == before.push(
                    line,
                ) + lines_from(s@.skip(i + 1), seq![]));
                assert(cur@ == Seq::<char>::empty());
            }
        } else {
            cur.push(c);
        }
        i += 1;
    }
    proof {
        assert(s@.skip(n as int).len() == 0);
    }
    if cur.len() > 0 {
        let ghost before = views(out@);
        let ghost line = cur@;
        out.push(cur);
        proof {
            assert(views(out@) == before.push(line));
            assert(before + seq![line] == before.push(line));
        }
    } else {
        proof {
            assert(views(out@) + Seq::<Seq<char>>::empty() == views(out@));
        }
    }
    out
}

/// The number of bytes that `c` takes in UTF-8.
pub open spec fn char_utf8_len(c: char) -> nat {
    let n = c as u32;
    if n < 0x80 {
        1
    } else if n < 0x800 {
        2
    } else if n < 0x10000 {
        3
    } else {
        4
    }
}

/// The number of bytes that `s` takes in UTF-8 (`str::len`).
pub open spec fn utf8_len(s: Seq<char>) -> nat
    decreases s.len(),
{
    if s.len() == 0 {
        0
    } else {
        utf8_len(s.drop_last()) + char_utf8_len(s.last())
    }
}

pub proof fn lemma_utf8_len_bound(s: Seq<char>)
    ensures
        utf8_len(s) <= 4 * s.len(),
    decreases s.len(),
{
    if s.len() > 0 {
        lemma_utf8_len_bound(s.drop_last());
    }
}

/// The UTF-8 byte length of a character vector.
pub fn utf8_len_of(s: &Vec<char>) -> (n: usize)
    requires
        4 * s@.len() <= usize::MAX,
    ensures
        n == utf8_len(s@),
{
    let mut total: usize = 0;
    let mut i: usize = 0;
    while i < s.len()
        invariant
            i <= s@.len(),
            4 * s@.len() <= usize::MAX,
            total == utf8_len(s@.take(i as int)),
        decreases s@.len() - i,
    {
        proof {
            assert(s@.take(i + 1).drop_last() == s@.take(i as int));
            lemma_utf8_len_bound(s@.take(i as int));
        }
        let n = s[i] as u32;
        let w: usize = if n < 0x80 {
            1
        } else if n < 0x800 {
            2
        } else if n < 0x10000 {
            3
        } else {
            4
        };
        total = total + w;
        i += 1;
    }
    proof {
        assert(s@.take(i as int) == s@);
    }
    total
}

/// The bytes that the first `k` lines account for, one more than each line's length
/// (for the `\n` after it).
pub open spec fn line_bytes(ls: Seq<Seq<char>>, k: int) -> int
    decreases k,
{
    if k <= 0 {
        0
    } else {
        line_bytes(ls, k - 1) + utf8_len(ls[k - 1]) + 1
    }
}

pub proof fn lemma_line_bytes_mono(ls: Seq<Seq<char>>, k: int, m: int)
    requires
        0 <= k <= m,
    ensures
        line_bytes(ls, k) <= line_bytes(ls, m),
    decreases m - k,
{
    if k < m {
        lemma_line_bytes_mono(ls, k, m - 1);
    }
}

proof fn lemma_line_bytes_cons(x: Seq<char>, ls: Seq<Seq<char>>, k: int)
    requires
        0 <= k <= ls.len(),
    ensures
        line_bytes(seq![x] + ls, k + 1) == utf8_len(x) + 1 + line_bytes(ls, k),
    decreases k,
{
    let xs = seq![x] + ls;
    if k > 0 {
        lemma_line_bytes_cons(x, ls, k - 1);
        assert(xs[k] == ls[k - 1]);
        assert(line_bytes(xs, k + 1) == line_bytes(xs, k) + utf8_len(xs[k]) + 1);
        assert(line_bytes(ls, k) == line_bytes(ls, k - 1) + utf8_len(ls[k - 1]) + 1);
    } else {
        assert(xs[0] == x);
        assert(line_bytes(xs, 1) == line_bytes(xs, 0) + utf8_len(xs[0]) + 1);
    }
}

proof fn lemma_lines_from_bytes(rest: Seq<char>, cur: Seq<char>)
    ensures
        line_bytes(lines_from(rest, cur), lines_from(rest, cur).len() as int) <= 4 * (rest.len()
            + cur.len()) + 1,
    decreases rest.len(),
{
    lemma_utf8_len_bound(cur);
    if rest.len() == 0 {
        if cur.len() > 0 {
            assert(line_bytes(seq![cur], 1) == line_bytes(seq![cur], 0) + utf8_len(cur) + 1);
        }
    } else if rest[0] == '\n' {
        let tail = lines_from(rest.drop_first(), seq![]);
        lemma_lines_from_bytes(rest.drop_first(), seq![]);
        lemma_line_bytes_cons(strip_cr(cur), tail, tail.len() as int);
        lemma_utf8_len_bound(strip_cr(cur));
    } else {
        lemma_lines_from_bytes(rest.drop_first(), cur.push(rest[0]));
    }
}

/// The lines of `s` account for at most `4 * |s| + 1` bytes.
pub proof fn lemma_split_lines_bytes(s: Seq<char>, k: int)
    requires
        0 <= k <= split_lines(s).len(),
    ensures
        line_bytes(split_lines(s), k) <= 4 * s.len() + 1,
{
    lemma_lines_from_bytes(s, seq![]);
    lemma_line_bytes_mono(split_lines(s), k, split_lines(s).len() as int);
}

/// Every line of `rest` is no longer than `rest` and `cur` together.
proof fn lemma_lines_from_short(rest: Seq<char>, cur: Seq<char>, j: int)
    requires
        0 <= j < lines_from(rest, cur).len(),
    ensures
        lines_from(rest, cur)[j].len() <= rest.len() + cur.len(),
    decreases rest.len(),
{
    if rest.len() > 0 {
        if rest[0] == '\n' {
            if j > 0 {
                lemma_lines_from_short(rest.drop_first(), seq![], j - 1);
            }
        } else {
            lemma_lines_from_short(rest.drop_first(), cur.push(rest[0]), j);
        }
    }
}

/// Every line of `s` is no longer than `s`.
pub proof fn lemma_split_lines_short(s: Seq<char>, j: int)
    requires
        0 <= j < split_lines(s).len(),
    ensures
        split_lines(s)[j].len() <= s.len(),
{
    lemma_lines_from_short(s, seq![], j);
}

/// The position of the first `c` in `s`, or `s.len()` if there is none.
pub open spec fn first_pos(s: Seq<char>, c: char) -> int
    decreases s.len(),
{
    if s.len() == 0 {
        0
    } else if s[0] == c {
        0
    } else {
        1 + first_pos(s.drop_first(), c)
    }
}

/// `str::split_once(c)`: the text before and after the first `c`, if there is one.
pub open spec fn split_once_spec(s: Seq<char>, c: char) -> Option<(Seq<char>, Seq<char>)> {
    let p = first_pos(s, c);
    if p < s.len() {
        Some((s.take(p), s.skip(p + 1)))
    } else {
        None
    }
}

/// The position of the first `c` in `s`, or its length.
pub fn find_char(s: &Vec<char>, c: char) -> (p: usize)
    ensures
        p == first_pos(s@, c),
        p <= s@.len(),
{
    let n = s.len();
    let mut i: usize = 0;
    proof {
        assert(s@.skip(0) == s@);
    }
    while i < n && s[i] != c
        invariant
            i <= n == s@.len(),
            first_pos(s@, c) == i + first_pos(s@.skip(i as int), c),
        decreases n - i,
    {
        proof {
            assert(s@.skip(i as int).drop_first() == s@.skip(i + 1));
        }
        i += 1;
    }
    i
}

/// `str::split_once(c)` on a character vector.
pub fn split_once(s: &Vec<char>, c: char) -> (r: Option<(Vec<char>, Vec<char>)>)
    ensures
        match r {
            Some((a, b)) => split_once_spec(s@, c) == Some((a@, b@)),
            None => split_once_spec(s@, c).is_none(),
        },
{
    let p = find_char(s, c);
    if p < s.len() {
        let a = copy_range(s, 0, p);
        let b = copy_range(s, p + 1, s.len());
        proof {
            assert(a@ == s@.take(p as int));
            assert(b@ == s@.skip(p + 1));
        }
        Some((a, b))
    } else {
        None
    }
}

/// Whether `c` is an ASCII decimal digit.
pub open spec fn is_digit(c: char) -> bool {
    48 <= (c as u32) <= 57
}

/// The value of the decimal digits `s`.
pub open spec fn digits_value(s: Seq<char>) -> int
    decreases s.len(),
{
    if s.len() == 0 {
        0
    } else {
        digits_value(s.drop_last()) * 10 + ((s.last() as u32) - 48)
    }
}

/// `s` is made of decimal digits only.
pub open spec fn all_digits(s: Seq<char>) -> bool {
    forall|i: int| 0 <= i < s.len() ==> is_digit(#[trigger] s[i])
}

/// The digits of an unsigned number: without one leading `+`.
pub open spec fn unsigned_digits(s: Seq<char>) -> Seq<char> {
    if s.len() > 0 && s[0] == '+' {
        s.drop_first()
    } else {
        s
    }
}

/// What `str::parse::<u32>` gives: the value of an optional `+` followed by at least one
/// decimal digit and nothing else, where it fits in a `u32`.
pub open spec fn parse_u32_spec(s: Seq<char>) -> Option<u32> {
    let d = unsigned_digits(s);
    if d.len() > 0 && all_digits(d) && digits_value(d) <= u32::MAX {
        Some(digits_value(d) as u32)
    } else {
        None
    }
}

proof fn lemma_digits_value_prefix(d: Seq<char>, k: int)
    requires
        0 <= k <= d.len(),
        all_digits(d),
    ensures
        0 <= digits_value(d.take(k)) <= digits_value(d),
    decreases d.len(),
{
    if k == d.len() {
        assert(d.take(k) == d);
        lemma_digits_value_nonneg(d);
    } else {
        assert(d.drop_last().take(k) == d.take(k));
        assert(all_digits(d.drop_last()) && is_digit(d[d.len() - 1]));
        lemma_digits_value_prefix(d.drop_last(), k);
    }
}

proof fn lemma_digits_value_nonneg(d: Seq<char>)
    requires
        all_digits(d),
    ensures
        0 <= digits_value(d),
    decreases d.len(),
{
    if d.len() > 0 {
        assert(all_digits(d.drop_last()) && is_digit(d[d.len() - 1]));
        lemma_digits_value_nonneg(d.drop_last());
    }
}

/// `str::parse::<u32>` on a character vector.
pub fn parse_u32(s: &Vec<char>) -> (r: Option<u32>)
    ensures
        r == parse_u32_spec(s@),
{
    let n = s.len();
    let start: usize = if n > 0 && s[0] == '+' {
        1
    } else {
        0
    };
    let ghost d = unsigned_digits(s@);
    proof {
        assert(d == s@.skip(start as int));
    }
    if start == n {
        return None;
    }
    let mut acc: u64 = 0;
    let mut i: usize = start;
    while i < n
        invariant
            start <= i <= n == s@.len(),
            start < n,
            d == s@.skip(start as int),
            d == unsigned_digits(s@),
            all_digits(s@.subrange(start as int, i as int)),
            acc == digits_value(s@.subrange(start as int, i as int)),
            acc <= u32::MAX,
        decreases n - i,
    {
        let c = s[i];
        let code = c as u32;
        if code < 48 || code > 57 {
            proof {
                assert(d[i - start] == c);
                assert(!is_digit(d[i - start]));
            }
            return None;
        }
        proof {
            let pre = s@.subrange(start as int, i as int);
            assert(s@.subrange(start as int, i + 1) == pre.push(c));
            assert(s@.subrange(start as int, i + 1).drop_last() == pre);
        }
        acc = acc * 10 + (code - 48) as u64;
        i += 1;
        assert(acc == digits_value(s@.subrange(start as int, i as int)));
        if acc > 0xFFFF_FFFF {
            proof {
                if all_digits(d) {
                    assert(d.take(i - start) == s@.subrange(start as int, i as int));
                    lemma_digits_value_prefix(d, i - start);
                }
            }
            return None;
        }
    }
    proof {
        assert(s@.subrange(start as int, n as int) == d);
    }
    Some(acc as u32)
}

/// Append the characters of `w`.
pub fn push_chars(v: &mut Vec<char>, w: &Vec<char>)
    ensures
        final(v)@ == old(v)@ + w@,
{
    let ghost start = v@;
    let mut i: usize = 0;
    while i < w.len()
        invariant
            i <= w@.len(),
            v@ == start + w@.take(i as int),
        decreases w@.len() - i,
    {
        v.push(w[i]);
        proof {
            assert(w@.take(i + 1) == w@.take(i as int).push(w@[i as int]));
        }
        i += 1;
    }
    proof {
        assert(w@.take(i as int) == w@);
    }
}

/// The characters of `a` are those of the string `b`.
pub fn chars_equal(a: &Vec<char>, b: &str) -> (r: bool)
    ensures
        r == (a@ == b@),
{
    let bv = crate::text::chars_of(b);
    if a.len() != bv.len() {
        return false;
    }
    let mut i: usize = 0;
    while i < a.len()
        invariant
            i <= a@.len() == bv@.len(),
            bv@ == b@,
            a@.take(i as int) == bv@.take(i as int),
        decreases a@.len() - i,
    {
        if a[i] != bv[i] {
            return false;
        }
        proof {
            assert(a@.take(i + 1) == a@.take(i as int).push(a@[i as int]));
            assert(bv@.take(i + 1) == bv@.take(i as int).push(bv@[i as int]));
        }
        i += 1;
    }
    proof {
        assert(a@.take(i as int) == a@);
        assert(bv@.take(i as int) == bv@);
    }
    true
}

} // verus!
