use vstd::prelude::*;

use crate::generator::ast::parsed::JianPuPitch;
use crate::text::{chars_of, push_str, string_from_chars};

verus! {

/// The digit a pitch is written as.
pub open spec fn digit_of(pitch: JianPuPitch) -> char {
    match pitch {
        JianPuPitch::One => '1',
        JianPuPitch::Two => '2',
        JianPuPitch::Three => '3',
        JianPuPitch::Four => '4',
        JianPuPitch::Five => '5',
        JianPuPitch::Six => '6',
        JianPuPitch::Seven => '7',
    }
}

pub fn pitch_to_digit(pitch: &JianPuPitch) -> (c: char)
    ensures
        c == digit_of(*pitch),
{
    match pitch {
        JianPuPitch::One => '1',
        JianPuPitch::Two => '2',
        JianPuPitch::Three => '3',
        JianPuPitch::Four => '4',
        JianPuPitch::Five => '5',
        JianPuPitch::Six => '6',
        JianPuPitch::Seven => '7',
    }
}

/// How one character is written in XML text: `&`, `<`, `>` and `"` as entities.
pub open spec fn escape_char(c: char) -> Seq<char> {
    if c == '&' {
        "&amp;"@
    } else if c == '<' {
        "&lt;"@
    } else if c == '>' {
        "&gt;"@
    } else if c == '"' {
        "&quot;"@
    } else {
        seq![c]
    }
}

/// A text with each character escaped.
pub open spec fn escaped(s: Seq<char>) -> Seq<char>
    decreases s.len(),
{
    if s.len() == 0 {
        seq![]
    } else {
        escaped(s.drop_last()) + escape_char(s.last())
    }
}

/// Law: escaped text holds no `<`, `>` or `"`, so it cannot open or close a tag or end
/// an attribute; a text without `&`, `<`, `>` and `"` is left as it is.
pub proof fn escaped_text_is_safe_in_xml(s: Seq<char>)
    ensures
        forall|i: int| 0 <= i < escaped(s).len() ==> #[trigger] escaped(s)[i] != '<' && escaped(s)[i] != '>'
            && escaped(s)[i] != '"',
        (forall|i: int| 0 <= i < s.len() ==> #[trigger] s[i] != '&' && s[i] != '<' && s[i] != '>' && s[i] != '"')
            ==> escaped(s) == s,
    decreases s.len(),
{
    if s.len() > 0 {
        let d = s.drop_last();
        escaped_text_is_safe_in_xml(d);
        let c = s.last();
        reveal_strlit("&amp;");
        reveal_strlit("&lt;");
        reveal_strlit("&gt;");
        reveal_strlit("&quot;");
        let e = escape_char(c);
        assert(forall|j: int| 0 <= j < e.len() ==> #[trigger] e[j] != '<' && e[j] != '>' && e[j] != '"');
        let r = escaped(s);
        assert(r == escaped(d) + e);
        assert forall|i: int| 0 <= i < r.len() implies #[trigger] r[i] != '<' && r[i] != '>' && r[i] != '"' by {
            if i < escaped(d).len() {
                assert(r[i] == escaped(d)[i]);
            } else {
                assert(r[i] == e[i - escaped(d).len()]);
            }
        }
        if forall|i: int| 0 <= i < s.len() ==> #[trigger] s[i] != '&' && s[i] != '<' && s[i] != '>' && s[i] != '"' {
            assert forall|i: int| 0 <= i < d.len() implies #[trigger] d[i] != '&' && d[i] != '<' && d[i] != '>' && d[i]
                != '"' by {
                assert(d[i] == s[i]);
            }
            assert(s[s.len() - 1] == c);
            assert(r =~= s);
        }
    } else {
        assert(escaped(s) =~= s);
    }
}

/// The text with `&`, `<`, `>` and `"` replaced by their XML entities.
pub fn escape_xml(text: &str) -> (r: String)
    ensures
        r@ == escaped(text@),
        forall|i: int| 0 <= i < r@.len() ==> #[trigger] r@[i] != '<' && r@[i] != '>' && r@[i] != '"',
        (forall|i: int|
            0 <= i < text@.len() ==> #[trigger] text@[i] != '&' && text@[i] != '<' && text@[i] != '>'
                && text@[i] != '"') ==> r@ == text@,
{
    proof {
        escaped_text_is_safe_in_xml(text@);
    }
    let chars = chars_of(text);
    let mut out: Vec<char> = Vec::new();
    let mut i: usize = 0;
    while i < chars.len()
        invariant
            i <= chars@.len(),
            chars@ == text@,
            out@ == escaped(chars@.take(i as int)),
        decreases chars@.len() - i,
    {
        let c = chars[i];
        proof {
            assert(chars@.take(i + 1).drop_last() == chars@.take(i as int));
        }
        if c == '&' {
            push_str(&mut out, "&amp;");
        } else if c == '<' {
            push_str(&mut out, "&lt;");
        } else if c == '>' {
            push_str(&mut out, "&gt;");
        } else if c == '"' {
            push_str(&mut out, "&quot;");
        } else {
            out.push(c);
        }
        i += 1;
    }
    proof {
        assert(chars@.take(i as int) == chars@);
    }
    string_from_chars(&out)
}

} // verus!
