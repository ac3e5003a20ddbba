//! Text that is safe inside HTML and inside URLs.
use vstd::prelude::*;

verus! {

/// A character as `askama` writes it into HTML: the five that mean something there become numeric
/// references.
pub open spec fn escaped_char(c: char) -> Seq<char> {
    if c == '"' {
        seq!['&', '#', '3', '4', ';']
    } else if c == '&' {
        seq!['&', '#', '3', '8', ';']
    } else if c == '\'' {
        seq!['&', '#', '3', '9', ';']
    } else if c == '<' {
        seq!['&', '#', '6', '0', ';']
    } else if c == '>' {
        seq!['&', '#', '6', '2', ';']
    } else {
        seq![c]
    }
}

/// A text as `askama` writes it into HTML.
pub open spec fn escaped(s: Seq<char>) -> Seq<char>
    decreases s.len(),
{
    if s.len() == 0 {
        Seq::empty()
    } else {
        escaped_char(s[0]) + escaped(s.drop_first())
    }
}

/// `askama::filters::escape` with the `Html` escaper: the text with `"`, `&`, `'`, `<` and `>`
/// written as numeric references.
#[verifier::external_body]
pub(crate) fn html(s: &str) -> (r: String)
    ensures
        r@ == escaped(s@),
{
    match askama::filters::escape(s, askama::filters::Html) {
        Ok(t) => t.to_string(),
        Err(e) => match e {},
    }
}

/// The bytes that stay as they are in a URL component.
pub open spec fn unreserved(b: u8) -> bool {
    ||| 48 <= b <= 57
    ||| 65 <= b <= 90
    ||| 97 <= b <= 122
    ||| b == 95
    ||| b == 46
    ||| b == 45
    ||| b == 126
}

/// A half byte as an upper-case hexadecimal digit.
pub open spec fn upper_hex(n: u8) -> char {
    if n < 10 {
        (48 + n) as char
    } else {
        (55 + n) as char
    }
}

/// A byte as it stands in a URL component.
pub open spec fn percent_byte(b: u8) -> Seq<char> {
    if unreserved(b) {
        seq![b as char]
    } else {
        seq!['%', upper_hex(b / 16), upper_hex(b % 16)]
    }
}

pub open spec fn percent_bytes(bytes: Seq<u8>) -> Seq<char>
    decreases bytes.len(),
{
    if bytes.len() == 0 {
        Seq::empty()
    } else {
        percent_byte(bytes[0]) + percent_bytes(bytes.drop_first())
    }
}

/// A text as it stands in a URL component: its UTF-8 bytes, percent-encoded but for letters,
/// digits and `_.-~`.
pub open spec fn percent(s: Seq<char>) -> Seq<char> {
    percent_bytes(vstd::utf8::encode_utf8(s))
}

/// `askama::filters::urlencode_strict`: percent-encodes each UTF-8 byte but for letters, digits and
/// `_.-~`.
#[verifier::external_body]
pub(crate) fn url(s: &str) -> (r: String)
    ensures
        r@ == percent(s@),
{
    match askama::filters::urlencode_strict(s) {
        Ok(t) => t.to_string(),
        Err(e) => match e {},
    }
}

/// Whether a character means something in HTML.
pub open spec fn is_markup(c: char) -> bool {
    c == '<' || c == '>' || c == '"' || c == '\''
}

/// Escaped text holds no tag and ends no attribute.
pub proof fn law_escaped_is_inert(s: Seq<char>)
    ensures
        forall|i: int| 0 <= i < escaped(s).len() ==> !is_markup(#[trigger] escaped(s)[i]),
    decreases s.len(),
{
    if s.len() > 0 {
        law_escaped_is_inert(s.drop_first());
        let a = escaped_char(s[0]);
        let b = escaped(s.drop_first());
        assert forall|i: int| 0 <= i < escaped(s).len() implies !is_markup(
            #[trigger] escaped(s)[i],
        ) by {
            if i < a.len() {
                assert(escaped(s)[i] == a[i]);
            } else {
                assert(escaped(s)[i] == b[i - a.len()]);
            }
        }
    }
}

/// The character that a numeric reference at the start of `t` stands for.
pub open spec fn reference_at(t: Seq<char>) -> Option<char> {
    if t.len() >= 5 && t[0] == '&' && t[1] == '#' && t[4] == ';' {
        if t[2] == '3' && t[3] == '4' {
            Some('"')
        } else if t[2] == '3' && t[3] == '8' {
            Some('&')
        } else if t[2] == '3' && t[3] == '9' {
            Some('\'')
        } else if t[2] == '6' && t[3] == '0' {
            Some('<')
        } else if t[2] == '6' && t[3] == '2' {
            Some('>')
        } else {
            None
        }
    } else {
        None
    }
}

/// The text that a browser reads back from escaped text.
pub open spec fn unescaped(t: Seq<char>) -> Seq<char>
    decreases t.len(),
{
    if t.len() == 0 {
        Seq::empty()
    } else {
        match reference_at(t) {
            Some(c) => seq![c] + unescaped(t.skip(5)),
            None => seq![t[0]] + unescaped(t.drop_first()),
        }
    }
}

/// Reading escaped text back gives the text.
pub proof fn law_escape_reads_back(s: Seq<char>)
    ensures
        unescaped(escaped(s)) == s,
    decreases s.len(),
{
    if s.len() > 0 {
        let rest = s.drop_first();
        law_escape_reads_back(rest);
        let a = escaped_char(s[0]);
        let t = escaped(s);
        assert(t =~= a + escaped(rest));
        if a.len() == 5 {
            assert(t[0] == a[0] && t[1] == a[1] && t[2] == a[2] && t[3] == a[3] && t[4] == a[4]);
            assert(reference_at(t) == Some(s[0]));
            assert(t.skip(5) =~= escaped(rest));
        } else {
            assert(t[0] == s[0]);
            assert(reference_at(t) is None);
            assert(t.drop_first() =~= escaped(rest));
        }
        assert(seq![s[0]] + rest =~= s);
    }
}

/// Whether a character may stand in a URL component.
pub open spec fn is_url_char(c: char) -> bool {
    c == '%' || (c as u32 <= 127 && unreserved(c as u8))
}

proof fn lemma_percent_bytes(bytes: Seq<u8>)
    ensures
        forall|i: int|
            0 <= i < percent_bytes(bytes).len() ==> is_url_char(
                #[trigger] percent_bytes(bytes)[i],
            ),
    decreases bytes.len(),
{
    if bytes.len() > 0 {
        lemma_percent_bytes(bytes.drop_first());
        let a = percent_byte(bytes[0]);
        let b = percent_bytes(bytes.drop_first());
        let t = percent_bytes(bytes);
        assert forall|i: int| 0 <= i < t.len() implies is_url_char(#[trigger] t[i]) by {
            if i < a.len() {
                assert(t[i] == a[i]);
            } else {
                assert(t[i] == b[i - a.len()]);
            }
        }
    }
}

/// A percent-encoded text holds nothing that ends a path segment, a query value or an attribute.
pub proof fn law_percent_is_inert(s: Seq<char>)
    ensures
        forall|i: int| 0 <= i < percent(s).len() ==> is_url_char(#[trigger] percent(s)[i]),
{
    lemma_percent_bytes(vstd::utf8::encode_utf8(s));
}

}
