//! JSON text through `serde_json`: quoting a string and reading an array of
//! strings.

use vstd::prelude::*;

use crate::text::digit_char;

verus! {

/// A lower-case hexadecimal digit.
pub open spec fn hex_digit(d: nat) -> char {
    if d < 10 {
        digit_char(d)
    } else {
        ((d - 10) + 'a' as nat) as char
    }
}

/// How `serde_json` writes one character inside a JSON string.
pub open spec fn json_escape(c: char) -> Seq<char> {
    if c == '"' {
        seq!['\\', '"']
    } else if c == '\\' {
        seq!['\\', '\\']
    } else if c == '\u{8}' {
        seq!['\\', 'b']
    } else if c == '\u{c}' {
        seq!['\\', 'f']
    } else if c == '\n' {
        seq!['\\', 'n']
    } else if c == '\r' {
        seq!['\\', 'r']
    } else if c == '\t' {
        seq!['\\', 't']
    } else if (c as nat) < 0x20 {
        seq!['\\', 'u', '0', '0', hex_digit((c as nat) / 16), hex_digit((c as nat) % 16)]
    } else {
        seq![c]
    }
}

/// The characters of a JSON string body.
pub open spec fn json_escaped(s: Seq<char>) -> Seq<char>
    decreases s.len(),
{
    if s.len() == 0 {
        Seq::<char>::empty()
    } else {
        json_escaped(s.drop_last()) + json_escape(s.last())
    }
}

/// A JSON string literal holding `s`.
pub open spec fn json_string(s: Seq<char>) -> Seq<char> {
    seq!['"'] + json_escaped(s) + seq!['"']
}

/// `serde_json::to_string` on a `str`: the text between double quotes, with
/// `"` and `\` escaped by a backslash, the control characters below U+0020
/// written as `\b`, `\f`, `\n`, `\r`, `\t` or `\u00xx` (lower-case hex), and
/// every other character as it is. Serializing a `str` into memory does not
/// fail, so the error arm is never taken.
#[verifier::external_body]
pub(crate) fn quote_json(s: &str) -> (r: String)
    ensures
        r@ == json_string(s@),
{
    match serde_json::to_string(s) {
        Ok(t) => t,
        Err(_) => String::new(),
    }
}

/// What `serde_json::from_str::<Vec<String>>` makes of a JSON text: the
/// strings it reads, or the `Display` text of the error it refuses the text
/// with.
pub uninterp spec fn json_string_list(text: Seq<char>) -> Result<Seq<Seq<char>>, Seq<char>>;

/// `serde_json::from_str::<Vec<String>>`, with its error converted to the
/// error's `Display` text: the outcome is named `json_string_list`, a
/// function of the text alone.
#[verifier::external_body]
pub(crate) fn parse_string_list(text: &str) -> (r: Result<Vec<String>, String>)
    ensures
        match r {
            Ok(v) => json_string_list(text@) == Ok::<Seq<Seq<char>>, Seq<char>>(v.deep_view()),
            Err(m) => json_string_list(text@) == Err::<Seq<Seq<char>>, Seq<char>>(m@),
        },
{
    serde_json::from_str::<Vec<String>>(text).map_err(|e| e.to_string())
}

/// True when the text holds no line break.
pub open spec fn one_line(s: Seq<char>) -> bool {
    forall|i: int| 0 <= i < s.len() ==> #[trigger] s[i] != '\n'
}

/// Text made of two single-line texts is a single line.
pub proof fn lemma_one_line_concat(a: Seq<char>, b: Seq<char>)
    requires
        one_line(a),
        one_line(b),
    ensures
        one_line(a + b),
{
    assert forall|i: int| 0 <= i < (a + b).len() implies #[trigger] (a + b)[i] != '\n' by {
        if i < a.len() {
            assert((a + b)[i] == a[i]);
        } else {
            assert((a + b)[i] == b[i - a.len()]);
        }
    }
}

/// A JSON string literal never holds a line break: `\n` inside it is
/// escaped.
pub proof fn lemma_json_string_one_line(s: Seq<char>)
    ensures
        one_line(json_string(s)),
{
    lemma_json_escaped_one_line(s);
    lemma_one_line_concat(seq!['"'], json_escaped(s));
    lemma_one_line_concat(seq!['"'] + json_escaped(s), seq!['"']);
}

proof fn lemma_json_escaped_one_line(s: Seq<char>)
    ensures
        one_line(json_escaped(s)),
    decreases s.len(),
{
    if s.len() > 0 {
        lemma_json_escaped_one_line(s.drop_last());
        let c = s.last();
        let e = json_escape(c);
        if !(c == '"' || c == '\\' || c == '\u{8}' || c == '\u{c}' || c == '\n' || c == '\r' || c
            == '\t') && (c as nat) < 0x20 {
            let hi = (c as nat) / 16;
            let lo = (c as nat) % 16;
            assert(hi < 10);
            assert(hex_digit(hi) != '\n');
            assert(hex_digit(lo) != '\n');
        }
        assert(one_line(e));
        lemma_one_line_concat(json_escaped(s.drop_last()), e);
    }
}

} // verus!
