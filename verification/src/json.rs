//! Texts as JSON strings.

use vstd::prelude::*;
use vstd::string::*;
use crate::text;

verus! {

/// A character inside a JSON string: quotes, backslashes and control characters are escaped.
pub open spec fn escaped_char(c: char) -> Seq<char> {
    if c == '"' || c == '\\' {
        seq!['\\', c]
    } else if c == '\u{8}' {
        seq!['\\', 'b']
    } else if c == '\t' {
        seq!['\\', 't']
    } else if c == '\n' {
        seq!['\\', 'n']
    } else if c == '\u{c}' {
        seq!['\\', 'f']
    } else if c == '\r' {
        seq!['\\', 'r']
    } else if (c as int) < 32 {
        seq!['\\', 'u', '0', '0', text::hex_digit(c as int / 16), text::hex_digit(c as int % 16)]
    } else {
        seq![c]
    }
}

/// The inside of a JSON string.
pub open spec fn escaped(s: Seq<char>) -> Seq<char>
    decreases s.len(),
{
    if s.len() == 0 {
        Seq::empty()
    } else {
        escaped_char(s.first()) + escaped(s.drop_first())
    }
}

/// A text as a JSON string.
pub open spec fn json_text(s: Seq<char>) -> Seq<char> {
    "\""@ + escaped(s) + "\""@
}

/// Writes a text through the `Display` of [`serde_json::Value`]: the text in quotes, with quotes,
/// backslashes and control characters escaped, the latter by their short form where JSON has one.
#[verifier::external_body]
pub(crate) fn json_string(s: &str) -> (r: String)
    ensures
        r@ == json_text(s@),
{
    serde_json::Value::from(s).to_string()
}

/// The character that an escaped text begins with.
spec fn decoded(s: Seq<char>) -> char {
    if s[0] != '\\' {
        s[0]
    } else if s[1] == 'b' {
        '\u{8}'
    } else if s[1] == 't' {
        '\t'
    } else if s[1] == 'n' {
        '\n'
    } else if s[1] == 'f' {
        '\u{c}'
    } else if s[1] == 'r' {
        '\r'
    } else if s[1] == 'u' {
        let high = if s[4] == '0' { 0int } else { 16 };
        let low = if s[5] <= '9' { s[5] as int - '0' as int } else { s[5] as int - 'a' as int + 10 };
        (high + low) as char
    } else {
        s[1]
    }
}

proof fn lemma_first_is_readable(c: char, rest: Seq<char>)
    ensures
        decoded(escaped_char(c) + rest) == c,
        (escaped_char(c) + rest).skip(escaped_char(c).len() as int) == rest,
        escaped_char(c).len() > 0,
{
    let s = escaped_char(c) + rest;
    assert(s.skip(escaped_char(c).len() as int) =~= rest);
    if (c as int) < 32 && escaped_char(c).len() == 6 {
        let high = c as int / 16;
        let low = c as int % 16;
        assert(s[4] == text::hex_digit(high));
        assert(s[5] == text::hex_digit(low));
        assert(high == 0 || high == 1);
    }
}

proof fn lemma_escaped_apart(a: Seq<char>, b: Seq<char>)
    requires
        escaped(a) == escaped(b),
    ensures
        a == b,
    decreases a.len(),
{
    if a.len() == 0 {
        if b.len() > 0 {
            lemma_first_is_readable(b.first(), escaped(b.drop_first()));
        }
        assert(a =~= b);
    } else {
        lemma_first_is_readable(a.first(), escaped(a.drop_first()));
        if b.len() > 0 {
            lemma_first_is_readable(b.first(), escaped(b.drop_first()));
            assert(a.first() == b.first());
            assert(escaped(a.drop_first()) == escaped(b.drop_first()));
            lemma_escaped_apart(a.drop_first(), b.drop_first());
            assert(a =~= seq![a.first()] + a.drop_first());
            assert(b =~= seq![b.first()] + b.drop_first());
        }
    }
}

/// Two texts are never the same JSON string.
pub proof fn law_json_tells_texts_apart(a: Seq<char>, b: Seq<char>)
    requires
        json_text(a) == json_text(b),
    ensures
        a == b,
{
    let quote = "\""@;
    let n = quote.len() as int;
    assert(json_text(a).len() == n + escaped(a).len() + n);
    assert(json_text(b).len() == n + escaped(b).len() + n);
    assert(json_text(a).subrange(n, n + escaped(a).len()) =~= escaped(a));
    assert(json_text(b).subrange(n, n + escaped(b).len()) =~= escaped(b));
    lemma_escaped_apart(a, b);
}

} // verus!
