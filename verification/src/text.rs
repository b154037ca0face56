//! Text handling over characters: trimming, splitting, number parsing and printing, truncation.

use vstd::prelude::*;
use vstd::string::*;

verus! {

/// [`String::push`] appends one character to the end of the text.
pub assume_specification[ String::push ](s: &mut String, c: char)
    ensures
        final(s)@ == old(s)@.push(c),
;

/// Comparing two string slices with `==` compares their characters.
pub assume_specification[ <str as PartialEq>::eq ](a: &str, b: &str) -> (r: bool)
    ensures
        r == (a@ == b@),
;

/// Whether two texts hold the same characters.
pub fn same_text(a: &str, b: &str) -> (r: bool)
    ensures
        r == (a@ == b@),
{
    *a == *b
}

/// The characters of `s`, in order.
pub fn to_chars(s: &str) -> (r: Vec<char>)
    ensures
        r@ == s@,
{
    let mut out: Vec<char> = Vec::new();
    for c in it: s.chars()
        invariant
            out@ == it.seq().take(it.index() as int),
            it.seq() == s@,
    {
        out.push(c);
        proof {
            assert(it.seq().take(it.index() + 1) =~= it.seq().take(it.index() as int).push(c));
        }
    }
    assert(out@ =~= s@);
    out
}

/// The text made of `chars[from..to]`.
pub fn text_of(chars: &Vec<char>, from: usize, to: usize) -> (r: String)
    requires
        from <= to <= chars.len(),
    ensures
        r@ == chars@.subrange(from as int, to as int),
{
    let mut out = String::new();
    let mut i: usize = from;
    while i < to
        invariant
            from <= i <= to <= chars.len(),
            out@ == chars@.subrange(from as int, i as int),
        decreases to - i,
    {
        out.push(chars[i]);
        i = i + 1;
        proof {
            assert(chars@.subrange(from as int, i as int) =~= chars@.subrange(from as int, i - 1).push(chars@[i - 1]));
        }
    }
    out
}

/// The characters with the Unicode `White_Space` property.
pub open spec fn is_space(c: char) -> bool {
    ||| '\u{9}' <= c <= '\u{d}'
    ||| c == ' '
    ||| c == '\u{85}'
    ||| c == '\u{a0}'
    ||| c == '\u{1680}'
    ||| '\u{2000}' <= c <= '\u{200a}'
    ||| c == '\u{2028}'
    ||| c == '\u{2029}'
    ||| c == '\u{202f}'
    ||| c == '\u{205f}'
    ||| c == '\u{3000}'
}

fn space(c: char) -> (r: bool)
    ensures
        r == is_space(c),
{
    ('\u{9}' <= c && c <= '\u{d}') || c == ' ' || c == '\u{85}' || c == '\u{a0}' || c == '\u{1680}'
        || ('\u{2000}' <= c && c <= '\u{200a}') || c == '\u{2028}' || c == '\u{2029}' || c == '\u{202f}'
        || c == '\u{205f}' || c == '\u{3000}'
}

/// `s` without its leading and trailing white space.
pub open spec fn trimmed(s: Seq<char>) -> Seq<char>
    decreases s.len(),
{
    if s.len() == 0 {
        s
    } else if is_space(s.first()) {
        trimmed(s.drop_first())
    } else if is_space(s.last()) {
        trimmed(s.drop_last())
    } else {
        s
    }
}

/// Removes white space at both ends.
pub fn trim(s: &str) -> (r: String)
    ensures
        r@ == trimmed(s@),
{
    let chars = to_chars(s);
    let mut from: usize = 0;
    let mut to: usize = chars.len();
    assert(chars@ =~= chars@.subrange(0, chars@.len() as int));
    while from < to && space(chars[from])
        invariant
            from <= to <= chars.len(),
            chars@ == s@,
            trimmed(chars@.subrange(from as int, to as int)) == trimmed(s@),
        ensures
            from <= to <= chars.len(),
            from < to ==> !is_space(chars@[from as int]),
            trimmed(chars@.subrange(from as int, to as int)) == trimmed(s@),
        decreases to - from,
    {
        proof {
            let part = chars@.subrange(from as int, to as int);
            assert(part.drop_first() =~= chars@.subrange(from + 1, to as int));
        }
        from = from + 1;
    }
    while from < to && space(chars[to - 1])
        invariant
            from <= to <= chars.len(),
            from < to ==> !is_space(chars@[from as int]),
            trimmed(chars@.subrange(from as int, to as int)) == trimmed(s@),
        ensures
            from <= to <= chars.len(),
            from < to ==> !is_space(chars@[from as int]) && !is_space(chars@[to - 1]),
            trimmed(chars@.subrange(from as int, to as int)) == trimmed(s@),
        decreases to - from,
    {
        proof {
            let part = chars@.subrange(from as int, to as int);
            assert(part.drop_last() =~= chars@.subrange(from as int, to - 1));
        }
        to = to - 1;
    }
    text_of(&chars, from, to)
}

/// Whether `c` occurs in `s`.
pub fn has_char(s: &str, c: char) -> (r: bool)
    ensures
        r == s@.contains(c),
{
    let chars = to_chars(s);
    let mut i: usize = 0;
    while i < chars.len()
        invariant
            i <= chars.len(),
            chars@ == s@,
            forall|j: int| 0 <= j < i ==> chars@[j] != c,
        decreases chars.len() - i,
    {
        if chars[i] == c {
            assert(chars@[i as int] == c);
            return true;
        }
        i = i + 1;
    }
    false
}

/// The part of `s` before the first `c`, where `c` occurs.
pub open spec fn before_first(s: Seq<char>, c: char) -> Option<Seq<char>> {
    if s.contains(c) {
        Some(s.take(s.index_of_first(c)->0))
    } else {
        None
    }
}

/// The part of `s` before the first `c`, or `None` where `c` does not occur.
pub fn split_before(s: &str, c: char) -> (r: Option<String>)
    ensures
        match r {
            Some(head) => before_first(s@, c) == Some(head@),
            None => before_first(s@, c) is None,
        },
{
    let chars = to_chars(s);
    let mut i: usize = 0;
    while i < chars.len()
        invariant
            i <= chars.len(),
            chars@ == s@,
            forall|j: int| 0 <= j < i ==> chars@[j] != c,
        decreases chars.len() - i,
    {
        if chars[i] == c {
            proof {
                s@.index_of_first_ensures(c);
                assert(chars@[i as int] == c);
                let k = s@.index_of_first(c)->0;
                assert(k == i) by {
                    if k < i {
                        assert(chars@[k] != c);
                    }
                }
                assert(s@.take(k) =~= chars@.subrange(0, i as int));
            }
            return Some(text_of(&chars, 0, i));
        }
        i = i + 1;
    }
    None
}

/// The part of `s` behind the first `c`, where `c` occurs.
pub open spec fn after_first(s: Seq<char>, c: char) -> Option<Seq<char>> {
    if s.contains(c) {
        Some(s.skip(s.index_of_first(c)->0 + 1))
    } else {
        None
    }
}

/// The parts of `s` before and behind the first `c`, or `None` where `c` does not occur.
pub fn split_once(s: &str, c: char) -> (r: Option<(String, String)>)
    ensures
        match r {
            Some((head, tail)) => before_first(s@, c) == Some(head@) && after_first(s@, c) == Some(tail@),
            None => before_first(s@, c) is None && after_first(s@, c) is None,
        },
{
    let chars = to_chars(s);
    let mut i: usize = 0;
    while i < chars.len()
        invariant
            i <= chars.len(),
            chars@ == s@,
            forall|j: int| 0 <= j < i ==> chars@[j] != c,
        decreases chars.len() - i,
    {
        if chars[i] == c {
            proof {
                s@.index_of_first_ensures(c);
                assert(chars@[i as int] == c);
                let k = s@.index_of_first(c)->0;
                assert(k == i) by {
                    if k < i {
                        assert(chars@[k] != c);
                    }
                }
                assert(s@.take(k) =~= chars@.subrange(0, i as int));
                assert(s@.skip(k + 1) =~= chars@.subrange(i + 1, chars@.len() as int));
            }
            return Some((text_of(&chars, 0, i), text_of(&chars, i + 1, chars.len())));
        }
        i = i + 1;
    }
    None
}

/// The rest of `s` behind `prefix`, where `s` starts with it.
pub open spec fn after_prefix(s: Seq<char>, prefix: Seq<char>) -> Option<Seq<char>> {
    if prefix.is_prefix_of(s) {
        Some(s.skip(prefix.len() as int))
    } else {
        None
    }
}

/// The rest of `s` behind `prefix`, or `None` where `s` does not start with it.
pub fn strip_prefix(s: &str, prefix: &str) -> (r: Option<String>)
    ensures
        match r {
            Some(rest) => after_prefix(s@, prefix@) == Some(rest@),
            None => after_prefix(s@, prefix@) is None,
        },
{
    let chars = to_chars(s);
    let head = to_chars(prefix);
    if head.len() > chars.len() {
        return None;
    }
    let mut i: usize = 0;
    while i < head.len()
        invariant
            i <= head.len() <= chars.len(),
            chars@ == s@,
            head@ == prefix@,
            forall|j: int| 0 <= j < i ==> chars@[j] == head@[j],
        decreases head.len() - i,
    {
        if chars[i] != head[i] {
            return None;
        }
        i = i + 1;
    }
    proof {
        assert(s@.subrange(0, head@.len() as int) =~= head@);
        assert(s@.skip(head@.len() as int) =~= chars@.subrange(head@.len() as int, chars@.len() as int));
    }
    Some(text_of(&chars, head.len(), chars.len()))
}

/// Whether `c` is an ASCII decimal digit.
pub open spec fn is_digit(c: char) -> bool {
    '0' <= c <= '9'
}

/// The number that a run of decimal digits writes.
pub open spec fn digits_value(s: Seq<char>) -> nat
    decreases s.len(),
{
    if s.len() == 0 {
        0
    } else {
        digits_value(s.drop_last()) * 10 + (s.last() as nat - '0' as nat) as nat
    }
}

/// The digits of an unsigned number: an optional `+` sign in front of them is dropped.
pub open spec fn unsigned_digits(s: Seq<char>) -> Seq<char> {
    if s.len() > 0 && s.first() == '+' {
        s.drop_first()
    } else {
        s
    }
}

/// The `u64` that `s` writes: an optional `+`, then digits only, at least one, in range.
pub open spec fn parsed_u64(s: Seq<char>) -> Option<u64> {
    let digits = unsigned_digits(s);
    if digits.len() > 0 && (forall|i: int| 0 <= i < digits.len() ==> is_digit(digits[i]))
        && digits_value(digits) <= u64::MAX {
        Some(digits_value(digits) as u64)
    } else {
        None
    }
}

proof fn lemma_digits_value_grows(s: Seq<char>, n: int)
    requires
        0 <= n <= s.len(),
    ensures
        digits_value(s.take(n)) <= digits_value(s),
    decreases s.len(),
{
    if n < s.len() {
        lemma_digits_value_grows(s.drop_last(), n);
        assert(s.drop_last().take(n) =~= s.take(n));
    } else {
        assert(s.take(n) =~= s);
    }
}

/// Reads an unsigned number in decimal.
pub fn parse_u64(s: &str) -> (r: Option<u64>)
    ensures
        r == parsed_u64(s@),
{
    let chars = to_chars(s);
    let start: usize = if chars.len() > 0 && chars[0] == '+' { 1 } else { 0 };
    let ghost digits = unsigned_digits(s@);
    assert(digits =~= chars@.subrange(start as int, chars@.len() as int));
    if start == chars.len() {
        return None;
    }
    let mut value: u64 = 0;
    let mut i: usize = start;
    while i < chars.len()
        invariant
            start <= i <= chars.len(),
            start <= 1,
            digits == unsigned_digits(s@),
            digits == chars@.subrange(start as int, chars@.len() as int),
            value == digits_value(digits.take(i - start)),
            forall|j: int| 0 <= j < i - start ==> is_digit(digits[j]),
        decreases chars.len() - i,
    {
        let c = chars[i];
        assert(digits[i - start] == c);
        if !('0' <= c && c <= '9') {
            return None;
        }
        let digit: u64 = (c as u64) - ('0' as u64);
        proof {
            assert(digits.take(i - start + 1).drop_last() =~= digits.take(i - start));
            assert(digits_value(digits.take(i - start + 1)) == value * 10 + digit);
            lemma_digits_value_grows(digits, i - start + 1);
        }
        if value > u64::MAX / 10 || value * 10 > u64::MAX - digit {
            return None;
        }
        value = value * 10 + digit;
        i = i + 1;
    }
    assert(digits.take(digits.len() as int) =~= digits);
    Some(value)
}

/// The character that writes the digit `d`.
pub open spec fn digit_char(d: nat) -> char {
    ('0' as nat + d) as char
}

/// `n` in decimal, without leading zeros.
pub open spec fn decimal_text(n: nat) -> Seq<char>
    decreases n,
{
    if n < 10 {
        seq![digit_char(n)]
    } else {
        decimal_text(n / 10).push(digit_char(n % 10))
    }
}

fn push_digit(out: &mut String, d: u64)
    requires
        d < 10,
    ensures
        final(out)@ == old(out)@.push(digit_char(d as nat)),
{
    let c = if d == 0 {
        '0'
    } else if d == 1 {
        '1'
    } else if d == 2 {
        '2'
    } else if d == 3 {
        '3'
    } else if d == 4 {
        '4'
    } else if d == 5 {
        '5'
    } else if d == 6 {
        '6'
    } else if d == 7 {
        '7'
    } else if d == 8 {
        '8'
    } else {
        '9'
    };
    out.push(c);
}

/// Writes `n` in decimal.
pub fn number_text(n: u64) -> (r: String)
    ensures
        r@ == decimal_text(n as nat),
    decreases n,
{
    if n < 10 {
        let mut out = String::new();
        push_digit(&mut out, n);
        assert(out@ =~= seq![digit_char(n as nat)]);
        out
    } else {
        let mut out = number_text(n / 10);
        push_digit(&mut out, n % 10);
        out
    }
}

/// `n` in decimal, with a minus sign where it is negative.
pub open spec fn signed_decimal_text(n: int) -> Seq<char> {
    if n < 0 {
        "-"@ + decimal_text((-n) as nat)
    } else {
        decimal_text(n as nat)
    }
}

/// Writes `n` in decimal, with a minus sign where it is negative.
pub fn signed_number_text(n: i64) -> (r: String)
    ensures
        r@ == signed_decimal_text(n as int),
{
    if n < 0 {
        let mut out = String::from_str("-");
        let size: i128 = -(n as i128);
        out.append(number_text(size as u64).as_str());
        out
    } else {
        number_text(n as u64)
    }
}

/// The small hexadecimal digit of a number below 16.
pub open spec fn hex_digit(n: int) -> char {
    if n < 10 {
        ('0' as int + n) as char
    } else {
        ('a' as int + n - 10) as char
    }
}

/// What `{:?}` prints for a text: the text in quotes, with what needs it escaped.
pub uninterp spec fn quoted(s: Seq<char>) -> Seq<char>;

/// Prints a text through its `Debug`: quotes around it and escapes within, a function of the text
/// alone.
#[verifier::external_body]
pub(crate) fn quote(s: &str) -> (r: String)
    ensures
        r@ == quoted(s@),
{
    format!("{:?}", s)
}

/// The bytes that `c` takes in UTF-8.
pub open spec fn utf8_width(c: char) -> nat {
    if c <= '\u{7f}' {
        1
    } else if c <= '\u{7ff}' {
        2
    } else if c <= '\u{ffff}' {
        3
    } else {
        4
    }
}

fn char_width(c: char) -> (r: usize)
    ensures
        r == utf8_width(c),
{
    if c <= '\u{7f}' {
        1
    } else if c <= '\u{7ff}' {
        2
    } else if c <= '\u{ffff}' {
        3
    } else {
        4
    }
}

/// The bytes that `s` takes in UTF-8.
pub open spec fn utf8_size(s: Seq<char>) -> nat
    decreases s.len(),
{
    if s.len() == 0 {
        0
    } else {
        utf8_size(s.drop_last()) + utf8_width(s.last())
    }
}

/// The longest prefix of `s` that takes at most `max` bytes in UTF-8.
pub open spec fn truncated(s: Seq<char>, max: nat) -> Seq<char>
    decreases s.len(),
{
    if utf8_size(s) <= max || s.len() == 0 {
        s
    } else {
        truncated(s.drop_last(), max)
    }
}

/// A prefix that fits, but not with one more character, is the truncation.
proof fn lemma_truncated(s: Seq<char>, max: nat, n: int)
    requires
        0 <= n <= s.len(),
        utf8_size(s.take(n)) <= max,
        n < s.len() ==> utf8_size(s.take(n + 1)) > max,
    ensures
        truncated(s, max) == s.take(n),
    decreases s.len(),
{
    if n == s.len() {
        assert(s.take(n) =~= s);
    } else {
        lemma_utf8_size_grows(s, n + 1);
        assert(s.drop_last().take(n) =~= s.take(n));
        if n < s.drop_last().len() {
            assert(s.drop_last().take(n + 1) =~= s.take(n + 1));
        }
        lemma_truncated(s.drop_last(), max, n);
    }
}

proof fn lemma_utf8_size_grows(s: Seq<char>, n: int)
    requires
        0 <= n <= s.len(),
    ensures
        utf8_size(s.take(n)) <= utf8_size(s),
    decreases s.len(),
{
    if n < s.len() {
        lemma_utf8_size_grows(s.drop_last(), n);
        assert(s.drop_last().take(n) =~= s.take(n));
    } else {
        assert(s.take(n) =~= s);
    }
}

/// Truncating a text gives a prefix of it that fits, and that no longer would with one more character.
pub proof fn law_truncation_is_the_longest_that_fits(s: Seq<char>, max: nat)
    ensures
        ({
            let kept = truncated(s, max);
            &&& kept.len() <= s.len()
            &&& kept == s.take(kept.len() as int)
            &&& utf8_size(kept) <= max
            &&& kept.len() < s.len() ==> utf8_size(s.take(kept.len() as int + 1)) > max
        }),
    decreases s.len(),
{
    if utf8_size(s) <= max || s.len() == 0 {
        assert(s.take(s.len() as int) =~= s);
    } else {
        let shorter = s.drop_last();
        law_truncation_is_the_longest_that_fits(shorter, max);
        let n = truncated(shorter, max).len() as int;
        assert(shorter.take(n) =~= s.take(n));
        if n < shorter.len() {
            assert(shorter.take(n + 1) =~= s.take(n + 1));
        } else {
            assert(s.take(n + 1) =~= s);
        }
    }
}

/// The longest prefix of `s` of at most `max` bytes.
pub fn truncate(s: &str, max: usize) -> (r: String)
    ensures
        r@ == truncated(s@, max as nat),
{
    let chars = to_chars(s);
    let mut size: usize = 0;
    let mut i: usize = 0;
    assert(chars@.take(0) =~= Seq::<char>::empty());
    while i < chars.len()
        invariant
            i <= chars.len(),
            chars@ == s@,
            size == utf8_size(chars@.take(i as int)),
            size <= max,
        ensures
            i <= chars.len(),
            utf8_size(chars@.take(i as int)) <= max,
            i < chars.len() ==> utf8_size(chars@.take(i + 1)) > max,
        decreases chars.len() - i,
    {
        let c = chars[i];
        let width: usize = char_width(c);
        assert(chars@.take(i + 1).drop_last() =~= chars@.take(i as int));
        if width > max - size {
            break;
        }
        size = size + width;
        i = i + 1;
    }
    proof {
        lemma_truncated(chars@, max as nat, i as int);
        assert(chars@.take(i as int) =~= chars@.subrange(0, i as int));
    }
    text_of(&chars, 0, i)
}

/// Whether `s` takes more than `max` bytes in UTF-8, which is whether truncating it shortens it.
pub fn exceeds(s: &str, max: usize) -> (r: bool)
    ensures
        r == (utf8_size(s@) > max),
{
    let chars = to_chars(s);
    let mut size: usize = 0;
    let mut i: usize = 0;
    assert(chars@.take(0) =~= Seq::<char>::empty());
    while i < chars.len()
        invariant
            i <= chars.len(),
            chars@ == s@,
            size == utf8_size(chars@.take(i as int)),
            size <= max,
        decreases chars.len() - i,
    {
        let c = chars[i];
        let width: usize = char_width(c);
        proof {
            assert(chars@.take(i + 1).drop_last() =~= chars@.take(i as int));
            lemma_utf8_size_grows(chars@, i + 1);
        }
        if width > max - size {
            return true;
        }
        size = size + width;
        i = i + 1;
    }
    assert(chars@.take(i as int) =~= chars@);
    false
}

/// `c`, with an ASCII capital made small.
pub open spec fn ascii_small(c: char) -> char {
    if 'A' <= c <= 'Z' {
        (c as u32 + 32) as char
    } else {
        c
    }
}

/// Whether two texts are the same but for the case of ASCII letters.
pub open spec fn same_but_for_case(a: Seq<char>, b: Seq<char>) -> bool {
    &&& a.len() == b.len()
    &&& forall|i: int| 0 <= i < a.len() ==> ascii_small(#[trigger] a[i]) == ascii_small(b[i])
}

fn ascii_code(c: char) -> (r: u32)
    ensures
        r == ascii_small(c) as u32,
{
    if 'A' <= c && c <= 'Z' {
        c as u32 + 32
    } else {
        c as u32
    }
}

/// Compares two texts without regard to the case of ASCII letters.
pub fn same_ignoring_ascii_case(a: &str, b: &str) -> (r: bool)
    ensures
        r == same_but_for_case(a@, b@),
{
    let left = to_chars(a);
    let right = to_chars(b);
    if left.len() != right.len() {
        return false;
    }
    let mut i: usize = 0;
    while i < left.len()
        invariant
            i <= left.len() == right.len(),
            left@ == a@,
            right@ == b@,
            forall|j: int| 0 <= j < i ==> ascii_small(#[trigger] a@[j]) == ascii_small(b@[j]),
        decreases left.len() - i,
    {
        if ascii_code(left[i]) != ascii_code(right[i]) {
            assert(ascii_small(a@[i as int]) != ascii_small(b@[i as int]));
            return false;
        }
        i = i + 1;
    }
    true
}

/// Whether `a` comes before `b` in the order of characters, a text before its continuations.
pub open spec fn text_before(a: Seq<char>, b: Seq<char>) -> bool
    decreases a.len(),
{
    if b.len() == 0 {
        false
    } else if a.len() == 0 {
        true
    } else if a[0] != b[0] {
        a[0] < b[0]
    } else {
        text_before(a.drop_first(), b.drop_first())
    }
}

/// The order of texts is strict and total.
pub proof fn law_text_order(a: Seq<char>, b: Seq<char>)
    ensures
        !text_before(a, a),
        text_before(a, b) ==> !text_before(b, a),
        a != b ==> text_before(a, b) || text_before(b, a),
    decreases a.len(),
{
    if a.len() > 0 {
        law_text_order(a.drop_first(), if b.len() > 0 { b.drop_first() } else { a.drop_first() });
        if b.len() > 0 && a[0] == b[0] && a.drop_first() == b.drop_first() {
            assert(a =~= seq![a[0]] + a.drop_first());
            assert(b =~= seq![b[0]] + b.drop_first());
        }
    } else if b.len() == 0 {
        assert(a =~= b);
    }
}

/// The order of texts is transitive.
pub proof fn law_text_order_transitive(a: Seq<char>, b: Seq<char>, c: Seq<char>)
    requires
        text_before(a, b),
        text_before(b, c),
    ensures
        text_before(a, c),
    decreases a.len(),
{
    if a.len() > 0 && b.len() > 0 && c.len() > 0 && a[0] == b[0] && b[0] == c[0] {
        law_text_order_transitive(a.drop_first(), b.drop_first(), c.drop_first());
    }
}

/// Whether `a` comes before `b` in the order of characters.
pub fn is_text_before(a: &str, b: &str) -> (r: bool)
    ensures
        r == text_before(a@, b@),
{
    let left = to_chars(a);
    let right = to_chars(b);
    let mut i: usize = 0;
    assert(left@.skip(0) =~= a@);
    assert(right@.skip(0) =~= b@);
    while i < left.len() && i < right.len()
        invariant
            i <= left.len(),
            i <= right.len(),
            text_before(a@, b@) == text_before(left@.skip(i as int), right@.skip(i as int)),
        decreases left.len() - i,
    {
        if left[i] != right[i] {
            return left[i] < right[i];
        }
        proof {
            assert(left@.skip(i as int).drop_first() =~= left@.skip(i + 1));
            assert(right@.skip(i as int).drop_first() =~= right@.skip(i + 1));
        }
        i = i + 1;
    }
    i < right.len()
}

/// What `{:?}` prints for a list of texts.
pub open spec fn quoted_list(parts: Seq<Seq<char>>) -> Seq<char> {
    "["@ + joined(parts.map_values(|part: Seq<char>| quoted(part)), ", "@) + "]"@
}

/// Prints a list of texts as `{:?}` does.
pub fn quote_list(parts: &Vec<String>) -> (r: String)
    ensures
        r@ == quoted_list(texts(parts@)),
{
    let mut each: Vec<String> = Vec::new();
    let mut i: usize = 0;
    while i < parts.len()
        invariant
            i <= parts.len(),
            each.len() == i,
            forall|k: int| 0 <= k < i ==> (#[trigger] each@[k])@ == quoted(parts@[k]@),
        decreases parts.len() - i,
    {
        each.push(quote(parts[i].as_str()));
        i = i + 1;
    }
    assert(texts(each@) =~= texts(parts@).map_values(|part: Seq<char>| quoted(part)));
    let mut out = String::from_str("[");
    out.append(join(&each, ", ").as_str());
    out.append("]");
    out
}

/// `parts` put one behind the other, with `separator` between each two.
pub open spec fn joined(parts: Seq<Seq<char>>, separator: Seq<char>) -> Seq<char>
    decreases parts.len(),
{
    if parts.len() == 0 {
        Seq::empty()
    } else if parts.len() == 1 {
        parts[0]
    } else {
        joined(parts.drop_last(), separator) + separator + parts.last()
    }
}

/// The characters of each text of a list.
pub open spec fn texts(parts: Seq<String>) -> Seq<Seq<char>> {
    parts.map_values(|part: String| part@)
}

/// Puts texts one behind the other, with `separator` between each two.
pub fn join(parts: &Vec<String>, separator: &str) -> (r: String)
    ensures
        r@ == joined(texts(parts@), separator@),
{
    let mut out = String::new();
    let mut i: usize = 0;
    assert(out@ =~= joined(texts(parts@.take(0)), separator@));
    while i < parts.len()
        invariant
            i <= parts.len(),
            out@ == joined(texts(parts@.take(i as int)), separator@),
        decreases parts.len() - i,
    {
        proof {
            let longer = texts(parts@.take(i + 1));
            assert(longer.drop_last() =~= texts(parts@.take(i as int)));
            assert(longer.last() == parts@[i as int]@);
            if i == 0 {
                assert(out@ + longer.last() =~= longer.last());
            }
        }
        if i > 0 {
            out.append(separator);
        }
        out.append(parts[i].as_str());
        i = i + 1;
    }
    assert(parts@.take(i as int) =~= parts@);
    out
}

/// The digits of a number: at least one, decimal digits only, of that value, and without a zero in
/// front of a longer number.
pub proof fn law_digits_of_a_number(n: nat)
    ensures
        decimal_text(n).len() > 0,
        forall|i: int| 0 <= i < decimal_text(n).len() ==> '0' <= #[trigger] decimal_text(n)[i] <= '9',
        digits_value(decimal_text(n)) == n,
        n > 0 ==> decimal_text(n)[0] != '0',
    decreases n,
{
    if n < 10 {
        let s = decimal_text(n);
        assert(s.len() == 1 && s[0] == digit_char(n));
        assert(s.drop_last() =~= Seq::<char>::empty());
        assert(digits_value(s.drop_last()) == 0);
        assert(s.last() as nat == '0' as nat + n);
    } else {
        let front = decimal_text(n / 10);
        law_digits_of_a_number(n / 10);
        let s = decimal_text(n);
        assert(s.drop_last() =~= front);
        assert(s.last() as nat == '0' as nat + n % 10);
        assert forall|i: int| 0 <= i < s.len() implies '0' <= #[trigger] s[i] <= '9' by {
            if i < front.len() {
                assert(s[i] == front[i]);
            }
        }
        assert(s[0] == front[0]);
    }
}

/// Reading what was printed gives the number back.
pub proof fn law_numbers_read_back(n: u64)
    ensures
        parsed_u64(decimal_text(n as nat)) == Some(n),
        signed_decimal_text(n as int) == decimal_text(n as nat),
        n > 0 ==> signed_decimal_text(-(n as int)).len() > 0 && signed_decimal_text(-(n as int))[0] == '-' && parsed_u64(
            signed_decimal_text(-(n as int)).skip(1),
        ) == Some(n),
{
    law_digits_of_a_number(n as nat);
    let s = decimal_text(n as nat);
    assert('0' <= s[0] <= '9');
    assert(unsigned_digits(s) == s);
    if n > 0 {
        reveal_strlit("-");
        let below = signed_decimal_text(-(n as int));
        assert(below =~= "-"@ + s);
        assert(below.skip(1) =~= s);
    }
}

/// Two numbers that are printed alike are the same, also with a sign in front.
pub proof fn law_printed_numbers_differ(a: int, b: int)
    requires
        signed_decimal_text(a) == signed_decimal_text(b),
    ensures
        a == b,
{
    reveal_strlit("-");
    let size_a: nat = if a < 0 { (-a) as nat } else { a as nat };
    let size_b: nat = if b < 0 { (-b) as nat } else { b as nat };
    law_digits_of_a_number(size_a);
    law_digits_of_a_number(size_b);
    assert('0' <= decimal_text(size_a)[0] <= '9');
    assert('0' <= decimal_text(size_b)[0] <= '9');
    if a < 0 {
        assert(signed_decimal_text(a)[0] == '-');
        assert(signed_decimal_text(a).skip(1) =~= decimal_text(size_a));
    }
    if b < 0 {
        assert(signed_decimal_text(b)[0] == '-');
        assert(signed_decimal_text(b).skip(1) =~= decimal_text(size_b));
    }
}

/// The characters of a printed number: decimal digits, behind a minus sign where it is negative.
pub proof fn law_printed_number_is_digits(n: int)
    ensures
        signed_decimal_text(n).len() > 0,
        forall|i: int|
            0 <= i < signed_decimal_text(n).len() ==> '0' <= #[trigger] signed_decimal_text(n)[i] <= '9' || (i == 0 && n < 0
                && signed_decimal_text(n)[i] == '-'),
{
    reveal_strlit("-");
    let size: nat = if n < 0 { (-n) as nat } else { n as nat };
    law_digits_of_a_number(size);
    let s = signed_decimal_text(n);
    assert forall|i: int| 0 <= i < s.len() implies '0' <= #[trigger] s[i] <= '9' || (i == 0 && n < 0 && s[i] == '-') by {
        if n < 0 && i > 0 {
            assert(s[i] == decimal_text(size)[i - 1]);
        }
    }
}

/// Of the characters of ASCII, the space and those from tab to carriage return are white space.
pub proof fn law_ascii_white_space(c: char)
    requires
        c <= '\u{7f}',
    ensures
        is_space(c) <==> c == ' ' || c == '\t' || c == '\n' || c == '\u{b}' || c == '\u{c}' || c == '\r',
{
}

/// Trimming takes white space off both ends, all of it and nothing else.
pub proof fn law_trimming_takes_the_ends(s: Seq<char>) -> (from: int)
    ensures
        ({
            let kept = trimmed(s);
            &&& 0 <= from <= from + kept.len() <= s.len()
            &&& kept == s.subrange(from, from + kept.len())
            &&& forall|i: int|
                0 <= i < s.len() && !(from <= i < from + kept.len()) ==> is_space(#[trigger] s[i])
            &&& kept.len() > 0 ==> !is_space(kept.first()) && !is_space(kept.last())
        }),
    decreases s.len(),
{
    if s.len() == 0 {
        0
    } else if is_space(s.first()) {
        let rest = s.drop_first();
        let from = law_trimming_takes_the_ends(rest);
        let kept = trimmed(s);
        assert(rest.subrange(from, from + kept.len()) =~= s.subrange(from + 1, from + 1 + kept.len()));
        assert forall|i: int| 0 <= i < s.len() && !(from + 1 <= i < from + 1 + kept.len()) implies is_space(
            #[trigger] s[i],
        ) by {
            if i > 0 {
                assert(s[i] == rest[i - 1]);
            }
        }
        from + 1
    } else if is_space(s.last()) {
        let rest = s.drop_last();
        let from = law_trimming_takes_the_ends(rest);
        let kept = trimmed(s);
        assert(rest.subrange(from, from + kept.len()) =~= s.subrange(from, from + kept.len()));
        assert forall|i: int| 0 <= i < s.len() && !(from <= i < from + kept.len()) implies is_space(#[trigger] s[i]) by {
            if i < s.len() - 1 {
                assert(s[i] == rest[i]);
            }
        }
        from
    } else {
        assert(s.subrange(0, s.len() as int) =~= s);
        0
    }
}

/// Splitting a text at the first of a character takes that character out and nothing else: what is in
/// front of it does not hold the character.
pub proof fn law_splitting_takes_out_the_first(s: Seq<char>, c: char)
    ensures
        s.contains(c) <==> before_first(s, c) is Some,
        s.contains(c) <==> after_first(s, c) is Some,
        s.contains(c) ==> s == before_first(s, c)->0.push(c) + after_first(s, c)->0 && !before_first(s, c)->0.contains(c),
{
    if s.contains(c) {
        s.index_of_first_ensures(c);
        let at = s.index_of_first(c)->0;
        assert(s =~= s.take(at).push(c) + s.skip(at + 1));
        assert forall|i: int| 0 <= i < at implies s.take(at)[i] != c by {}
    }
}

/// What is left behind a prefix is what stood behind it.
pub proof fn law_prefix_is_taken_off(prefix: Seq<char>, rest: Seq<char>)
    ensures
        after_prefix(prefix + rest, prefix) == Some(rest),
{
    assert((prefix + rest).skip(prefix.len() as int) =~= rest);
    assert(prefix =~= (prefix + rest).subrange(0, prefix.len() as int));
}

/// Joined texts stand in their order, with the separator behind each but the last.
pub proof fn law_joined_texts_keep_their_order(first: Seq<char>, rest: Seq<Seq<char>>, separator: Seq<char>)
    ensures
        joined(seq![first] + rest, separator) == if rest.len() == 0 {
            first
        } else {
            first + separator + joined(rest, separator)
        },
    decreases rest.len(),
{
    let all = seq![first] + rest;
    if rest.len() > 0 {
        assert(all.drop_last() =~= seq![first] + rest.drop_last());
        assert(all.last() == rest.last());
        law_joined_texts_keep_their_order(first, rest.drop_last(), separator);
        assert(joined(all, separator) =~= first + separator + joined(rest, separator));
    } else {
        assert(all.len() == 1 && all[0] == first);
    }
}

/// The first character in which two texts differ decides their order, the lower one first; a text
/// comes before one that continues it.
pub proof fn law_first_difference_decides(common: Seq<char>, a: Seq<char>, b: Seq<char>)
    requires
        a.len() > 0 && b.len() > 0 ==> a[0] != b[0],
    ensures
        a.len() > 0 && b.len() > 0 ==> (text_before(common + a, common + b) <==> a[0] < b[0]),
        a.len() == 0 ==> (text_before(common + a, common + b) <==> b.len() > 0),
        b.len() == 0 ==> !text_before(common + a, common + b),
    decreases common.len(),
{
    let left = common + a;
    let right = common + b;
    if common.len() > 0 {
        assert(left.drop_first() =~= common.drop_first() + a);
        assert(right.drop_first() =~= common.drop_first() + b);
        law_first_difference_decides(common.drop_first(), a, b);
    } else {
        assert(left =~= a);
        assert(right =~= b);
    }
}

/// A hexadecimal digit stands for its number: `0` to `9` for those below ten, `a` to `f` above.
pub proof fn law_hex_digit_reads_back(n: int)
    requires
        0 <= n < 16,
    ensures
        n < 10 ==> '0' <= hex_digit(n) <= '9' && hex_digit(n) as int - '0' as int == n,
        n >= 10 ==> 'a' <= hex_digit(n) <= 'f' && hex_digit(n) as int - 'a' as int + 10 == n,
{
}

/// Texts that differ only in the case of ASCII letters count as the same, and a difference in
/// anything else tells them apart.
pub proof fn law_case_alone_does_not_matter(a: Seq<char>, b: Seq<char>, i: int)
    requires
        0 <= i < a.len(),
        a.len() == b.len(),
        forall|k: int| 0 <= k < a.len() && k != i ==> #[trigger] a[k] == b[k],
    ensures
        same_but_for_case(a, b) <==> {
            ||| a[i] == b[i]
            ||| 'A' <= a[i] <= 'Z' && b[i] as int - 'a' as int == a[i] as int - 'A' as int
            ||| 'A' <= b[i] <= 'Z' && a[i] as int - 'a' as int == b[i] as int - 'A' as int
        },
        a.len() > 0 ==> !same_but_for_case(a, a.drop_last()),
{
    assert(ascii_small(a[i]) == ascii_small(b[i]) <==> {
        ||| a[i] == b[i]
        ||| 'A' <= a[i] <= 'Z' && b[i] as int - 'a' as int == a[i] as int - 'A' as int
        ||| 'A' <= b[i] <= 'Z' && a[i] as int - 'a' as int == b[i] as int - 'A' as int
    });
}

/// A text that is split at a character that it was put together with comes apart as it was.
pub proof fn law_splitting_undoes_joining(head: Seq<char>, c: char, tail: Seq<char>)
    requires
        !head.contains(c),
    ensures
        before_first(head + seq![c] + tail, c) == Some(head),
        after_first(head + seq![c] + tail, c) == Some(tail),
{
    let s = head + seq![c] + tail;
    assert(s[head.len() as int] == c);
    law_splitting_takes_out_the_first(s, c);
    s.index_of_first_ensures(c);
    let at = s.index_of_first(c)->0;
    if at < head.len() {
        assert(s[at] == head[at]);
        assert(head.contains(c));
    }
    assert(at == head.len());
    assert(s.take(at) =~= head);
    assert(s.skip(at + 1) =~= tail);
}

/// Whether `part` stands in `s` at a position.
pub open spec fn stands_at(s: Seq<char>, part: Seq<char>, at: int) -> bool {
    &&& 0 <= at <= at + part.len() <= s.len()
    &&& s.subrange(at, at + part.len()) == part
}

/// Whether `parts` stand in `s` one behind the other, with anything in front, between and behind.
#[verifier::opaque]
pub open spec fn names_in_order(s: Seq<char>, parts: Seq<Seq<char>>) -> bool
    decreases parts.len(),
{
    parts.len() == 0 || exists|at: int|
        #[trigger] stands_at(s, parts[0], at) && names_in_order(s.skip(at + parts[0].len()), parts.drop_first())
}

/// Parts that stand in a text stand in it with anything behind it.
pub proof fn lemma_more_behind(s: Seq<char>, behind: Seq<char>, parts: Seq<Seq<char>>)
    requires
        names_in_order(s, parts),
    ensures
        names_in_order(s + behind, parts),
    decreases parts.len(),
{
    reveal_with_fuel(names_in_order, 2);
    if parts.len() > 0 {
        let at = choose|at: int|
            #[trigger] stands_at(s, parts[0], at) && names_in_order(s.skip(at + parts[0].len()), parts.drop_first());
        let past = at + parts[0].len();
        assert((s + behind).subrange(at, past) =~= s.subrange(at, past));
        assert(stands_at(s + behind, parts[0], at));
        lemma_more_behind(s.skip(past), behind, parts.drop_first());
        assert((s + behind).skip(past) =~= s.skip(past) + behind);
    }
}

/// What is put behind a text stands in it behind the parts that stand there.
pub proof fn lemma_next_named(s: Seq<char>, part: Seq<char>, parts: Seq<Seq<char>>)
    requires
        names_in_order(s, parts),
    ensures
        names_in_order(s + part, parts.push(part)),
    decreases parts.len(),
{
    reveal_with_fuel(names_in_order, 2);
    let all = parts.push(part);
    if parts.len() == 0 {
        let at = s.len() as int;
        assert((s + part).subrange(at, at + part.len()) =~= part);
        assert(stands_at(s + part, all[0], at));
        assert(all.drop_first().len() == 0);
    } else {
        let at = choose|at: int|
            #[trigger] stands_at(s, parts[0], at) && names_in_order(s.skip(at + parts[0].len()), parts.drop_first());
        let past = at + parts[0].len();
        assert((s + part).subrange(at, past) =~= s.subrange(at, past));
        assert(stands_at(s + part, all[0], at));
        lemma_next_named(s.skip(past), part, parts.drop_first());
        assert((s + part).skip(past) =~= s.skip(past) + part);
        assert(all.drop_first() =~= parts.drop_first().push(part));
    }
}

/// A text that ends with a part names it.
pub proof fn lemma_last_named(a: Seq<char>, x: Seq<char>)
    ensures
        names_in_order(a + x, seq![x]),
{
    assert(names_in_order(a, Seq::empty())) by {
        reveal_with_fuel(names_in_order, 1);
    }
    lemma_next_named(a, x, Seq::empty());
    assert(Seq::<Seq<char>>::empty().push(x) =~= seq![x]);
}

/// A text that ends with two parts names both.
pub proof fn lemma_two_named(a: Seq<char>, x: Seq<char>, b: Seq<char>, y: Seq<char>)
    ensures
        names_in_order(a + x + b + y, seq![x, y]),
{
    lemma_last_named(a, x);
    lemma_more_behind(a + x, b, seq![x]);
    lemma_next_named(a + x + b, y, seq![x]);
    assert(seq![x].push(y) =~= seq![x, y]);
}

/// A text that ends with three parts names them all.
pub proof fn lemma_three_named(a: Seq<char>, x: Seq<char>, b: Seq<char>, y: Seq<char>, c: Seq<char>, w: Seq<char>)
    ensures
        names_in_order(a + x + b + y + c + w, seq![x, y, w]),
{
    lemma_two_named(a, x, b, y);
    lemma_more_behind(a + x + b + y, c, seq![x, y]);
    lemma_next_named(a + x + b + y + c, w, seq![x, y]);
    assert(seq![x, y].push(w) =~= seq![x, y, w]);
}

/// A text that ends with four parts names them all.
pub proof fn lemma_four_named(
    a: Seq<char>,
    x: Seq<char>,
    b: Seq<char>,
    y: Seq<char>,
    c: Seq<char>,
    w: Seq<char>,
    d: Seq<char>,
    z: Seq<char>,
)
    ensures
        names_in_order(a + x + b + y + c + w + d + z, seq![x, y, w, z]),
{
    lemma_three_named(a, x, b, y, c, w);
    lemma_more_behind(a + x + b + y + c + w, d, seq![x, y, w]);
    lemma_next_named(a + x + b + y + c + w + d, z, seq![x, y, w]);
    assert(seq![x, y, w].push(z) =~= seq![x, y, w, z]);
}

/// A number is read from digits alone, with a plus sign in front or without, and from nothing else; one that is too large is
/// not read.
pub proof fn law_numbers_are_digits(s: Seq<char>, i: int)
    ensures
        parsed_u64(Seq::<char>::empty()) is None,
        s.len() > 0 && s[0] != '+' ==> parsed_u64(seq!['+'] + s) == parsed_u64(s),
        0 < i < s.len() && !('0' <= s[i] <= '9') ==> parsed_u64(s) is None,
        s.len() > 0 && !('0' <= s[0] <= '9') && s[0] != '+' ==> parsed_u64(s) is None,
        parsed_u64(s) matches Some(n) ==> digits_value(if s[0] == '+' { s.skip(1) } else { s }) == n,
{
    if s.len() > 0 && s[0] != '+' {
        assert((seq!['+'] + s).drop_first() =~= s);
    }
    if 0 < i < s.len() && !('0' <= s[i] <= '9') {
        let digits = unsigned_digits(s);
        if s.first() == '+' {
            assert(digits[i - 1] == s[i]);
            assert(!is_digit(digits[i - 1]));
        } else {
            assert(!is_digit(digits[i]));
        }
    }
    if s.len() > 0 && !('0' <= s[0] <= '9') && s[0] != '+' {
        assert(!is_digit(unsigned_digits(s)[0]));
    }
    if s.len() > 0 && s[0] == '+' {
        assert(s.skip(1) =~= s.drop_first());
    }
}

/// A character takes as many bytes as its code needs: one up to seven bits, and five or six bits more for each further byte.
pub proof fn law_wider_characters_take_more_bytes(c: char)
    ensures
        utf8_width(c) == 1 <==> (c as int) < 0x80,
        utf8_width(c) == 2 <==> 0x80 <= c as int && (c as int) < 0x800,
        utf8_width(c) == 3 <==> 0x800 <= c as int && (c as int) < 0x10000,
        utf8_width(c) == 4 <==> 0x10000 <= c as int,
{
}

/// A printed list holds its texts in their order, each quoted, between brackets.
pub proof fn law_printed_lists_keep_their_order(first: Seq<char>, rest: Seq<Seq<char>>)
    ensures
        quoted_list(seq![first] + rest) == if rest.len() == 0 {
            "["@ + quoted(first) + "]"@
        } else {
            "["@ + quoted(first) + ", "@ + quoted_list(rest).skip("["@.len() as int)
        },
{
    let all = (seq![first] + rest).map_values(|part: Seq<char>| quoted(part));
    let others = rest.map_values(|part: Seq<char>| quoted(part));
    assert(all =~= seq![quoted(first)] + others);
    law_joined_texts_keep_their_order(quoted(first), others, ", "@);
    if rest.len() > 0 {
        assert(quoted_list(rest).skip("["@.len() as int) =~= joined(others, ", "@) + "]"@);
        assert(quoted_list(seq![first] + rest) =~= "["@ + quoted(first) + ", "@ + quoted_list(rest).skip(
            "["@.len() as int,
        ));
    }
}

} // verus!
