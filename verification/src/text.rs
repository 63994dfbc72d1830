//! Characters and strings: the character classes of the query language,
//! case-insensitive comparison, and decimal integer literals.

use vstd::prelude::*;
use vstd::std_specs::iter::IteratorSpec;

verus! {

broadcast use vstd::string::group_string_axioms;

/// `String::push` appends one character to the end of the string and leaves
/// the characters already there untouched.
pub assume_specification[ String::push ](s: &mut String, ch: char)
    ensures
        final(s)@ == old(s)@.push(ch),
;

/// Space, tab and newline separate tokens.
pub open spec fn spec_is_whitespace(c: char) -> bool {
    c == ' ' || c == '\t' || c == '\n'
}

/// An ASCII letter of either case.
pub open spec fn spec_is_letter(c: char) -> bool {
    ('a' <= c && c <= 'z') || ('A' <= c && c <= 'Z')
}

/// An ASCII decimal digit.
pub open spec fn spec_is_digit(c: char) -> bool {
    '0' <= c && c <= '9'
}

/// A character that may open an identifier or keyword.
pub open spec fn spec_is_ident_start(c: char) -> bool {
    spec_is_letter(c) || c == '_' || c == '@'
}

/// A character that may continue an identifier or keyword.
pub open spec fn spec_is_ident_part(c: char) -> bool {
    spec_is_letter(c) || spec_is_digit(c) || c == '_'
}

#[verifier::when_used_as_spec(spec_is_whitespace)]
pub fn is_whitespace(c: char) -> (b: bool)
    ensures
        b == spec_is_whitespace(c),
{
    c == ' ' || c == '\t' || c == '\n'
}

#[verifier::when_used_as_spec(spec_is_letter)]
pub fn is_letter(c: char) -> (b: bool)
    ensures
        b == spec_is_letter(c),
{
    ('a' <= c && c <= 'z') || ('A' <= c && c <= 'Z')
}

#[verifier::when_used_as_spec(spec_is_digit)]
pub fn is_digit(c: char) -> (b: bool)
    ensures
        b == spec_is_digit(c),
{
    '0' <= c && c <= '9'
}

#[verifier::when_used_as_spec(spec_is_ident_start)]
pub fn is_ident_start(c: char) -> (b: bool)
    ensures
        b == spec_is_ident_start(c),
{
    is_letter(c) || c == '_' || c == '@'
}

#[verifier::when_used_as_spec(spec_is_ident_part)]
pub fn is_ident_part(c: char) -> (b: bool)
    ensures
        b == spec_is_ident_part(c),
{
    is_letter(c) || is_digit(c) || c == '_'
}

/// The upper-case form of an ASCII letter; every other character is itself.
pub open spec fn spec_ascii_upper(c: char) -> char {
    if 'a' <= c && c <= 'z' {
        ((c as u8) - 32) as u8 as char
    } else {
        c
    }
}

#[verifier::when_used_as_spec(spec_ascii_upper)]
pub fn ascii_upper(c: char) -> (u: char)
    ensures
        u == spec_ascii_upper(c),
{
    if 'a' <= c && c <= 'z' {
        let b: u8 = c as u8;
        (b - 32) as char
    } else {
        c
    }
}

/// Two texts are the same up to the case of their ASCII letters.
pub open spec fn same_ignoring_case(a: Seq<char>, b: Seq<char>) -> bool {
    &&& a.len() == b.len()
    &&& forall|i: int| 0 <= i < a.len() ==> spec_ascii_upper(a[i]) == spec_ascii_upper(b[i])
}

/// Compares two strings without regard to the case of ASCII letters.
pub fn eq_ignore_case(a: &str, b: &str) -> (same: bool)
    ensures
        same == same_ignoring_case(a@, b@),
{
    let mut left = a.chars();
    let mut right = b.chars();
    let ghost mut done: int = 0;
    loop
        invariant
            0 <= done <= a@.len(),
            done <= b@.len(),
            left.remaining() == a@.skip(done),
            right.remaining() == b@.skip(done),
            forall|i: int| 0 <= i < done ==> spec_ascii_upper(a@[i]) == spec_ascii_upper(b@[i]),
        decreases a@.len() - done,
    {
        match (left.next(), right.next()) {
            (None, None) => {
                return true;
            },
            (Some(x), Some(y)) => {
                if ascii_upper(x) != ascii_upper(y) {
                    assert(a@[done] == x && b@[done] == y);
                    return false;
                }
                proof {
                    assert(a@.skip(done).drop_first() =~= a@.skip(done + 1));
                    assert(b@.skip(done).drop_first() =~= b@.skip(done + 1));
                    done = done + 1;
                }
            },
            _ => {
                return false;
            },
        }
    }
}

/// The characters of `s`, in order.
pub fn chars_of(s: &str) -> (v: Vec<char>)
    ensures
        v@ == s@,
{
    let mut v: Vec<char> = Vec::new();
    let mut it = s.chars();
    loop
        invariant
            v@ + it.remaining() == s@,
        ensures
            v@ == s@,
        decreases s@.len() - v.len(),
    {
        match it.next() {
            Some(c) => {
                v.push(c);
            },
            None => {
                break ;
            },
        }
    }
    v
}

/// The string made of the characters `v[from..to]`.
pub fn string_of(v: &Vec<char>, from: usize, to: usize) -> (s: String)
    requires
        from <= to <= v.len(),
    ensures
        s@ == v@.subrange(from as int, to as int),
{
    let mut s = String::new();
    let mut i: usize = from;
    while i < to
        invariant
            from <= i <= to <= v.len(),
            s@ == v@.subrange(from as int, i as int),
        decreases to - i,
    {
        s.push(v[i]);
        i += 1;
    }
    s
}

/// The number that a decimal digit stands for.
pub open spec fn digit_value(c: char) -> int {
    c as int - '0' as int
}

/// The number that a run of decimal digits denotes; the empty run denotes 0.
pub open spec fn decimal_value(digits: Seq<char>) -> int
    decreases digits.len(),
{
    if digits.len() == 0 {
        0
    } else {
        decimal_value(digits.drop_last()) * 10 + digit_value(digits.last())
    }
}

/// Every character of the text is a decimal digit.
pub open spec fn all_digits(s: Seq<char>) -> bool {
    forall|i: int| 0 <= i < s.len() ==> spec_is_digit(s[i])
}

/// The digits of an integer literal: the text without its sign, if it has one.
pub open spec fn literal_digits(s: Seq<char>) -> Seq<char> {
    if s.len() > 0 && (s[0] == '+' || s[0] == '-') {
        s.drop_first()
    } else {
        s
    }
}

/// The number that an integer literal denotes, without regard to range.
pub open spec fn literal_value(s: Seq<char>) -> int {
    if s.len() > 0 && s[0] == '-' {
        -decimal_value(literal_digits(s))
    } else {
        decimal_value(literal_digits(s))
    }
}

/// The value of a signed 64-bit integer literal: an optional `+` or `-`, then
/// one or more decimal digits, denoting a number that an `i64` can hold.
/// Any other text has no value.
pub open spec fn int_literal(s: Seq<char>) -> Option<i64> {
    if literal_digits(s).len() > 0 && all_digits(literal_digits(s)) && i64::MIN <= literal_value(s)
        <= i64::MAX {
        Some(literal_value(s) as i64)
    } else {
        None
    }
}

/// A run of digits denotes no less than any of its prefixes.
pub proof fn lemma_decimal_value_grows(digits: Seq<char>, k: int)
    requires
        all_digits(digits),
        0 <= k <= digits.len(),
    ensures
        0 <= decimal_value(digits.take(k)) <= decimal_value(digits),
    decreases digits.len() - k,
{
    if k == 0 {
        lemma_decimal_value_nonnegative(digits);
        assert(digits.take(0).len() == 0);
    } else if k == digits.len() {
        assert(digits.take(k) =~= digits);
        lemma_decimal_value_nonnegative(digits);
    } else {
        lemma_decimal_value_grows(digits, k + 1);
        assert(digits.take(k + 1).drop_last() =~= digits.take(k));
        lemma_decimal_value_nonnegative(digits.take(k));
    }
}

/// A run of digits denotes a natural number.
pub proof fn lemma_decimal_value_nonnegative(digits: Seq<char>)
    requires
        all_digits(digits),
    ensures
        0 <= decimal_value(digits),
    decreases digits.len(),
{
    if digits.len() > 0 {
        lemma_decimal_value_nonnegative(digits.drop_last());
    }
}

/// Reads a signed 64-bit integer literal.
pub fn parse_int_literal(s: &str) -> (r: Option<i64>)
    ensures
        r == int_literal(s@),
{
    let text = chars_of(s);
    let n: usize = text.len();
    if n == 0 {
        return None;
    }
    let negative: bool = text[0] == '-';
    let start: usize = if text[0] == '-' || text[0] == '+' {
        1
    } else {
        0
    };
    if start == n {
        return None;
    }
    let ghost digits = literal_digits(s@);
    assert(digits =~= s@.skip(start as int));
    let limit: u64 = if negative {
        9223372036854775808
    } else {
        9223372036854775807
    };
    let mut acc: u64 = 0;
    let mut i: usize = start;
    while i < n
        invariant
            start <= i <= n,
            n == text.len(),
            text@ == s@,
            digits == s@.skip(start as int),
            digits == literal_digits(s@),
            all_digits(digits.take(i - start)),
            acc == decimal_value(digits.take(i - start)),
            acc <= limit,
            s@.len() > 0,
            negative == (s@[0] == '-'),
            limit == if negative {
                9223372036854775808u64
            } else {
                9223372036854775807u64
            },
        decreases n - i,
    {
        let c: char = text[i];
        assert(c == digits[i - start]);
        if !is_digit(c) {
            return None;
        }
        let d: u64 = (c as u8 - '0' as u8) as u64;
        assert(d == digit_value(c) && d <= 9);
        let ghost next = digits.take(i - start + 1);
        assert(next.drop_last() =~= digits.take(i - start));
        assert(next.last() == c);
        assert(all_digits(next));
        if acc > (limit - d) / 10 {
            proof {
                assert(decimal_value(next) > limit);
                if all_digits(digits) {
                    lemma_decimal_value_grows(digits, i - start + 1);
                }
            }
            return None;
        }
        acc = acc * 10 + d;
        i += 1;
    }
    assert(digits.take(n - start) =~= digits);
    if negative {
        if acc == 9223372036854775808 {
            Some(i64::MIN)
        } else {
            let m: i64 = acc as i64;
            Some(-m)
        }
    } else {
        Some(acc as i64)
    }
}

} // verus!
