//! Character classes shared by the predicates, with executable checkers,
//! and a helper that exposes a string as a vector of its characters.

use vstd::prelude::*;

verus! {

/// Decimal digit `0`–`9`.
pub open spec fn is_digit(c: char) -> bool {
    ('0' as u32) <= (c as u32) && (c as u32) <= ('9' as u32)
}

/// Decimal digit `1`–`9`.
pub open spec fn is_nonzero_digit(c: char) -> bool {
    ('1' as u32) <= (c as u32) && (c as u32) <= ('9' as u32)
}

/// Lowercase ASCII letter.
pub open spec fn is_lower(c: char) -> bool {
    ('a' as u32) <= (c as u32) && (c as u32) <= ('z' as u32)
}

/// Uppercase ASCII letter.
pub open spec fn is_upper(c: char) -> bool {
    ('A' as u32) <= (c as u32) && (c as u32) <= ('Z' as u32)
}

/// ASCII letter, either case.
pub open spec fn is_letter(c: char) -> bool {
    is_lower(c) || is_upper(c)
}

/// Word character: letter, digit or underscore.
pub open spec fn is_word_char(c: char) -> bool {
    is_letter(c) || is_digit(c) || c == '_'
}

/// ASCII whitespace: space, tab, line feed, vertical tab, form feed,
/// carriage return.
pub open spec fn is_space_char(c: char) -> bool {
    c == ' ' || c == '\t' || c == '\n' || c == '\u{b}' || c == '\u{c}' || c == '\r'
}

/// Every character of `s` in `[from, to)` is a decimal digit.
pub open spec fn digits_range(s: Seq<char>, from: int, to: int) -> bool {
    forall|i: int| from <= i < to ==> is_digit(#[trigger] s[i])
}

pub fn check_digit(c: char) -> (b: bool)
    ensures
        b == is_digit(c),
{
    let u: u32 = c as u32;
    ('0' as u32) <= u && u <= ('9' as u32)
}

pub fn check_nonzero_digit(c: char) -> (b: bool)
    ensures
        b == is_nonzero_digit(c),
{
    let u: u32 = c as u32;
    ('1' as u32) <= u && u <= ('9' as u32)
}

pub fn check_lower(c: char) -> (b: bool)
    ensures
        b == is_lower(c),
{
    let u: u32 = c as u32;
    ('a' as u32) <= u && u <= ('z' as u32)
}

pub fn check_upper(c: char) -> (b: bool)
    ensures
        b == is_upper(c),
{
    let u: u32 = c as u32;
    ('A' as u32) <= u && u <= ('Z' as u32)
}

pub fn check_letter(c: char) -> (b: bool)
    ensures
        b == is_letter(c),
{
    check_lower(c) || check_upper(c)
}

pub fn check_word_char(c: char) -> (b: bool)
    ensures
        b == is_word_char(c),
{
    check_letter(c) || check_digit(c) || c == '_'
}

pub fn check_space_char(c: char) -> (b: bool)
    ensures
        b == is_space_char(c),
{
    c == ' ' || c == '\t' || c == '\n' || c == '\u{b}' || c == '\u{c}' || c == '\r'
}

/// The characters of `s`, in order, as a vector.
pub fn chars_of(s: &str) -> (v: Vec<char>)
    ensures
        v@ == s@,
{
    let n: usize = s.unicode_len();
    let mut v: Vec<char> = Vec::new();
    let mut i: usize = 0;
    while i < n
        invariant
            n == s@.len(),
            i <= n,
            v@ =~= s@.subrange(0, i as int),
        decreases n - i,
    {
        v.push(s.get_char(i));
        i += 1;
    }
    assert(s@.subrange(0, n as int) =~= s@);
    v
}

/// Every character of `v` in `[from, to)` is a decimal digit.
pub fn all_digits(v: &Vec<char>, from: usize, to: usize) -> (b: bool)
    requires
        from <= to <= v.len(),
    ensures
        b == digits_range(v@, from as int, to as int),
{
    let mut i: usize = from;
    while i < to
        invariant
            from <= i <= to <= v.len(),
            forall|j: int| from <= j < i ==> is_digit(#[trigger] v@[j]),
        decreases to - i,
    {
        if !check_digit(v[i]) {
            return false;
        }
        i += 1;
    }
    true
}

} // verus!
