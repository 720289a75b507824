//! Identity-card number checks for the mainland, Hong Kong, Macau and
//! Taiwan formats.

use vstd::prelude::*;
use crate::classes::{
    all_digits, chars_of, check_digit, check_letter, check_nonzero_digit, digits_range, is_digit,
    is_letter, is_nonzero_digit,
};

verus! {

/// Second-generation mainland ID card number: a six-digit region code whose
/// first digit is `1`–`9`, a four-digit year beginning `18`, `19` or `20`,
/// a month `01`–`12`, a day `01`–`31` (calendar shape only), three digits,
/// and a final check character that is a digit, `X` or `x`; 18 characters,
/// whole input.
pub open spec fn id_card_matches(s: Seq<char>) -> bool {
    &&& s.len() == 18
    &&& is_nonzero_digit(s[0])
    &&& digits_range(s, 1, 6)
    &&& ((s[6] == '1' && (s[7] == '8' || s[7] == '9')) || (s[6] == '2' && s[7] == '0'))
    &&& is_digit(s[8])
    &&& is_digit(s[9])
    &&& ((s[10] == '0' && is_nonzero_digit(s[11])) || (s[10] == '1' && (s[11] == '0' || s[11]
        == '1' || s[11] == '2')))
    &&& ((s[12] == '0' && is_nonzero_digit(s[13])) || ((s[12] == '1' || s[12] == '2') && is_digit(
        s[13],
    )) || (s[12] == '3' && (s[13] == '0' || s[13] == '1')))
    &&& digits_range(s, 14, 17)
    &&& (is_digit(s[17]) || s[17] == 'X' || s[17] == 'x')
}

pub fn is_id_card(card_number: &str) -> (r: bool)
    ensures
        r == id_card_matches(card_number@),
{
    let v = chars_of(card_number);
    if v.len() != 18 {
        return false;
    }
    let region = check_nonzero_digit(v[0]) && all_digits(&v, 1, 6);
    let year = ((v[6] == '1' && (v[7] == '8' || v[7] == '9')) || (v[6] == '2' && v[7] == '0'))
        && check_digit(v[8]) && check_digit(v[9]);
    let month = (v[10] == '0' && check_nonzero_digit(v[11])) || (v[10] == '1' && (v[11] == '0'
        || v[11] == '1' || v[11] == '2'));
    let day = (v[12] == '0' && check_nonzero_digit(v[13])) || ((v[12] == '1' || v[12] == '2')
        && check_digit(v[13])) || (v[12] == '3' && (v[13] == '0' || v[13] == '1'));
    let tail = all_digits(&v, 14, 17) && (check_digit(v[17]) || v[17] == 'X' || v[17] == 'x');
    region && year && month && day && tail
}

/// Hong Kong ID card number: a letter, six digits, then a check character
/// that is a digit or `A`, in parentheses; whole input.
pub open spec fn hongkong_id_matches(s: Seq<char>) -> bool {
    &&& s.len() == 10
    &&& is_letter(s[0])
    &&& digits_range(s, 1, 7)
    &&& s[7] == '('
    &&& (is_digit(s[8]) || s[8] == 'A')
    &&& s[9] == ')'
}

pub fn is_hongkong_id_card(card_number: &str) -> (r: bool)
    ensures
        r == hongkong_id_matches(card_number@),
{
    let v = chars_of(card_number);
    if v.len() != 10 {
        return false;
    }
    check_letter(v[0]) && all_digits(&v, 1, 7) && v[7] == '(' && (check_digit(v[8]) || v[8] == 'A')
        && v[9] == ')'
}

/// Macau ID card number: a leading digit `1`, `5` or `7`, six digits, then
/// one digit in parentheses; whole input.
pub open spec fn macau_id_matches(s: Seq<char>) -> bool {
    &&& s.len() == 10
    &&& (s[0] == '1' || s[0] == '5' || s[0] == '7')
    &&& digits_range(s, 1, 7)
    &&& s[7] == '('
    &&& is_digit(s[8])
    &&& s[9] == ')'
}

pub fn is_macau_id_card(card_number: &str) -> (r: bool)
    ensures
        r == macau_id_matches(card_number@),
{
    let v = chars_of(card_number);
    if v.len() != 10 {
        return false;
    }
    (v[0] == '1' || v[0] == '5' || v[0] == '7') && all_digits(&v, 1, 7) && v[7] == '('
        && check_digit(v[8]) && v[9] == ')'
}

/// Taiwan ID card number: a letter followed by nine digits; whole input.
pub open spec fn taiwan_id_matches(s: Seq<char>) -> bool {
    &&& s.len() == 10
    &&& is_letter(s[0])
    &&& digits_range(s, 1, 10)
}

pub fn is_taiwan_id_card(card_number: &str) -> (r: bool)
    ensures
        r == taiwan_id_matches(card_number@),
{
    let v = chars_of(card_number);
    if v.len() != 10 {
        return false;
    }
    check_letter(v[0]) && all_digits(&v, 1, 10)
}

} // verus!
