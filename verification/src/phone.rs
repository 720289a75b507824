//! Mobile and landline phone-number checks for mainland numbers.

use vstd::prelude::*;
use crate::classes::{all_digits, chars_of, digits_range};

verus! {

/// The input may carry a country prefix: none (`k == 0`), `+86` (`k == 3`)
/// or `0086` (`k == 4`); `k` is where the national number begins.
pub open spec fn country_prefix_split(s: Seq<char>, k: int) -> bool {
    ||| k == 0
    ||| (k == 3 && s.len() >= 3 && s[0] == '+' && s[1] == '8' && s[2] == '6')
    ||| (k == 4 && s.len() >= 4 && s[0] == '0' && s[1] == '0' && s[2] == '8' && s[3] == '6')
}

/// Strict national mobile number starting at `from`: 11 digits, the first
/// `1`, the second `3`–`9`.
pub open spec fn strict_mobile_core(s: Seq<char>, from: int) -> bool {
    &&& s.len() - from == 11
    &&& s[from] == '1'
    &&& ('3' as u32) <= (s[from + 1] as u32) && (s[from + 1] as u32) <= ('9' as u32)
    &&& digits_range(s, from + 2, s.len() as int)
}

/// Loose national mobile number starting at `from`: `1` followed by any
/// ten digits.
pub open spec fn loose_mobile_core(s: Seq<char>, from: int) -> bool {
    &&& s.len() - from == 11
    &&& s[from] == '1'
    &&& digits_range(s, from + 1, s.len() as int)
}

/// Strict mainland mobile number: optional `+86` or `0086` prefix, then
/// `1`, a digit `3`–`9`, and nine more digits; whole input.
pub open spec fn phone_matches(s: Seq<char>) -> bool {
    exists|k: int| #[trigger] country_prefix_split(s, k) && strict_mobile_core(s, k)
}

/// Loose mainland mobile number: optional `+86` or `0086` prefix, then `1`
/// and any ten digits; whole input.
pub open spec fn phone_easy_matches(s: Seq<char>) -> bool {
    exists|k: int| #[trigger] country_prefix_split(s, k) && loose_mobile_core(s, k)
}

fn strict_core_check(v: &Vec<char>, from: usize) -> (b: bool)
    requires
        from <= v.len(),
    ensures
        b == strict_mobile_core(v@, from as int),
{
    if v.len() - from != 11 {
        return false;
    }
    let second: u32 = v[from + 1] as u32;
    v[from] == '1' && ('3' as u32) <= second && second <= ('9' as u32) && all_digits(
        v,
        from + 2,
        v.len(),
    )
}

fn loose_core_check(v: &Vec<char>, from: usize) -> (b: bool)
    requires
        from <= v.len(),
    ensures
        b == loose_mobile_core(v@, from as int),
{
    if v.len() - from != 11 {
        return false;
    }
    v[from] == '1' && all_digits(v, from + 1, v.len())
}

fn has_plus86(v: &Vec<char>) -> (b: bool)
    ensures
        b == (v@.len() >= 3 && v@[0] == '+' && v@[1] == '8' && v@[2] == '6'),
{
    v.len() >= 3 && v[0] == '+' && v[1] == '8' && v[2] == '6'
}

fn has_0086(v: &Vec<char>) -> (b: bool)
    ensures
        b == (v@.len() >= 4 && v@[0] == '0' && v@[1] == '0' && v@[2] == '8' && v@[3] == '6'),
{
    v.len() >= 4 && v[0] == '0' && v[1] == '0' && v[2] == '8' && v[3] == '6'
}

pub fn is_phone(text: &str) -> (r: bool)
    ensures
        r == phone_matches(text@),
{
    let v = chars_of(text);
    let bare = strict_core_check(&v, 0);
    let plus = has_plus86(&v) && strict_core_check(&v, 3);
    let zeros = has_0086(&v) && strict_core_check(&v, 4);
    let r = bare || plus || zeros;
    proof {
        assert(country_prefix_split(v@, 0));
        if plus {
            assert(country_prefix_split(v@, 3));
        }
        if zeros {
            assert(country_prefix_split(v@, 4));
        }
        if phone_matches(v@) {
            let k = choose|k: int| country_prefix_split(v@, k) && strict_mobile_core(v@, k);
            assert(k == 0 || k == 3 || k == 4);
        }
    }
    r
}

pub fn is_phone_easy(text: &str) -> (r: bool)
    ensures
        r == phone_easy_matches(text@),
{
    let v = chars_of(text);
    let bare = loose_core_check(&v, 0);
    let plus = has_plus86(&v) && loose_core_check(&v, 3);
    let zeros = has_0086(&v) && loose_core_check(&v, 4);
    let r = bare || plus || zeros;
    proof {
        assert(country_prefix_split(v@, 0));
        if plus {
            assert(country_prefix_split(v@, 3));
        }
        if zeros {
            assert(country_prefix_split(v@, 4));
        }
        if phone_easy_matches(v@) {
            let k = choose|k: int| country_prefix_split(v@, k) && loose_mobile_core(v@, k);
            assert(k == 0 || k == 3 || k == 4);
        }
    }
    r
}

/// Landline core spanning `[from, to)`: seven or eight bare digits, or a
/// three-digit area code, a dash and eight digits, or a four-digit area
/// code, a dash and seven or eight digits.
pub open spec fn tel_core(s: Seq<char>, from: int, to: int) -> bool {
    ||| (7 <= to - from <= 8 && digits_range(s, from, to))
    ||| (to - from == 12 && s[from + 3] == '-' && digits_range(s, from, from + 3) && digits_range(
        s,
        from + 4,
        to,
    ))
    ||| ((to - from == 12 || to - from == 13) && s[from + 4] == '-' && digits_range(
        s,
        from,
        from + 4,
    ) && digits_range(s, from + 5, to))
}

/// Optional extension suffix from `from` to the end: nothing, or a dash
/// followed by at least one digit.
pub open spec fn extension_suffix(s: Seq<char>, from: int) -> bool {
    ||| from == s.len()
    ||| (from + 2 <= s.len() && s[from] == '-' && digits_range(s, from + 1, s.len() as int))
}

/// Landline number: a landline core, optionally followed by a dash and an
/// extension number of any length; whole input.
pub open spec fn tel_phone_matches(s: Seq<char>) -> bool {
    exists|k: int| #[trigger] tel_core(s, 0, k) && extension_suffix(s, k)
}

fn tel_core_check(v: &Vec<char>, to: usize) -> (b: bool)
    requires
        to <= v.len(),
    ensures
        b == tel_core(v@, 0, to as int),
{
    let bare = 7 <= to && to <= 8 && all_digits(v, 0, to);
    let area3 = to == 12 && v[3] == '-' && all_digits(v, 0, 3) && all_digits(v, 4, to);
    let area4 = (to == 12 || to == 13) && v[4] == '-' && all_digits(v, 0, 4) && all_digits(
        v,
        5,
        to,
    );
    bare || area3 || area4
}

fn extension_check(v: &Vec<char>, from: usize) -> (b: bool)
    requires
        from <= v.len(),
    ensures
        b == extension_suffix(v@, from as int),
{
    if from == v.len() {
        return true;
    }
    v.len() - from >= 2 && v[from] == '-' && all_digits(v, from + 1, v.len())
}

pub fn is_tel_phone(text: &str) -> (r: bool)
    ensures
        r == tel_phone_matches(text@),
{
    let v = chars_of(text);
    let n = v.len();
    let c7 = 7 <= n && tel_core_check(&v, 7) && extension_check(&v, 7);
    let c8 = 8 <= n && tel_core_check(&v, 8) && extension_check(&v, 8);
    let c12 = 12 <= n && tel_core_check(&v, 12) && extension_check(&v, 12);
    let c13 = 13 <= n && tel_core_check(&v, 13) && extension_check(&v, 13);
    let r = c7 || c8 || c12 || c13;
    proof {
        if tel_phone_matches(v@) {
            let k = choose|k: int| tel_core(v@, 0, k) && extension_suffix(v@, k);
            assert(k == 7 || k == 8 || k == 12 || k == 13);
            assert(k <= v@.len());
        }
    }
    r
}

} // verus!
