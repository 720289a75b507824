//! General-purpose format checks: train numbers, IMEI codes, URLs,
//! organization registration codes, media links, base64 data URIs and
//! bank-card numbers.

use vstd::prelude::*;
use crate::classes::{
    all_digits, chars_of, check_digit, check_letter, check_lower, check_nonzero_digit,
    check_space_char, check_word_char, digits_range, is_digit, is_letter, is_lower,
    is_nonzero_digit, is_space_char, is_word_char,
};

verus! {

/// Leading character of a train number: one of the service letters, or a
/// digit `1`–`9`.
pub open spec fn is_train_head(c: char) -> bool {
    c == 'G' || c == 'C' || c == 'D' || c == 'Z' || c == 'T' || c == 'S' || c == 'P' || c == 'K'
        || c == 'X' || c == 'L' || c == 'Y' || is_nonzero_digit(c)
}

/// Train number: a service letter or a digit `1`–`9`, then one to four
/// digits; the whole input must match.
pub open spec fn train_number_matches(s: Seq<char>) -> bool {
    &&& 2 <= s.len() <= 5
    &&& is_train_head(s[0])
    &&& digits_range(s, 1, s.len() as int)
}

pub fn is_train_number(train_number: &str) -> (r: bool)
    ensures
        r == train_number_matches(train_number@),
{
    let v = chars_of(train_number);
    let n = v.len();
    if n < 2 || n > 5 {
        return false;
    }
    let c = v[0];
    let head = c == 'G' || c == 'C' || c == 'D' || c == 'Z' || c == 'T' || c == 'S' || c == 'P'
        || c == 'K' || c == 'X' || c == 'L' || c == 'Y' || check_nonzero_digit(c);
    head && all_digits(&v, 1, n)
}

/// IMEI: 15 to 17 decimal digits; the whole input must match.
pub open spec fn imei_matches(s: Seq<char>) -> bool {
    &&& 15 <= s.len() <= 17
    &&& digits_range(s, 0, s.len() as int)
}

pub fn is_imei(imei: &str) -> (r: bool)
    ensures
        r == imei_matches(imei@),
{
    let v = chars_of(imei);
    let n = v.len();
    if n < 15 || n > 17 {
        return false;
    }
    all_digits(&v, 0, n)
}

/// Character allowed in an organization registration code: a digit or an
/// uppercase letter other than `I`, `O`, `S`, `V` and `Z`.
pub open spec fn is_credit_code_char(c: char) -> bool {
    is_digit(c) || (('A' as u32) <= (c as u32) && (c as u32) <= ('H' as u32)) || (('J' as u32) <= (
    c as u32) && (c as u32) <= ('N' as u32)) || c == 'P' || c == 'Q' || c == 'R' || c == 'T' || c
        == 'U' || c == 'W' || c == 'X' || c == 'Y'
}

/// Unified social credit code: two restricted characters, six digits, then
/// ten more restricted characters; 18 characters, whole input.
pub open spec fn credit_code_matches(s: Seq<char>) -> bool {
    &&& s.len() == 18
    &&& is_credit_code_char(s[0])
    &&& is_credit_code_char(s[1])
    &&& digits_range(s, 2, 8)
    &&& forall|i: int| 8 <= i < 18 ==> is_credit_code_char(#[trigger] s[i])
}

fn check_credit_code_char(c: char) -> (b: bool)
    ensures
        b == is_credit_code_char(c),
{
    let u: u32 = c as u32;
    check_digit(c) || (('A' as u32) <= u && u <= ('H' as u32)) || (('J' as u32) <= u && u <= (
    'N' as u32)) || c == 'P' || c == 'Q' || c == 'R' || c == 'T' || c == 'U' || c == 'W' || c == 'X'
        || c == 'Y'
}

pub fn is_unified_social_credit_code(str: &str) -> (r: bool)
    ensures
        r == credit_code_matches(str@),
{
    let v = chars_of(str);
    if v.len() != 18 {
        return false;
    }
    if !(check_credit_code_char(v[0]) && check_credit_code_char(v[1])) {
        return false;
    }
    if !all_digits(&v, 2, 8) {
        return false;
    }
    let mut i: usize = 8;
    while i < 18
        invariant
            8 <= i <= 18,
            v.len() == 18,
            v@ == str@,
            forall|j: int| 8 <= j < i ==> is_credit_code_char(#[trigger] v@[j]),
        decreases 18 - i,
    {
        if !check_credit_code_char(v[i]) {
            assert(!is_credit_code_char(str@[i as int]));
            return false;
        }
        i += 1;
    }
    true
}

/// An optional scheme prefix ends at `k`: none (`k == 0`), or one of
/// `http://`, `https://`, `ftp://`, `ftps://`.
pub open spec fn scheme_split(s: Seq<char>, k: int) -> bool {
    ||| k == 0
    ||| (k == 7 && s.len() >= 7 && s[0] == 'h' && s[1] == 't' && s[2] == 't' && s[3] == 'p'
        && s[4] == ':' && s[5] == '/' && s[6] == '/')
    ||| (k == 8 && s.len() >= 8 && s[0] == 'h' && s[1] == 't' && s[2] == 't' && s[3] == 'p'
        && s[4] == 's' && s[5] == ':' && s[6] == '/' && s[7] == '/')
    ||| (k == 6 && s.len() >= 6 && s[0] == 'f' && s[1] == 't' && s[2] == 'p' && s[3] == ':'
        && s[4] == '/' && s[5] == '/')
    ||| (k == 7 && s.len() >= 7 && s[0] == 'f' && s[1] == 't' && s[2] == 'p' && s[3] == 's'
        && s[4] == ':' && s[5] == '/' && s[6] == '/')
}

fn has_http(v: &Vec<char>) -> (b: bool)
    ensures
        b == (v@.len() >= 7 && v@[0] == 'h' && v@[1] == 't' && v@[2] == 't' && v@[3] == 'p'
            && v@[4] == ':' && v@[5] == '/' && v@[6] == '/'),
{
    v.len() >= 7 && v[0] == 'h' && v[1] == 't' && v[2] == 't' && v[3] == 'p' && v[4] == ':'
        && v[5] == '/' && v[6] == '/'
}

fn has_https(v: &Vec<char>) -> (b: bool)
    ensures
        b == (v@.len() >= 8 && v@[0] == 'h' && v@[1] == 't' && v@[2] == 't' && v@[3] == 'p'
            && v@[4] == 's' && v@[5] == ':' && v@[6] == '/' && v@[7] == '/'),
{
    v.len() >= 8 && v[0] == 'h' && v[1] == 't' && v[2] == 't' && v[3] == 'p' && v[4] == 's'
        && v[5] == ':' && v[6] == '/' && v[7] == '/'
}

fn has_ftp(v: &Vec<char>) -> (b: bool)
    ensures
        b == (v@.len() >= 6 && v@[0] == 'f' && v@[1] == 't' && v@[2] == 'p' && v@[3] == ':'
            && v@[4] == '/' && v@[5] == '/'),
{
    v.len() >= 6 && v[0] == 'f' && v[1] == 't' && v[2] == 'p' && v[3] == ':' && v[4] == '/'
        && v[5] == '/'
}

fn has_ftps(v: &Vec<char>) -> (b: bool)
    ensures
        b == (v@.len() >= 7 && v@[0] == 'f' && v@[1] == 't' && v@[2] == 'p' && v@[3] == 's'
            && v@[4] == ':' && v@[5] == '/' && v@[6] == '/'),
{
    v.len() >= 7 && v[0] == 'f' && v[1] == 't' && v[2] == 'p' && v[3] == 's' && v[4] == ':'
        && v[5] == '/' && v[6] == '/'
}

/// Host character: a word character, a hyphen or a dot.
pub open spec fn is_host_char(c: char) -> bool {
    is_word_char(c) || c == '-' || c == '.'
}

/// The span `[from, to)` is a host: nonempty dot-separated segments of word
/// characters and hyphens, with at least two segments.
pub open spec fn host_range(s: Seq<char>, from: int, to: int) -> bool {
    &&& from < to
    &&& forall|i: int| from <= i < to ==> is_host_char(#[trigger] s[i])
    &&& s[from] != '.'
    &&& s[to - 1] != '.'
    &&& forall|i: int| from <= i < to - 1 ==> !((#[trigger] s[i]) == '.' && s[i + 1] == '.')
    &&& exists|i: int| from <= i < to && (#[trigger] s[i]) == '.'
}

/// The span `[from, to)` is a port with an optional trailing slash: one to
/// five digits, then `/` or nothing.
pub open spec fn port_range(s: Seq<char>, from: int, to: int) -> bool {
    ||| (1 <= to - from <= 5 && digits_range(s, from, to))
    ||| (2 <= to - from <= 6 && s[to - 1] == '/' && digits_range(s, from, to - 1))
}

/// URL with a mandatory port: optional scheme, host, `:`, one to five
/// digits, optional trailing slash; whole input.
pub open spec fn url_with_port_matches(s: Seq<char>) -> bool {
    exists|k: int, c: int|
        {
            &&& #[trigger] scheme_split(s, k)
            &&& k <= c < s.len()
            &&& (#[trigger] s[c]) == ':'
            &&& host_range(s, k, c)
            &&& port_range(s, c + 1, s.len() as int)
        }
}

fn host_check(v: &Vec<char>, from: usize, to: usize) -> (b: bool)
    requires
        from <= to <= v.len(),
    ensures
        b == host_range(v@, from as int, to as int),
{
    if from >= to {
        return false;
    }
    if v[from] == '.' || v[to - 1] == '.' {
        return false;
    }
    let mut i: usize = from;
    let mut has_dot = false;
    while i < to
        invariant
            from <= i <= to <= v.len(),
            from < to,
            forall|j: int| from <= j < i ==> is_host_char(#[trigger] v@[j]),
            has_dot == exists|j: int| from <= j < i && (#[trigger] v@[j]) == '.',
            forall|j: int| from <= j < i - 1 ==> !((#[trigger] v@[j]) == '.' && v@[j + 1] == '.'),
        decreases to - i,
    {
        let c = v[i];
        if !check_word_char(c) && c != '-' && c != '.' {
            assert(!is_host_char(v@[i as int]));
            return false;
        }
        if c == '.' {
            if i > from && v[i - 1] == '.' {
                assert((v@[i as int - 1]) == '.' && v@[i as int] == '.');
                return false;
            }
            has_dot = true;
        }
        i += 1;
    }
    has_dot
}

fn port_check(v: &Vec<char>, from: usize) -> (b: bool)
    requires
        from <= v.len(),
    ensures
        b == port_range(v@, from as int, v@.len() as int),
{
    let n = v.len();
    let plain = 1 <= n - from && n - from <= 5 && all_digits(v, from, n);
    let slashed = 2 <= n - from && n - from <= 6 && v[n - 1] == '/' && all_digits(v, from, n - 1);
    plain || slashed
}

fn port_tail_check(v: &Vec<char>, k: usize) -> (b: bool)
    requires
        k <= v.len(),
    ensures
        b == exists|c: int|
            {
                &&& k <= c < v@.len()
                &&& (#[trigger] v@[c]) == ':'
                &&& host_range(v@, k as int, c)
                &&& port_range(v@, c + 1, v@.len() as int)
            },
{
    let n = v.len();
    let mut c: usize = k;
    while c < n && v[c] != ':'
        invariant
            k <= c <= n,
            n == v.len(),
            forall|j: int| k <= j < c ==> (#[trigger] v@[j]) != ':',
        decreases n - c,
    {
        c += 1;
    }
    if c == n {
        return false;
    }
    let b = host_check(v, k, c) && port_check(v, c + 1);
    proof {
        if !b {
            if exists|c2: int|
                {
                    &&& k <= c2 < v@.len()
                    &&& (#[trigger] v@[c2]) == ':'
                    &&& host_range(v@, k as int, c2)
                    &&& port_range(v@, c2 + 1, v@.len() as int)
                } {
                let c2 = choose|c2: int|
                    {
                        &&& k <= c2 < v@.len()
                        &&& (#[trigger] v@[c2]) == ':'
                        &&& host_range(v@, k as int, c2)
                        &&& port_range(v@, c2 + 1, v@.len() as int)
                    };
                if c2 > c as int {
                    assert(is_host_char(v@[c as int]));
                    assert(false);
                }
                assert(c2 == c as int);
                assert(false);
            }
        }
    }
    b
}

pub fn is_url_with_port(url: &str) -> (r: bool)
    ensures
        r == url_with_port_matches(url@),
{
    let v = chars_of(url);
    let bare = port_tail_check(&v, 0);
    let th = has_http(&v) && port_tail_check(&v, 7);
    let ths = has_https(&v) && port_tail_check(&v, 8);
    let tf = has_ftp(&v) && port_tail_check(&v, 6);
    let tfs = has_ftps(&v) && port_tail_check(&v, 7);
    let r = bare || th || ths || tf || tfs;
    proof {
        assert(scheme_split(v@, 0));
        if th || tfs {
            assert(scheme_split(v@, 7));
        }
        if ths {
            assert(scheme_split(v@, 8));
        }
        if tf {
            assert(scheme_split(v@, 6));
        }
        if url_with_port_matches(v@) {
            let (k, c) = choose|k: int, c: int|
                {
                    &&& #[trigger] scheme_split(v@, k)
                    &&& k <= c < v@.len()
                    &&& (#[trigger] v@[c]) == ':'
                    &&& host_range(v@, k, c)
                    &&& port_range(v@, c + 1, v@.len() as int)
                };
            assert(k == 0 || k == 6 || k == 7 || k == 8);
        }
    }
    r
}

/// A mandatory `http://` (`k == 7`) or `https://` (`k == 8`) prefix ends at
/// `k`.
pub open spec fn http_scheme_split(s: Seq<char>, k: int) -> bool {
    ||| (k == 7 && s.len() >= 7 && s[0] == 'h' && s[1] == 't' && s[2] == 't' && s[3] == 'p'
        && s[4] == ':' && s[5] == '/' && s[6] == '/')
    ||| (k == 8 && s.len() >= 8 && s[0] == 'h' && s[1] == 't' && s[2] == 't' && s[3] == 'p'
        && s[4] == 's' && s[5] == ':' && s[6] == '/' && s[7] == '/')
}

/// The span `[base, m)` is a slash-terminated path followed by a nonempty
/// file name: some `/` stands strictly inside it, not first and not last,
/// and no line feed occurs in it.
pub open spec fn media_path_ok(s: Seq<char>, base: int, m: int) -> bool {
    &&& exists|i: int| base + 1 <= i && i + 2 <= m && (#[trigger] s[i]) == '/'
    &&& forall|i: int| base <= i < m ==> (#[trigger] s[i]) != '\n'
}

fn media_path_check(v: &Vec<char>, base: usize, m: usize) -> (b: bool)
    requires
        base <= v.len(),
        m <= v.len(),
    ensures
        b == media_path_ok(v@, base as int, m as int),
{
    if m <= base || m - base < 3 {
        return false;
    }
    let mut i: usize = base;
    let mut slash = false;
    while i < m
        invariant
            base <= i <= m <= v.len(),
            forall|j: int| base <= j < i ==> (#[trigger] v@[j]) != '\n',
            slash == exists|j: int| base + 1 <= j < i && j + 2 <= m && (#[trigger] v@[j]) == '/',
        decreases m - i,
    {
        let c = v[i];
        if c == '\n' {
            assert(v@[i as int] == '\n');
            return false;
        }
        if c == '/' && i > base && m - i >= 2 {
            slash = true;
        }
        i += 1;
    }
    slash
}

/// A video file extension preceded by a dot ends the input, and `m` is the
/// dot's position: one of `.swf`, `.avi`, `.flv`, `.mpg`, `.rm`, `.mov`,
/// `.wav`, `.asf`, `.3gp`, `.mkv`, `.rmvb`, `.mp4`, lowercase only.
pub open spec fn video_ext_at(s: Seq<char>, m: int) -> bool {
    ||| (s.len() >= 4 && m == s.len() - 4 && s[m] == '.' && s[m + 1] == 's' && s[m + 2] == 'w'
        && s[m + 3] == 'f')
    ||| (s.len() >= 4 && m == s.len() - 4 && s[m] == '.' && s[m + 1] == 'a' && s[m + 2] == 'v'
        && s[m + 3] == 'i')
    ||| (s.len() >= 4 && m == s.len() - 4 && s[m] == '.' && s[m + 1] == 'f' && s[m + 2] == 'l'
        && s[m + 3] == 'v')
    ||| (s.len() >= 4 && m == s.len() - 4 && s[m] == '.' && s[m + 1] == 'm' && s[m + 2] == 'p'
        && s[m + 3] == 'g')
    ||| (s.len() >= 3 && m == s.len() - 3 && s[m] == '.' && s[m + 1] == 'r' && s[m + 2] == 'm')
    ||| (s.len() >= 4 && m == s.len() - 4 && s[m] == '.' && s[m + 1] == 'm' && s[m + 2] == 'o'
        && s[m + 3] == 'v')
    ||| (s.len() >= 4 && m == s.len() - 4 && s[m] == '.' && s[m + 1] == 'w' && s[m + 2] == 'a'
        && s[m + 3] == 'v')
    ||| (s.len() >= 4 && m == s.len() - 4 && s[m] == '.' && s[m + 1] == 'a' && s[m + 2] == 's'
        && s[m + 3] == 'f')
    ||| (s.len() >= 4 && m == s.len() - 4 && s[m] == '.' && s[m + 1] == '3' && s[m + 2] == 'g'
        && s[m + 3] == 'p')
    ||| (s.len() >= 4 && m == s.len() - 4 && s[m] == '.' && s[m + 1] == 'm' && s[m + 2] == 'k'
        && s[m + 3] == 'v')
    ||| (s.len() >= 5 && m == s.len() - 5 && s[m] == '.' && s[m + 1] == 'r' && s[m + 2] == 'm'
        && s[m + 3] == 'v' && s[m + 4] == 'b')
    ||| (s.len() >= 4 && m == s.len() - 4 && s[m] == '.' && s[m + 1] == 'm' && s[m + 2] == 'p'
        && s[m + 3] == '4')
}

/// Video link: `http://` or `https://`, a slash-terminated path, a file
/// name, and a lowercase video extension after a dot; whole input.
pub open spec fn video_url_matches(s: Seq<char>) -> bool {
    exists|k: int, m: int|
        #[trigger] http_scheme_split(s, k) && media_path_ok(s, k, m) && #[trigger] video_ext_at(
            s,
            m,
        )
}

fn video_suffix_check(v: &Vec<char>) -> (r: (bool, usize))
    ensures
        r.0 ==> r.1 <= v.len() && video_ext_at(v@, r.1 as int),
        forall|m2: int| #[trigger] video_ext_at(v@, m2) ==> r.0 && m2 == r.1 as int,
{
    let n = v.len();
    if n >= 4 && v[n - 4] == '.' {
        let a = v[n - 3];
        let b = v[n - 2];
        let c = v[n - 1];
        if (a == 's' && b == 'w' && c == 'f') || (a == 'a' && b == 'v' && c == 'i') || (a == 'f'
            && b == 'l' && c == 'v') || (a == 'm' && b == 'p' && c == 'g') || (a == 'm' && b == 'o'
            && c == 'v') || (a == 'w' && b == 'a' && c == 'v') || (a == 'a' && b == 's' && c == 'f')
            || (a == '3' && b == 'g' && c == 'p') || (a == 'm' && b == 'k' && c == 'v') || (a == 'm'
            && b == 'p' && c == '4') {
            return (true, n - 4);
        }
    }
    if n >= 3 && v[n - 3] == '.' && v[n - 2] == 'r' && v[n - 1] == 'm' {
        return (true, n - 3);
    }
    if n >= 5 && v[n - 5] == '.' && v[n - 4] == 'r' && v[n - 3] == 'm' && v[n - 2] == 'v' && v[n
        - 1] == 'b' {
        return (true, n - 5);
    }
    (false, 0)
}

pub fn is_video_url(url: &str) -> (r: bool)
    ensures
        r == video_url_matches(url@),
{
    let v = chars_of(url);
    let (found, m) = video_suffix_check(&v);
    if !found {
        return false;
    }
    let th = has_http(&v) && media_path_check(&v, 7, m);
    let ths = has_https(&v) && media_path_check(&v, 8, m);
    let r = th || ths;
    proof {
        if th {
            assert(http_scheme_split(v@, 7));
        }
        if ths {
            assert(http_scheme_split(v@, 8));
        }
        if video_url_matches(v@) {
            let (k, m2) = choose|k: int, m2: int|
                #[trigger] http_scheme_split(v@, k) && media_path_ok(v@, k, m2)
                    && #[trigger] video_ext_at(v@, m2);
            assert(m2 == m as int);
            assert(k == 7 || k == 8);
        }
    }
    r
}

/// An image file extension ends the input, and `m` is where it begins: one
/// of `gif`, `png`, `jpg`, `jpeg`, `webp`, `svg`, `psd`, `bmp`, `tif`,
/// lowercase only and with no dot required before it.
pub open spec fn image_ext_at(s: Seq<char>, m: int) -> bool {
    ||| (s.len() >= 3 && m == s.len() - 3 && s[m] == 'g' && s[m + 1] == 'i' && s[m + 2] == 'f')
    ||| (s.len() >= 3 && m == s.len() - 3 && s[m] == 'p' && s[m + 1] == 'n' && s[m + 2] == 'g')
    ||| (s.len() >= 3 && m == s.len() - 3 && s[m] == 'j' && s[m + 1] == 'p' && s[m + 2] == 'g')
    ||| (s.len() >= 4 && m == s.len() - 4 && s[m] == 'j' && s[m + 1] == 'p' && s[m + 2] == 'e'
        && s[m + 3] == 'g')
    ||| (s.len() >= 4 && m == s.len() - 4 && s[m] == 'w' && s[m + 1] == 'e' && s[m + 2] == 'b'
        && s[m + 3] == 'p')
    ||| (s.len() >= 3 && m == s.len() - 3 && s[m] == 's' && s[m + 1] == 'v' && s[m + 2] == 'g')
    ||| (s.len() >= 3 && m == s.len() - 3 && s[m] == 'p' && s[m + 1] == 's' && s[m + 2] == 'd')
    ||| (s.len() >= 3 && m == s.len() - 3 && s[m] == 'b' && s[m + 1] == 'm' && s[m + 2] == 'p')
    ||| (s.len() >= 3 && m == s.len() - 3 && s[m] == 't' && s[m + 1] == 'i' && s[m + 2] == 'f')
}

/// Image link: `http://` or `https://`, a slash-terminated path, a file
/// name, and a lowercase image extension as a bare suffix; whole input.
pub open spec fn image_url_matches(s: Seq<char>) -> bool {
    exists|k: int, m: int|
        #[trigger] http_scheme_split(s, k) && media_path_ok(s, k, m) && #[trigger] image_ext_at(
            s,
            m,
        )
}

fn image_suffix_check(v: &Vec<char>) -> (r: (bool, usize))
    ensures
        r.0 ==> r.1 <= v.len() && image_ext_at(v@, r.1 as int),
        forall|m2: int| #[trigger] image_ext_at(v@, m2) ==> r.0 && m2 == r.1 as int,
{
    let n = v.len();
    if n >= 3 {
        let a = v[n - 3];
        let b = v[n - 2];
        let c = v[n - 1];
        if (a == 'g' && b == 'i' && c == 'f') || (a == 'p' && b == 'n' && c == 'g') || (a == 'j'
            && b == 'p' && c == 'g') || (a == 's' && b == 'v' && c == 'g') || (a == 'p' && b == 's'
            && c == 'd') || (a == 'b' && b == 'm' && c == 'p') || (a == 't' && b == 'i'
            && c == 'f') {
            return (true, n - 3);
        }
    }
    if n >= 4 {
        let a = v[n - 4];
        let b = v[n - 3];
        let c = v[n - 2];
        let d = v[n - 1];
        if (a == 'j' && b == 'p' && c == 'e' && d == 'g') || (a == 'w' && b == 'e' && c == 'b' && d
            == 'p') {
            return (true, n - 4);
        }
    }
    (false, 0)
}

pub fn is_image_url(url: &str) -> (r: bool)
    ensures
        r == image_url_matches(url@),
{
    let v = chars_of(url);
    let (found, m) = image_suffix_check(&v);
    if !found {
        return false;
    }
    let th = has_http(&v) && media_path_check(&v, 7, m);
    let ths = has_https(&v) && media_path_check(&v, 8, m);
    let r = th || ths;
    proof {
        if th {
            assert(http_scheme_split(v@, 7));
        }
        if ths {
            assert(http_scheme_split(v@, 8));
        }
        if image_url_matches(v@) {
            let (k, m2) = choose|k: int, m2: int|
                #[trigger] http_scheme_split(v@, k) && media_path_ok(v@, k, m2)
                    && #[trigger] image_ext_at(v@, m2);
            assert(m2 == m as int);
            assert(k == 7 || k == 8);
        }
    }
    r
}

/// Character allowed inside a host label: anything but the listed
/// punctuation, the dot and whitespace.
pub open spec fn is_label_char(c: char) -> bool {
    !(c == '!' || c == '@' || c == '#' || c == '$' || c == '%' || c == '^' || c == '&' || c == '*'
        || c == '?' || c == '.' || is_space_char(c))
}

/// First character of a label: a label character other than `-`.
pub open spec fn is_label_start(c: char) -> bool {
    is_label_char(c) && c != '-'
}

/// The span `[from, to)` is one dot-terminated label: a starting
/// character, up to 64 more label characters, and the closing dot.
pub open spec fn label_range(s: Seq<char>, from: int, to: int) -> bool {
    &&& 2 <= to - from <= 66
    &&& s[to - 1] == '.'
    &&& is_label_start(s[from])
    &&& forall|i: int| from < i < to - 1 ==> is_label_char(#[trigger] s[i])
}

/// `j` closes a run of zero or more back-to-back labels that starts at
/// `base`.
pub open spec fn labels_to(s: Seq<char>, base: int, j: int) -> bool
    decreases j - base,
{
    if j <= base {
        j == base
    } else {
        exists|i: int|
            {
                &&& base <= i
                &&& i + 2 <= j
                &&& j - i <= 66
                &&& #[trigger] label_range(s, i, j)
                &&& labels_to(s, base, i)
            }
    }
}

/// The characters of `[j, j + k)` are lowercase letters.
pub open spec fn lowers_run(s: Seq<char>, j: int, k: int) -> bool {
    forall|i: int| j <= i < j + k ==> is_lower(#[trigger] s[i])
}

/// A top-level segment of two to six lowercase letters begins at `j`.
pub open spec fn tld_at(s: Seq<char>, j: int) -> bool {
    exists|k: int| 2 <= k <= 6 && j + k <= s.len() && #[trigger] lowers_run(s, j, k)
}

/// Some prefix of the input taken from `base` onward is a generic URL
/// body: one or more dot-terminated labels, then a top-level segment.
/// Anything may follow, since the match is anchored at the start only.
pub open spec fn url_tail_matches(s: Seq<char>, base: int) -> bool {
    exists|j: int| base < j && #[trigger] labels_to(s, base, j) && tld_at(s, j)
}

/// Generic URL: an optional scheme, then one or more dot-terminated
/// labels and a top-level segment of lowercase letters; a prefix match.
pub open spec fn url_matches(s: Seq<char>) -> bool {
    exists|k: int| #[trigger] scheme_split(s, k) && url_tail_matches(s, k)
}

fn check_label_char(c: char) -> (b: bool)
    ensures
        b == is_label_char(c),
{
    !(c == '!' || c == '@' || c == '#' || c == '$' || c == '%' || c == '^' || c == '&' || c == '*'
        || c == '?' || c == '.' || check_space_char(c))
}

fn label_check(v: &Vec<char>, from: usize, to: usize) -> (b: bool)
    requires
        from <= v.len(),
        to <= v.len(),
    ensures
        b == label_range(v@, from as int, to as int),
{
    if to <= from || to - from < 2 || to - from > 66 {
        return false;
    }
    if v[to - 1] != '.' {
        return false;
    }
    let c0 = v[from];
    if !(check_label_char(c0) && c0 != '-') {
        return false;
    }
    let mut i: usize = from + 1;
    while i < to - 1
        invariant
            from + 1 <= i <= to - 1,
            to <= v.len(),
            from + 2 <= to,
            forall|j: int| from < j < i ==> is_label_char(#[trigger] v@[j]),
        decreases to - i,
    {
        if !check_label_char(v[i]) {
            assert(!is_label_char(v@[i as int]));
            return false;
        }
        i += 1;
    }
    true
}

fn tld_check(v: &Vec<char>, j: usize) -> (b: bool)
    requires
        j <= v.len(),
    ensures
        b == tld_at(v@, j as int),
{
    let b = v.len() - j >= 2 && check_lower(v[j]) && check_lower(v[j + 1]);
    proof {
        if b {
            assert(lowers_run(v@, j as int, 2));
        }
        if tld_at(v@, j as int) && !b {
            let k = choose|k: int|
                2 <= k <= 6 && j as int + k <= v@.len() && #[trigger] lowers_run(v@, j as int, k);
            assert(is_lower(v@[j as int]));
            assert(is_lower(v@[j as int + 1]));
            assert(false);
        }
    }
    b
}

fn url_tail_check(v: &Vec<char>, base: usize) -> (b: bool)
    requires
        base <= v.len(),
    ensures
        b == url_tail_matches(v@, base as int),
{
    let ghost s = v@;
    let ghost bs = base as int;
    let n = v.len();
    let m = n - base;
    let mut bvec: Vec<bool> = Vec::new();
    bvec.push(true);
    let mut step: usize = 0;
    while step < m
        invariant
            base <= n,
            n == v.len(),
            m == n - base,
            s == v@,
            bs == base as int,
            step <= m,
            bvec.len() == step + 1,
            forall|d: int| 0 <= d <= step ==> (#[trigger] bvec@[d]) == labels_to(s, bs, bs + d),
        decreases m - step,
    {
        let j = step + 1;
        let lo: usize = if j >= 66 {
            j - 66
        } else {
            0
        };
        let mut found = false;
        let mut i: usize = lo;
        while j - i >= 2
            invariant
                lo <= i <= j,
                j <= m,
                base <= n,
                n == v.len(),
                m == n - base,
                s == v@,
                bs == base as int,
                bvec.len() == j,
                forall|d: int| 0 <= d < j ==> (#[trigger] bvec@[d]) == labels_to(s, bs, bs + d),
                found == exists|d: int|
                    lo <= d < i && (#[trigger] bvec@[d]) && label_range(s, bs + d, bs + j),
            decreases j - i,
        {
            if bvec[i] && label_check(v, base + i, base + j) {
                found = true;
            }
            i += 1;
        }
        proof {
            if found {
                let d = choose|d: int|
                    lo <= d < i && (#[trigger] bvec@[d]) && label_range(s, bs + d, bs + j as int);
                assert(labels_to(s, bs, bs + d));
                assert(labels_to(s, bs, bs + j as int));
            }
            if labels_to(s, bs, bs + j as int) && !found {
                let iabs = choose|iabs: int|
                    {
                        &&& bs <= iabs
                        &&& iabs + 2 <= bs + j
                        &&& bs + j - iabs <= 66
                        &&& #[trigger] label_range(s, iabs, bs + j)
                        &&& labels_to(s, bs, iabs)
                    };
                let d = iabs - bs;
                assert(lo <= d < j);
                assert(bvec@[d] == labels_to(s, bs, bs + d));
                assert(false);
            }
        }
        bvec.push(found);
        step += 1;
    }
    let mut ans = false;
    let mut step2: usize = 0;
    while step2 < m
        invariant
            base <= n,
            n == v.len(),
            m == n - base,
            s == v@,
            bs == base as int,
            step2 <= m,
            bvec.len() == m + 1,
            forall|d: int| 0 <= d <= m ==> (#[trigger] bvec@[d]) == labels_to(s, bs, bs + d),
            ans == exists|d: int| 1 <= d <= step2 && (#[trigger] bvec@[d]) && tld_at(s, bs + d),
        decreases m - step2,
    {
        let j2 = step2 + 1;
        if bvec[j2] && tld_check(v, base + j2) {
            ans = true;
        }
        step2 += 1;
    }
    proof {
        if ans {
            let d = choose|d: int| 1 <= d <= step2 && (#[trigger] bvec@[d]) && tld_at(s, bs + d);
            assert(labels_to(s, bs, bs + d));
            assert(url_tail_matches(s, bs));
        }
        if url_tail_matches(s, bs) && !ans {
            let jw = choose|jw: int| bs < jw && #[trigger] labels_to(s, bs, jw) && tld_at(s, jw);
            let k = choose|k: int|
                2 <= k <= 6 && jw + k <= s.len() && #[trigger] lowers_run(s, jw, k);
            assert(jw + 2 <= n);
            let d = jw - bs;
            assert(1 <= d <= m);
            assert(bvec@[d] == labels_to(s, bs, bs + d));
            assert(false);
        }
    }
    ans
}

pub fn is_url(url: &str) -> (r: bool)
    ensures
        r == url_matches(url@),
{
    let v = chars_of(url);
    let bare = url_tail_check(&v, 0);
    let th = has_http(&v) && url_tail_check(&v, 7);
    let ths = has_https(&v) && url_tail_check(&v, 8);
    let tf = has_ftp(&v) && url_tail_check(&v, 6);
    let tfs = has_ftps(&v) && url_tail_check(&v, 7);
    let r = bare || th || ths || tf || tfs;
    proof {
        assert(scheme_split(v@, 0));
        if th || tfs {
            assert(scheme_split(v@, 7));
        }
        if ths {
            assert(scheme_split(v@, 8));
        }
        if tf {
            assert(scheme_split(v@, 6));
        }
        if url_matches(v@) {
            let k = choose|k: int| #[trigger] scheme_split(v@, k) && url_tail_matches(v@, k);
            assert(k == 0 || k == 6 || k == 7 || k == 8);
        }
    }
    r
}

/// Character allowed in a data-URI payload: a letter of either case or a
/// digit (the base64 alphabet), one of the listed punctuation marks, or
/// whitespace.
pub open spec fn is_payload_char(c: char) -> bool {
    is_letter(c) || is_digit(c) || c == '!' || c == '$' || c == '&' || c == '\'' || c == ',' || c
        == '(' || c == ')' || c == '*' || c == '+' || c == ';' || c == '=' || c == '-' || c == '.'
        || c == '_' || c == '~' || c == ':' || c == '@' || c == '/' || c == '?' || c == '%'
        || is_space_char(c)
}

/// Character allowed in a mime subtype: lowercase letter, digit, `-`, `+`
/// or `.`.
pub open spec fn is_subtype_char(c: char) -> bool {
    is_lower(c) || is_digit(c) || c == '-' || c == '+' || c == '.'
}

/// Character allowed in a mime parameter name: lowercase letter or `-`.
pub open spec fn is_param_key_char(c: char) -> bool {
    is_lower(c) || c == '-'
}

/// Character allowed in a mime parameter value: lowercase letter, digit or
/// `-`.
pub open spec fn is_param_val_char(c: char) -> bool {
    is_lower(c) || is_digit(c) || c == '-'
}

/// The literal `;base64` spans `[from, to)`.
pub open spec fn marker_range(s: Seq<char>, from: int, to: int) -> bool {
    &&& to - from == 7
    &&& s[from] == ';'
    &&& s[from + 1] == 'b'
    &&& s[from + 2] == 'a'
    &&& s[from + 3] == 's'
    &&& s[from + 4] == 'e'
    &&& s[from + 5] == '6'
    &&& s[from + 6] == '4'
}

/// A mime parameter `;name=value` spans `[from, to)` exactly.
pub open spec fn param_range(s: Seq<char>, from: int, to: int) -> bool {
    &&& from < to
    &&& s[from] == ';'
    &&& exists|e: int|
        {
            &&& from + 2 <= e && e + 2 <= to
            &&& (#[trigger] s[e]) == '='
            &&& (forall|i: int| from + 1 <= i < e ==> is_param_key_char(#[trigger] s[i]))
            &&& (forall|i: int| e + 1 <= i < to ==> is_param_val_char(#[trigger] s[i]))
        }
}

/// A nonempty mime subtype spans `[from, to)`, optionally followed inside
/// the same span by one `;name=value` parameter.
pub open spec fn subtype_rest_range(s: Seq<char>, from: int, to: int) -> bool {
    ||| (from < to && forall|i: int| from <= i < to ==> is_subtype_char(#[trigger] s[i]))
    ||| exists|u: int|
        {
            &&& from < u < to
            &&& (#[trigger] s[u]) == ';'
            &&& (forall|i: int| from <= i < u ==> is_subtype_char(#[trigger] s[i]))
            &&& param_range(s, u, to)
        }
}

/// A mime type `type/subtype`, with an optional `;name=value` parameter,
/// spans `[from, to)`.
pub open spec fn mime_range(s: Seq<char>, from: int, to: int) -> bool {
    exists|k: int|
        {
            &&& from < k
            &&& (#[trigger] s[k]) == '/'
            &&& k < to
            &&& (forall|i: int| from <= i < k ==> is_lower(#[trigger] s[i]))
            &&& subtype_rest_range(s, k + 1, to)
        }
}

/// The data-URI header between `data:` and the comma: empty, the `;base64`
/// marker alone, a mime type, or a mime type followed by the marker.
pub open spec fn header_range(s: Seq<char>, from: int, to: int) -> bool {
    ||| to == from
    ||| marker_range(s, from, to)
    ||| mime_range(s, from, to)
    ||| (mime_range(s, from, to - 7) && marker_range(s, to - 7, to))
}

/// Base64 data URI: optional leading whitespace, `data:`, a header as in
/// [`header_range`], a comma, then a payload (possibly empty) of payload
/// characters reaching the end of the input.
pub open spec fn base64_uri_matches(s: Seq<char>) -> bool {
    exists|a: int, c: int|
        {
            &&& 0 <= a && a + 5 <= c && c < s.len()
            &&& (forall|i: int| 0 <= i < a ==> is_space_char(#[trigger] s[i]))
            &&& (#[trigger] s[a]) == 'd' && s[a + 1] == 'a' && s[a + 2] == 't' && s[a + 3] == 'a'
                && s[a + 4] == ':'
            &&& (#[trigger] s[c]) == ','
            &&& header_range(s, a + 5, c)
            &&& (forall|i: int| c < i < s.len() ==> is_payload_char(#[trigger] s[i]))
        }
}

fn check_subtype_char(c: char) -> (b: bool)
    ensures
        b == is_subtype_char(c),
{
    check_lower(c) || check_digit(c) || c == '-' || c == '+' || c == '.'
}

fn check_param_key_char(c: char) -> (b: bool)
    ensures
        b == is_param_key_char(c),
{
    check_lower(c) || c == '-'
}

fn check_param_val_char(c: char) -> (b: bool)
    ensures
        b == is_param_val_char(c),
{
    check_lower(c) || check_digit(c) || c == '-'
}

fn check_payload_char(c: char) -> (b: bool)
    ensures
        b == is_payload_char(c),
{
    check_letter(c) || check_digit(c) || c == '!' || c == '$' || c == '&' || c == '\'' || c == ','
        || c == '(' || c == ')' || c == '*' || c == '+' || c == ';' || c == '=' || c == '-' || c
        == '.' || c == '_' || c == '~' || c == ':' || c == '@' || c == '/' || c == '?' || c == '%'
        || check_space_char(c)
}

/// First index in `[from, to)` whose character is not lowercase, or `to`.
fn scan_lower(v: &Vec<char>, from: usize, to: usize) -> (k: usize)
    requires
        from <= to <= v.len(),
    ensures
        from <= k <= to,
        forall|i: int| from <= i < k ==> is_lower(#[trigger] v@[i]),
        k < to ==> !is_lower(v@[k as int]),
    decreases to - from,
{
    let mut k: usize = from;
    while k < to && check_lower(v[k])
        invariant
            from <= k <= to <= v.len(),
            forall|i: int| from <= i < k ==> is_lower(#[trigger] v@[i]),
        decreases to - k,
    {
        k += 1;
    }
    k
}

/// First index in `[from, to)` whose character is not a subtype character,
/// or `to`.
fn scan_subtype(v: &Vec<char>, from: usize, to: usize) -> (k: usize)
    requires
        from <= to <= v.len(),
    ensures
        from <= k <= to,
        forall|i: int| from <= i < k ==> is_subtype_char(#[trigger] v@[i]),
        k < to ==> !is_subtype_char(v@[k as int]),
{
    let mut k: usize = from;
    while k < to && check_subtype_char(v[k])
        invariant
            from <= k <= to <= v.len(),
            forall|i: int| from <= i < k ==> is_subtype_char(#[trigger] v@[i]),
        decreases to - k,
    {
        k += 1;
    }
    k
}

/// First index in `[from, to)` whose character is not a parameter-name
/// character, or `to`.
fn scan_param_key(v: &Vec<char>, from: usize, to: usize) -> (k: usize)
    requires
        from <= to <= v.len(),
    ensures
        from <= k <= to,
        forall|i: int| from <= i < k ==> is_param_key_char(#[trigger] v@[i]),
        k < to ==> !is_param_key_char(v@[k as int]),
{
    let mut k: usize = from;
    while k < to && check_param_key_char(v[k])
        invariant
            from <= k <= to <= v.len(),
            forall|i: int| from <= i < k ==> is_param_key_char(#[trigger] v@[i]),
        decreases to - k,
    {
        k += 1;
    }
    k
}

/// First index in `[from, to)` whose character is not a parameter-value
/// character, or `to`.
fn scan_param_val(v: &Vec<char>, from: usize, to: usize) -> (k: usize)
    requires
        from <= to <= v.len(),
    ensures
        from <= k <= to,
        forall|i: int| from <= i < k ==> is_param_val_char(#[trigger] v@[i]),
        k < to ==> !is_param_val_char(v@[k as int]),
{
    let mut k: usize = from;
    while k < to && check_param_val_char(v[k])
        invariant
            from <= k <= to <= v.len(),
            forall|i: int| from <= i < k ==> is_param_val_char(#[trigger] v@[i]),
        decreases to - k,
    {
        k += 1;
    }
    k
}

fn marker_check(v: &Vec<char>, from: usize, to: usize) -> (b: bool)
    requires
        from <= to <= v.len(),
    ensures
        b == marker_range(v@, from as int, to as int),
{
    to - from == 7 && v[from] == ';' && v[from + 1] == 'b' && v[from + 2] == 'a' && v[from + 3]
        == 's' && v[from + 4] == 'e' && v[from + 5] == '6' && v[from + 6] == '4'
}

fn header_check(v: &Vec<char>, from: usize, to: usize) -> (b: bool)
    requires
        from <= to <= v.len(),
    ensures
        b == header_range(v@, from as int, to as int),
{
    let ghost s = v@;
    let ghost f = from as int;
    let ghost t = to as int;
    if to == from {
        return true;
    }
    if marker_check(v, from, to) {
        return true;
    }
    let k = scan_lower(v, from, to);
    if k == from || k == to || v[k] != '/' {
        proof {
            lemma_mime_slash_unique(s, f, t, k as int);
            lemma_mime_slash_unique(s, f, t - 7, k as int);
        }
        return false;
    }
    let u = scan_subtype(v, k + 1, to);
    proof {
        lemma_mime_slash_unique(s, f, t, k as int);
        lemma_mime_slash_unique(s, f, t - 7, k as int);
    }
    if u == k + 1 {
        proof {
            lemma_subtype_break_unique(s, k as int + 1, t, u as int);
            lemma_subtype_break_unique(s, k as int + 1, t - 7, u as int);
        }
        return false;
    }
    if u == to {
        assert(subtype_rest_range(s, k as int + 1, t));
        assert(mime_range(s, f, t));
        return true;
    }
    proof {
        assert(!is_subtype_char(';'));
        lemma_subtype_break_unique(s, k as int + 1, t, u as int);
        lemma_subtype_break_unique(s, k as int + 1, t - 7, u as int);
    }
    if v[u] != ';' {
        return false;
    }
    if marker_check(v, u, to) {
        assert(subtype_rest_range(s, k as int + 1, t - 7));
        assert(mime_range(s, f, t - 7));
        return true;
    }
    let e = scan_param_key(v, u + 1, to);
    proof {
        assert(!is_subtype_char(';'));
        assert(!is_param_val_char(';'));
        lemma_param_eq_unique(s, u as int, t, e as int);
        lemma_param_eq_unique(s, u as int, t - 7, e as int);
    }
    if e == u + 1 || e == to || v[e] != '=' {
        return false;
    }
    let w = scan_param_val(v, e + 1, to);
    if w == e + 1 {
        return false;
    }
    if w == to {
        assert(param_range(s, u as int, t));
        assert(subtype_rest_range(s, k as int + 1, t));
        assert(mime_range(s, f, t));
        return true;
    }
    let b = marker_check(v, w, to);
    proof {
        if b {
            assert(param_range(s, u as int, w as int));
            assert(subtype_rest_range(s, k as int + 1, w as int));
            assert(mime_range(s, f, w as int));
        }
    }
    b
}

/// First index in `[from, to)` whose character is not whitespace, or `to`.
fn scan_space(v: &Vec<char>, from: usize, to: usize) -> (k: usize)
    requires
        from <= to <= v.len(),
    ensures
        from <= k <= to,
        forall|i: int| from <= i < k ==> is_space_char(#[trigger] v@[i]),
        k < to ==> !is_space_char(v@[k as int]),
{
    let mut k: usize = from;
    while k < to && check_space_char(v[k])
        invariant
            from <= k <= to <= v.len(),
            forall|i: int| from <= i < k ==> is_space_char(#[trigger] v@[i]),
        decreases to - k,
    {
        k += 1;
    }
    k
}

/// First index in `[from, to)` holding a comma, or `to`.
fn scan_to_comma(v: &Vec<char>, from: usize, to: usize) -> (k: usize)
    requires
        from <= to <= v.len(),
    ensures
        from <= k <= to,
        forall|i: int| from <= i < k ==> (#[trigger] v@[i]) != ',',
        k < to ==> v@[k as int] == ',',
{
    let mut k: usize = from;
    while k < to && v[k] != ','
        invariant
            from <= k <= to <= v.len(),
            forall|i: int| from <= i < k ==> (#[trigger] v@[i]) != ',',
        decreases to - k,
    {
        k += 1;
    }
    k
}

fn payload_all(v: &Vec<char>, from: usize, to: usize) -> (b: bool)
    requires
        from <= to <= v.len(),
    ensures
        b == forall|i: int| from <= i < to ==> is_payload_char(#[trigger] v@[i]),
{
    let mut k: usize = from;
    while k < to
        invariant
            from <= k <= to <= v.len(),
            forall|i: int| from <= i < k ==> is_payload_char(#[trigger] v@[i]),
        decreases to - k,
    {
        if !check_payload_char(v[k]) {
            assert(!is_payload_char(v@[k as int]));
            return false;
        }
        k += 1;
    }
    true
}

/// With all characters before `a` whitespace and `s[a]` not whitespace, a
/// witness position `a2` that follows leading whitespace and holds `d` can
/// only be `a` itself.
proof fn lemma_data_start(s: Seq<char>, a: int, a2: int)
    requires
        0 <= a <= s.len(),
        forall|i: int| 0 <= i < a ==> is_space_char(#[trigger] s[i]),
        a < s.len() ==> !is_space_char(s[a]),
        0 <= a2 < s.len(),
        forall|i: int| 0 <= i < a2 ==> is_space_char(#[trigger] s[i]),
        s[a2] == 'd',
    ensures
        a2 == a,
{
    assert(!is_space_char('d'));
    if a2 < a {
        assert(is_space_char(s[a2]));
    }
    if a2 > a {
        assert(is_space_char(s[a]));
    }
}

/// No comma occurs inside a mime type span.
proof fn lemma_mime_no_comma(s: Seq<char>, from: int, to: int)
    requires
        mime_range(s, from, to),
    ensures
        forall|i: int| from <= i < to ==> (#[trigger] s[i]) != ',',
{
    let k = choose|k: int|
        {
            &&& from < k
            &&& (#[trigger] s[k]) == '/'
            &&& k < to
            &&& (forall|i: int| from <= i < k ==> is_lower(#[trigger] s[i]))
            &&& subtype_rest_range(s, k + 1, to)
        };
    assert(!is_lower(','));
    assert(!is_subtype_char(','));
    assert(!is_param_key_char(','));
    assert(!is_param_val_char(','));
    assert forall|i: int| from <= i < to implies (#[trigger] s[i]) != ',' by {
        if i < k {
            assert(is_lower(s[i]));
        } else if i == k {
        } else {
            if k + 1 < to && (forall|j: int| k + 1 <= j < to ==> is_subtype_char(#[trigger] s[j])) {
                assert(is_subtype_char(s[i]));
            } else {
                let u = choose|u: int|
                    {
                        &&& k + 1 < u < to
                        &&& (#[trigger] s[u]) == ';'
                        &&& (forall|j: int| k + 1 <= j < u ==> is_subtype_char(#[trigger] s[j]))
                        &&& param_range(s, u, to)
                    };
                let e = choose|e: int|
                    {
                        &&& u + 2 <= e && e + 2 <= to
                        &&& (#[trigger] s[e]) == '='
                        &&& (forall|j: int| u + 1 <= j < e ==> is_param_key_char(#[trigger] s[j]))
                        &&& (forall|j: int| e + 1 <= j < to ==> is_param_val_char(#[trigger] s[j]))
                    };
                if i < u {
                    assert(is_subtype_char(s[i]));
                } else if i == u {
                } else if i < e {
                    assert(is_param_key_char(s[i]));
                } else if i == e {
                } else {
                    assert(is_param_val_char(s[i]));
                }
            }
        }
    }
}

/// No comma occurs inside a data-URI header span.
proof fn lemma_header_no_comma(s: Seq<char>, from: int, to: int)
    requires
        header_range(s, from, to),
    ensures
        forall|i: int| from <= i < to ==> (#[trigger] s[i]) != ',',
{
    if to == from {
    } else if marker_range(s, from, to) {
        assert forall|i: int| from <= i < to implies (#[trigger] s[i]) != ',' by {
            assert(i - from < 7);
        }
    } else if mime_range(s, from, to) {
        lemma_mime_no_comma(s, from, to);
    } else {
        lemma_mime_no_comma(s, from, to - 7);
        assert forall|i: int| from <= i < to implies (#[trigger] s[i]) != ',' by {
            if i < to - 7 {
            } else {
                assert(i - (to - 7) < 7);
            }
        }
    }
}

pub fn is_base64(url: &str) -> (r: bool)
    ensures
        r == base64_uri_matches(url@),
{
    let v = chars_of(url);
    let ghost s = v@;
    let n = v.len();
    let a = scan_space(&v, 0, n);
    if n - a < 5 || v[a] != 'd' || v[a + 1] != 'a' || v[a + 2] != 't' || v[a + 3] != 'a' || v[a + 4]
        != ':' {
        proof {
            if base64_uri_matches(s) {
                let (a2, c2) = choose|a2: int, c2: int|
                    {
                        &&& 0 <= a2 && a2 + 5 <= c2 && c2 < s.len()
                        &&& (forall|i: int| 0 <= i < a2 ==> is_space_char(#[trigger] s[i]))
                        &&& (#[trigger] s[a2]) == 'd' && s[a2 + 1] == 'a' && s[a2 + 2] == 't'
                            && s[a2 + 3] == 'a' && s[a2 + 4] == ':'
                        &&& (#[trigger] s[c2]) == ','
                        &&& header_range(s, a2 + 5, c2)
                        &&& (forall|i: int| c2 < i < s.len() ==> is_payload_char(#[trigger] s[i]))
                    };
                lemma_data_start(s, a as int, a2);
                assert(false);
            }
        }
        return false;
    }
    let c = scan_to_comma(&v, a + 5, n);
    let hdr = c < n && header_check(&v, a + 5, c);
    let pay = c < n && payload_all(&v, c + 1, n);
    let r = hdr && pay;
    proof {
        if r {
            assert(s[a as int] == 'd');
            assert(s[c as int] == ',');
            assert(base64_uri_matches(s));
        }
        if base64_uri_matches(s) && !r {
            let (a2, c2) = choose|a2: int, c2: int|
                {
                    &&& 0 <= a2 && a2 + 5 <= c2 && c2 < s.len()
                    &&& (forall|i: int| 0 <= i < a2 ==> is_space_char(#[trigger] s[i]))
                    &&& (#[trigger] s[a2]) == 'd' && s[a2 + 1] == 'a' && s[a2 + 2] == 't' && s[a2
                        + 3] == 'a' && s[a2 + 4] == ':'
                    &&& (#[trigger] s[c2]) == ','
                    &&& header_range(s, a2 + 5, c2)
                    &&& (forall|i: int| c2 < i < s.len() ==> is_payload_char(#[trigger] s[i]))
                };
            lemma_data_start(s, a as int, a2);
            lemma_header_no_comma(s, a as int + 5, c2);
            if c2 > c as int {
                assert(s[c as int] != ',');
                assert(false);
            }
            if c2 < c as int {
                assert(s[c2] != ',');
                assert(false);
            }
            assert(false);
        }
    }
    r
}

/// If the characters of `[from, k)` are lowercase and `s[k]` is not `/`
/// (or `k` is out of the span), a mime type spanning `[from, to)` puts its
/// slash exactly at `k`.
proof fn lemma_mime_slash_unique(s: Seq<char>, from: int, to: int, k: int)
    requires
        from <= k,
        forall|i: int| from <= i < k ==> is_lower(#[trigger] s[i]),
        k < to ==> !is_lower(s[k]),
    ensures
        mime_range(s, from, to) ==> from < k < to && s[k] == '/' && subtype_rest_range(
            s,
            k + 1,
            to,
        ),
{
    if mime_range(s, from, to) {
        let k2 = choose|k2: int|
            {
                &&& from < k2
                &&& (#[trigger] s[k2]) == '/'
                &&& k2 < to
                &&& (forall|i: int| from <= i < k2 ==> is_lower(#[trigger] s[i]))
                &&& subtype_rest_range(s, k2 + 1, to)
            };
        assert(!is_lower('/'));
        if k2 < k {
            assert(is_lower(s[k2]));
            assert(false);
        }
        if k2 > k {
            assert(is_lower(s[k]));
            assert(false);
        }
    }
}

/// If the characters of `[from, u)` are subtype characters and `s[u]` is
/// not one (or `u` is out of the span), a subtype-with-parameter span of
/// `[from, to)` either is all subtype characters (`u >= to`) or breaks
/// exactly at `u` with a `;`.
proof fn lemma_subtype_break_unique(s: Seq<char>, from: int, to: int, u: int)
    requires
        from <= u,
        forall|i: int| from <= i < u ==> is_subtype_char(#[trigger] s[i]),
        u < to ==> !is_subtype_char(s[u]),
    ensures
        subtype_rest_range(s, from, to) ==> (from < to && u >= to) || (from < u < to && s[u] == ';'
            && param_range(s, u, to)),
{
    if subtype_rest_range(s, from, to) {
        assert(!is_subtype_char(';'));
        if from < to && (forall|i: int| from <= i < to ==> is_subtype_char(#[trigger] s[i])) {
            if u < to {
                assert(is_subtype_char(s[u]));
                assert(false);
            }
        } else {
            let u2 = choose|u2: int|
                {
                    &&& from < u2 < to
                    &&& (#[trigger] s[u2]) == ';'
                    &&& (forall|i: int| from <= i < u2 ==> is_subtype_char(#[trigger] s[i]))
                    &&& param_range(s, u2, to)
                };
            if u2 < u {
                assert(is_subtype_char(s[u2]));
                assert(false);
            }
            if u2 > u {
                assert(is_subtype_char(s[u]));
                assert(false);
            }
        }
    }
}

/// If the characters of `(from, e)` are parameter-name characters and
/// `s[e]` is not one (or `e` is out of the span), a parameter spanning
/// `[from, to)` puts its `=` exactly at `e`.
proof fn lemma_param_eq_unique(s: Seq<char>, from: int, to: int, e: int)
    requires
        from + 1 <= e,
        forall|i: int| from + 1 <= i < e ==> is_param_key_char(#[trigger] s[i]),
        e < to ==> !is_param_key_char(s[e]),
    ensures
        param_range(s, from, to) ==> from + 2 <= e && e + 2 <= to && s[e] == '=' && (forall|i: int|
            e + 1 <= i < to ==> is_param_val_char(#[trigger] s[i])),
{
    if param_range(s, from, to) {
        let e2 = choose|e2: int|
            {
                &&& from + 2 <= e2 && e2 + 2 <= to
                &&& (#[trigger] s[e2]) == '='
                &&& (forall|i: int| from + 1 <= i < e2 ==> is_param_key_char(#[trigger] s[i]))
                &&& (forall|i: int| e2 + 1 <= i < to ==> is_param_val_char(#[trigger] s[i]))
            };
        assert(!is_param_key_char('='));
        if e2 < e {
            assert(is_param_key_char(s[e2]));
            assert(false);
        }
        if e2 > e {
            assert(is_param_key_char(s[e]));
            assert(false);
        }
    }
}

/// Bank or credit card number: a digit `1`–`9` followed by 9 to 29 more
/// digits; the whole input must match.
pub open spec fn card_number_matches(s: Seq<char>) -> bool {
    &&& 10 <= s.len() <= 30
    &&& is_nonzero_digit(s[0])
    &&& digits_range(s, 1, s.len() as int)
}

pub fn is_credit_card_numbers(url: &str) -> (r: bool)
    ensures
        r == card_number_matches(url@),
{
    let v = chars_of(url);
    let n = v.len();
    if n < 10 || n > 30 {
        return false;
    }
    check_nonzero_digit(v[0]) && all_digits(&v, 1, n)
}

} // verus!
