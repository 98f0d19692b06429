//! Character classification and conversions between `str`, `String` and
//! character vectors.

use vstd::prelude::*;

verus! {

/// Whether `c` has Unicode's `White_Space` property: these 25 code points.
pub open spec fn is_white(c: char) -> bool {
    let u = c as u32;
    (0x09 <= u <= 0x0D) || u == 0x20 || u == 0x85 || u == 0xA0 || u == 0x1680 || (0x2000 <= u
        <= 0x200A) || u == 0x2028 || u == 0x2029 || u == 0x202F || u == 0x205F || u == 0x3000
}

/// Whether a character beyond ASCII has Unicode's `Alphabetic` property.
pub uninterp spec fn alphabetic_beyond_ascii(c: char) -> bool;

/// Whether a character beyond ASCII is alphabetic or numeric in Unicode's
/// sense.
pub uninterp spec fn alphanumeric_beyond_ascii(c: char) -> bool;

/// Whether `c` is alphabetic: in ASCII, the letters.
pub open spec fn is_alpha(c: char) -> bool {
    if (c as u32) < 0x80 {
        ('a' <= c && c <= 'z') || ('A' <= c && c <= 'Z')
    } else {
        alphabetic_beyond_ascii(c)
    }
}

/// Whether `c` is alphabetic or numeric: in ASCII, the letters and digits.
pub open spec fn is_alnum(c: char) -> bool {
    if (c as u32) < 0x80 {
        ('a' <= c && c <= 'z') || ('A' <= c && c <= 'Z') || ('0' <= c && c <= '9')
    } else {
        alphanumeric_beyond_ascii(c)
    }
}

/// Relies on `char::is_whitespace`, documented as the `White_Space`
/// property.
#[verifier::external_body]
pub(crate) fn char_is_whitespace(c: char) -> (r: bool)
    ensures
        r == is_white(c),
{
    c.is_whitespace()
}

/// Relies on `char::is_alphabetic`: the `Alphabetic` property, which in
/// ASCII holds of the letters `a`-`z` and `A`-`Z` alone.
#[verifier::external_body]
pub(crate) fn char_is_alphabetic(c: char) -> (r: bool)
    ensures
        r == is_alpha(c),
        (c as u32) >= 0x80 ==> r == alphabetic_beyond_ascii(c),
{
    c.is_alphabetic()
}

/// Relies on `char::is_alphanumeric`, documented as
/// `is_alphabetic() || is_numeric()`: in ASCII the letters and the digits
/// `0`-`9`, and every alphabetic character is alphanumeric.
#[verifier::external_body]
pub(crate) fn char_is_alphanumeric(c: char) -> (r: bool)
    ensures
        r == is_alnum(c),
        (c as u32) >= 0x80 ==> r == alphanumeric_beyond_ascii(c),
        is_alpha(c) ==> r,
{
    c.is_alphanumeric()
}

/// Relies on `str::chars`: the characters of `s`, in order.
#[verifier::external_body]
pub(crate) fn chars_of(s: &str) -> (r: Vec<char>)
    ensures
        r@ == s@,
{
    s.chars().collect()
}

/// Relies on `String: FromIterator<char>`: the string of the characters `v`.
#[verifier::external_body]
pub(crate) fn string_of(v: &[char]) -> (r: String)
    ensures
        r@ == v@,
{
    v.iter().collect()
}

/// Relies on `str == str`: equality of the characters.
#[verifier::external_body]
pub(crate) fn str_eq(a: &str, b: &str) -> (r: bool)
    ensures
        r == (a@ == b@),
{
    a == b
}

/// The words that `shell_words::split` makes of a command line, or `None`
/// where it fails.
pub uninterp spec fn shell_words_of(s: Seq<char>) -> Option<Seq<Seq<char>>>;

/// The texts of a list of strings.
pub open spec fn texts(v: Seq<String>) -> Seq<Seq<char>> {
    v.map_values(|s: String| s@)
}

/// Relies on `shell_words::split`: it splits a command line into words by
/// the quoting rules of a POSIX shell, its result depends on the text alone,
/// and its only error, for a quote left open, reads "missing closing quote".
#[verifier::external_body]
pub(crate) fn split_words(s: &str) -> (r: Result<Vec<String>, String>)
    ensures
        match shell_words_of(s@) {
            Some(ws) => r is Ok && texts(r->Ok_0@) == ws,
            None => r is Err && r->Err_0@ == "missing closing quote"@,
        },
{
    shell_words::split(s).map_err(|e| e.to_string())
}

} // verus!
