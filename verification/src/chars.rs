//! Character classification and the conversions between strings and
//! character vectors that the tokenizers work on.

use vstd::prelude::*;

verus! {

/// Whether a character has the Unicode `White_Space` property, as
/// `char::is_whitespace` decides it.
pub uninterp spec fn is_unicode_space(c: char) -> bool;

/// Whether a character is Unicode alphanumeric, as
/// `char::is_alphanumeric` decides it.
pub uninterp spec fn is_unicode_alphanumeric(c: char) -> bool;

/// Relies on char::is_whitespace: true exactly for characters with the
/// Unicode White_Space property; in ASCII these are space, tab, line
/// feed, vertical tab, form feed and carriage return.
#[verifier::external_body]
pub fn char_is_space(c: char) -> (r: bool)
    ensures
        r == is_unicode_space(c),
        (c as u32) < 128 ==> r == (c == ' ' || c == '\t' || c == '\n' || c == '\u{B}' || c
            == '\u{C}' || c == '\r'),
{
    c.is_whitespace()
}

/// Relies on char::is_alphanumeric: true exactly for Unicode alphabetic
/// and numeric characters; in ASCII these are the letters and the digits.
#[verifier::external_body]
pub fn char_is_alphanumeric(c: char) -> (r: bool)
    ensures
        r == is_unicode_alphanumeric(c),
        (c as u32) < 128 ==> r == (('a' <= c && c <= 'z') || ('A' <= c && c <= 'Z') || ('0' <= c
            && c <= '9')),
{
    c.is_alphanumeric()
}

/// Relies on str::chars: the characters of the string in order.
#[verifier::external_body]
pub fn str_chars(s: &str) -> (r: Vec<char>)
    ensures
        r@ == s@,
{
    s.chars().collect()
}

/// Relies on String's FromIterator impl: the string of exactly the given
/// characters in order.
#[verifier::external_body]
pub fn chars_string(v: &Vec<char>) -> (r: String)
    ensures
        r@ == v@,
{
    v.iter().collect()
}

} // verus!
