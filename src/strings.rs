//! The calls this library makes into `simple_string_patterns` and into std's
//! string building, each with what it is relied on to do.
use simple_string_patterns::{CharGroupMatch, CharType, SimplContainsType, StripCharacters, ToSegments};
use vstd::prelude::*;
use crate::text::{
    all_digits, any_digit, is_ascii_alnum, is_ascii_letter, keep_digits, split_seq,
    start_end, views,
};

verus! {

/// Whether a character beyond ASCII has the Unicode `Alphabetic` property.
pub uninterp spec fn alphabetic_beyond_ascii(c: char) -> bool;

/// Whether a character beyond ASCII has the Unicode `Alphabetic` property or
/// is numeric.
pub uninterp spec fn alphanumeric_beyond_ascii(c: char) -> bool;

/// `char::is_alphabetic`: the ASCII letters, and beyond ASCII the
/// characters with the Unicode `Alphabetic` property.
pub open spec fn is_alphabetic(c: char) -> bool {
    is_ascii_letter(c) || ((c as u32) >= 128 && alphabetic_beyond_ascii(c))
}

/// `char::is_alphanumeric`: the ASCII letters and digits, and beyond ASCII
/// the alphabetic and the numeric characters.
pub open spec fn is_alphanumeric(c: char) -> bool {
    is_ascii_alnum(c) || ((c as u32) >= 128 && alphanumeric_beyond_ascii(c))
}

/// Whether some character of the text is alphabetic.
pub open spec fn alphabetic_in(s: Seq<char>) -> bool {
    exists|i: int| 0 <= i < s.len() && is_alphabetic(#[trigger] s[i])
}

/// Whether some character of the text is alphanumeric.
pub open spec fn alphanumeric_in(s: Seq<char>) -> bool {
    exists|i: int| 0 <= i < s.len() && is_alphanumeric(#[trigger] s[i])
}

/// Relies on `ToSegments::to_parts`, which is `str::split` on the separator:
/// every piece in order, empty ones included.
#[verifier::external_body]
pub(crate) fn split_parts(s: &str, sep: char) -> (r: Vec<String>)
    ensures
        views(r@) == split_seq(s@, sep),
{
    s.to_parts(&sep.to_string())
}

/// Relies on `ToSegments::to_start_end`, which is `str::rsplit_once`: the
/// text before and after the last separator, or the whole text and an empty
/// tail.
#[verifier::external_body]
pub(crate) fn split_at_last(s: &str, sep: char) -> (r: (String, String))
    ensures
        (r.0@, r.1@) == start_end(s@, sep),
{
    s.to_start_end(&sep.to_string())
}

/// Relies on `CharGroupMatch::is_digits_only`: every character is an ASCII
/// digit.
#[verifier::external_body]
pub(crate) fn digits_only(s: &str) -> (r: bool)
    ensures
        r == all_digits(s@),
{
    s.is_digits_only()
}

/// Relies on `CharGroupMatch::has_digits`: some character is an ASCII digit.
#[verifier::external_body]
pub(crate) fn has_digits(s: &str) -> (r: bool)
    ensures
        r == any_digit(s@),
{
    s.has_digits()
}

/// Relies on `StripCharacters::strip_non_digits`: the characters for which
/// `char::is_digit(10)` holds, that is the ASCII digits, in order.
#[verifier::external_body]
pub(crate) fn strip_non_digits(s: &str) -> (r: String)
    ensures
        r@ == keep_digits(s@),
{
    s.strip_non_digits()
}

/// Relies on `SimplContainsType::contains_type` with `CharType::Alpha`:
/// whether `char::is_alphabetic` holds of some character.
#[verifier::external_body]
pub(crate) fn has_alphabetic(s: &str) -> (r: bool)
    ensures
        r == (exists|i: int|
            0 <= i < s@.len() && (is_ascii_letter(#[trigger] s@[i]) || ((s@[i] as u32) >= 128
                && alphabetic_beyond_ascii(s@[i])))),
{
    s.contains_type(CharType::Alpha)
}

/// Relies on `CharGroupMatch::has_alphanumeric`: whether
/// `char::is_alphanumeric` holds of some character.
#[verifier::external_body]
pub(crate) fn has_alphanumeric(s: &str) -> (r: bool)
    ensures
        r == (exists|i: int|
            0 <= i < s@.len() && (is_ascii_alnum(#[trigger] s@[i]) || ((s@[i] as u32) >= 128
                && alphanumeric_beyond_ascii(s@[i])))),
{
    s.has_alphanumeric()
}

/// Relies on std's `FromIterator<char>` for `String`: the characters in
/// order.
#[verifier::external_body]
pub(crate) fn string_of(v: &Vec<char>) -> (r: String)
    ensures
        r@ == v@,
{
    v.iter().collect()
}

} // verus!
