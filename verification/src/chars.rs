//! Per-character Unicode casing with the no-expansion policy.
//!
//! The Unicode case-mapping tables themselves are an external collaborator:
//! std supplies them.  What this module owns is the policy layered on top of
//! them: a case mapping that would turn one character into more than one code
//! point is not applied, so that casing never changes how many characters a
//! value has and "first character of a word" stays well defined.

use vstd::prelude::*;

verus! {

/// The full Unicode uppercase mapping of a character, as
/// `char::to_uppercase` yields it: one or more characters.
pub uninterp spec fn upper_map(c: char) -> Seq<char>;

/// The full Unicode lowercase mapping of a character, as
/// `char::to_lowercase` yields it: one or more characters.
pub uninterp spec fn lower_map(c: char) -> Seq<char>;

/// Whether a character is alphanumeric, as `char::is_alphanumeric` decides
/// it: the default word-constituent test.
pub uninterp spec fn alphanumeric(c: char) -> bool;

/// A character upcased under the no-expansion policy: where the uppercase
/// mapping is a single character that character is the result, and anywhere
/// else the input stays unchanged.
pub open spec fn upcased(c: char) -> char {
    if upper_map(c).len() == 1 {
        upper_map(c)[0]
    } else {
        c
    }
}

/// A character downcased under the no-expansion policy.
pub open spec fn downcased(c: char) -> char {
    if lower_map(c).len() == 1 {
        lower_map(c)[0]
    } else {
        c
    }
}

/// The capitalization of a single character.  The case-mapping provider in
/// std has no separate titlecase table, so the uppercase mapping serves.
pub open spec fn capitalized(c: char) -> char {
    upcased(c)
}

/// Relies on `char::to_uppercase`: it yields the Unicode uppercase mapping
/// of the character, one or more characters, a function of the character
/// alone.  The Unicode standard makes case mapping idempotent
/// (`toUppercase(toUppercase(X)) == toUppercase(X)`), so when the mapping is
/// a single character, that character maps to itself.
#[verifier::external_body]
fn to_upper_chars(c: char) -> (r: Vec<char>)
    ensures
        r@ == upper_map(c),
        r@.len() == 1 ==> upper_map(r@[0]) == r@,
{
    c.to_uppercase().collect()
}

/// Relies on `char::to_lowercase`: it yields the Unicode lowercase mapping
/// of the character, one or more characters, a function of the character
/// alone.  The Unicode standard makes case mapping idempotent
/// (`toLowercase(toLowercase(X)) == toLowercase(X)`), so when the mapping is
/// a single character, that character maps to itself.
#[verifier::external_body]
fn to_lower_chars(c: char) -> (r: Vec<char>)
    ensures
        r@ == lower_map(c),
        r@.len() == 1 ==> lower_map(r@[0]) == r@,
{
    c.to_lowercase().collect()
}

/// Relies on `char::is_alphanumeric`: true exactly for the Unicode
/// alphabetic and numeric characters, a function of the character alone.
#[verifier::external_body]
pub(crate) fn is_word_char(c: char) -> (r: bool)
    ensures
        r == alphanumeric(c),
{
    c.is_alphanumeric()
}

/// Upcase one character under the no-expansion policy.  The result is a
/// fixed point: upcasing it again changes nothing.
pub fn upcase_char(c: char) -> (r: char)
    ensures
        r == upcased(c),
        upcased(r) == r,
{
    let m = to_upper_chars(c);
    if m.len() == 1 {
        m[0]
    } else {
        c
    }
}

/// Downcase one character under the no-expansion policy.  The result is a
/// fixed point: downcasing it again changes nothing.
pub fn downcase_char(c: char) -> (r: char)
    ensures
        r == downcased(c),
        downcased(r) == r,
{
    let m = to_lower_chars(c);
    if m.len() == 1 {
        m[0]
    } else {
        c
    }
}

/// Capitalize one character: the titlecase fallback to the uppercase
/// mapping, under the no-expansion policy.
pub fn capitalize_char(c: char) -> (r: char)
    ensures
        r == capitalized(c),
        capitalized(r) == r,
{
    upcase_char(c)
}

} // verus!
