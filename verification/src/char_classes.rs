//! Character classification for the lexical grammar.
//!
//! The scanner classifies characters the way Rust's `char` methods do:
//! Unicode-aware whitespace and letter tests. Those classes are named here
//! as uninterpreted predicates, with the documented ASCII behaviour pinned
//! down exactly, and everything else in the crate is stated over the names.

use vstd::prelude::*;

verus! {

/// Whether `c` counts as whitespace, exactly as `char::is_whitespace`
/// decides it (the Unicode `White_Space` property).
pub uninterp spec fn unicode_whitespace(c: char) -> bool;

/// Whether `c` counts as a letter, exactly as `char::is_alphabetic`
/// decides it (the Unicode `Alphabetic` property).
pub uninterp spec fn unicode_alphabetic(c: char) -> bool;

/// Whether `c` counts as a letter or digit, exactly as
/// `char::is_alphanumeric` decides it.
pub uninterp spec fn unicode_alphanumeric(c: char) -> bool;

/// Relies on `char::is_whitespace`: the result depends on the character
/// alone, and within ASCII the `White_Space` set is exactly horizontal
/// tab through carriage return (U+0009..U+000D) and space.
#[verifier::external_body]
pub(crate) fn is_whitespace_char(c: char) -> (r: bool)
    ensures
        r == unicode_whitespace(c),
        (9 <= c as u32 && c as u32 <= 13) || c == ' ' ==> r,
        c as u32 <= 127 && !((9 <= c as u32 && c as u32 <= 13) || c == ' ') ==> !r,
{
    c.is_whitespace()
}

/// Relies on `char::is_alphabetic`: the result depends on the character
/// alone, and within ASCII the `Alphabetic` set is exactly the letters
/// `a`..`z` and `A`..`Z`.
#[verifier::external_body]
pub(crate) fn is_alphabetic_char(c: char) -> (r: bool)
    ensures
        r == unicode_alphabetic(c),
        ('a' as u32 <= c as u32 && c as u32 <= 'z' as u32) || ('A' as u32 <= c as u32
            && c as u32 <= 'Z' as u32) ==> r,
        c as u32 <= 127 && !(('a' as u32 <= c as u32 && c as u32 <= 'z' as u32) || ('A' as u32
            <= c as u32 && c as u32 <= 'Z' as u32)) ==> !r,
{
    c.is_alphabetic()
}

/// Relies on `char::is_alphanumeric`: the result depends on the character
/// alone, and within ASCII the set is exactly the letters and the decimal
/// digits.
#[verifier::external_body]
pub(crate) fn is_alphanumeric_char(c: char) -> (r: bool)
    ensures
        r == unicode_alphanumeric(c),
        ('a' as u32 <= c as u32 && c as u32 <= 'z' as u32) || ('A' as u32 <= c as u32
            && c as u32 <= 'Z' as u32) || ('0' as u32 <= c as u32 && c as u32 <= '9' as u32)
            ==> r,
        c as u32 <= 127 && !(('a' as u32 <= c as u32 && c as u32 <= 'z' as u32) || ('A' as u32
            <= c as u32 && c as u32 <= 'Z' as u32) || ('0' as u32 <= c as u32 && c as u32
            <= '9' as u32)) ==> !r,
{
    c.is_alphanumeric()
}

/// Whether `c` is a decimal digit (`0`..`9`).
pub open spec fn dec_digit(c: char) -> bool {
    '0' as u32 <= c as u32 && c as u32 <= '9' as u32
}

/// Decimal digit test, the scanner's only numeric class.
pub(crate) fn is_digit_char(c: char) -> (r: bool)
    ensures
        r == dec_digit(c),
{
    '0' as u32 <= c as u32 && c as u32 <= '9' as u32
}

/// A character read out of a sequence is a well-formed character: the
/// round-trip through its scalar value is the identity. (Reading an
/// element of a `Seq<char>` does not by itself carry that fact, and the
/// scanner's models build tokens and diagnostics out of such characters.)
pub broadcast proof fn lemma_seq_char_typed(s: Seq<char>, j: int)
    requires
        0 <= j < s.len(),
    ensures
        ((#[trigger] s[j]) as u32) as char == s[j],
{
    vstd::utf8::char_is_scalar(s[j]);
    vstd::utf8::char_u32_cast(s[j], s[j] as u32);
}

} // verus!
