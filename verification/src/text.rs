//! Character classes and text building.
//!
//! The Unicode classes (alphabetic, alphanumeric, white space) are tables of
//! the Unicode standard; they are named here and computed by the standard
//! library. The ASCII digit class is stated outright.
use vstd::prelude::*;

use crate::parser::CharPredicate;

verus! {

/// Whether `char::is_alphabetic` holds of a character (the Unicode `Alphabetic`
/// property).
pub uninterp spec fn char_is_alphabetic(c: char) -> bool;

/// Whether `char::is_alphanumeric` holds of a character (`Alphabetic` or a
/// numeric general category).
pub uninterp spec fn char_is_alphanumeric(c: char) -> bool;

/// Whether `char::is_whitespace` holds of a character (the Unicode `White_Space`
/// property).
pub uninterp spec fn char_is_whitespace(c: char) -> bool;

/// All characters are white space.
pub open spec fn all_whitespace(s: Seq<char>) -> bool {
    forall|i: int| 0 <= i < s.len() ==> char_is_whitespace(#[trigger] s[i])
}

/// Whether a character is one of the ASCII digits `0` to `9`.
pub open spec fn is_ascii_digit(c: char) -> bool {
    '0' <= c <= '9'
}

/// Calls `char::is_alphabetic`. Trusted: its answer is `char_is_alphabetic(c)`,
/// a function of `c` alone (the standard library reads a fixed Unicode table).
#[verifier::external_body]
pub(crate) fn is_alphabetic(c: char) -> (b: bool)
    ensures
        b == char_is_alphabetic(c),
{
    c.is_alphabetic()
}

/// Calls `char::is_alphanumeric`. Trusted: its answer is
/// `char_is_alphanumeric(c)`, a function of `c` alone.
#[verifier::external_body]
pub(crate) fn is_alphanumeric(c: char) -> (b: bool)
    ensures
        b == char_is_alphanumeric(c),
{
    c.is_alphanumeric()
}

/// Calls `char::is_whitespace`. Trusted: its answer is `char_is_whitespace(c)`,
/// a function of `c` alone.
#[verifier::external_body]
pub(crate) fn is_whitespace(c: char) -> (b: bool)
    ensures
        b == char_is_whitespace(c),
{
    c.is_whitespace()
}

/// Calls `String::push`. Trusted: the string afterwards is the old one with `c`
/// appended, as the standard library documents.
#[verifier::external_body]
pub(crate) fn push_char(s: &mut String, c: char)
    ensures
        final(s)@ == old(s)@.push(c),
{
    s.push(c);
}

/// The ASCII digits `0` to `9`.
#[derive(Clone, Copy, Debug)]
pub struct AsciiDigit;

/// Characters with the Unicode `Alphabetic` property.
#[derive(Clone, Copy, Debug)]
pub struct Alphabetic;

/// Alphabetic or numeric characters.
#[derive(Clone, Copy, Debug)]
pub struct Alphanumeric;

/// White space characters.
#[derive(Clone, Copy, Debug)]
pub struct Whitespace;

impl CharPredicate for AsciiDigit {
    open spec fn spec_holds(&self, c: char) -> bool {
        is_ascii_digit(c)
    }

    open spec fn predicate_wf(&self) -> bool {
        true
    }

    fn holds(&self, c: char) -> (b: bool) {
        '0' <= c && c <= '9'
    }
}

impl CharPredicate for Alphabetic {
    open spec fn spec_holds(&self, c: char) -> bool {
        char_is_alphabetic(c)
    }

    open spec fn predicate_wf(&self) -> bool {
        true
    }

    fn holds(&self, c: char) -> (b: bool) {
        is_alphabetic(c)
    }
}

impl CharPredicate for Alphanumeric {
    open spec fn spec_holds(&self, c: char) -> bool {
        char_is_alphanumeric(c)
    }

    open spec fn predicate_wf(&self) -> bool {
        true
    }

    fn holds(&self, c: char) -> (b: bool) {
        is_alphanumeric(c)
    }
}

impl CharPredicate for Whitespace {
    open spec fn spec_holds(&self, c: char) -> bool {
        char_is_whitespace(c)
    }

    open spec fn predicate_wf(&self) -> bool {
        true
    }

    fn holds(&self, c: char) -> (b: bool) {
        is_whitespace(c)
    }
}

} // verus!
