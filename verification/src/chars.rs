//! Thin trusted views of the character classifications and string-building
//! operations of the standard library that the compiler relies on.

use vstd::prelude::*;

verus! {

/// Whether a character carries the Unicode whitespace property. The standard
/// library decides; the result depends on the character alone.
pub uninterp spec fn spec_is_whitespace_char(c: char) -> bool;

/// Relies on char::is_whitespace: true exactly when the character has the
/// Unicode whitespace property, a fact of the character alone.
#[verifier::external_body]
pub fn is_whitespace_char(c: char) -> (r: bool)
    ensures
        r == spec_is_whitespace_char(c),
{
    c.is_whitespace()
}

/// The Unicode uppercase mapping of a character, which may be more than one
/// character long; it depends on the character alone.
pub uninterp spec fn spec_uppercase_of(c: char) -> Seq<char>;

/// Relies on char::to_uppercase: yields the Unicode uppercase mapping of the
/// character, a function of the character alone.
#[verifier::external_body]
pub fn uppercase_of(c: char) -> (r: String)
    ensures
        r@ == spec_uppercase_of(c),
{
    c.to_uppercase().collect()
}

/// Relies on String::push: appends the given character to the end of the
/// string.
#[verifier::external_body]
pub fn push_char(s: &mut String, c: char)
    ensures
        final(s)@ == old(s)@.push(c),
{
    s.push(c)
}

} // verus!
