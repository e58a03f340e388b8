//! A one-pass arithmetic compiler: each input line is parsed by a
//! recursive-descent, precedence-climbing parser that emits intermediate
//! instructions as it recognizes grammar productions, and the finished
//! instruction sequence is then verified and executed to yield a 64-bit
//! signed integer result.

use vstd::prelude::*;

pub mod chars;
pub mod cursor;
pub mod errors;
pub mod ir;
pub mod text;
pub mod laws;
pub mod lexer;
pub mod parser;
pub mod sem;

verus! {

/// A character is one the calculator grammar accepts: an ASCII digit, an
/// operator, or a parenthesis.
pub open spec fn spec_is_valid_char(c: char) -> bool {
    spec_is_digit_char(c) || c == '+' || c == '-' || c == '*' || c == '/' || c == '(' || c == ')'
}

/// An ASCII decimal digit.
pub open spec fn spec_is_digit_char(c: char) -> bool {
    '0' <= c && c <= '9'
}

/// Whether a character may appear in an expression.
pub fn is_valid_char(c: char) -> (r: bool)
    ensures
        r == spec_is_valid_char(c),
{
    is_digit_char(c) || c == '+' || c == '-' || c == '*' || c == '/' || c == '(' || c == ')'
}

/// Whether a character is an ASCII decimal digit.
pub fn is_digit_char(c: char) -> (r: bool)
    ensures
        r == spec_is_digit_char(c),
{
    '0' <= c && c <= '9'
}

} // verus!
