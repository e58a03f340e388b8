//! The compiler's error type, and the message each error prints.

use vstd::prelude::*;
use vstd::string::StringExecFns;
use crate::chars::push_char;
use crate::sem::SErr;

verus! {

/// One terminal error of a compilation, mirroring the kinds of `SErr` with
/// executable payloads.
#[derive(Debug)]
pub enum CalcError {
    /// The input ended where a factor was expected.
    UnexpectedEnd,
    /// A character outside the grammar stood where a factor was expected.
    InvalidCharacter(char),
    /// A parenthesized expression lacked its closing parenthesis.
    MissingClosingParen,
    /// A digit run (carried verbatim) whose value exceeds the signed 64-bit domain.
    InvalidLiteral(String),
    /// The right operand of `/` is a literal constant zero.
    DivisionByZero,
    /// A grammatically valid character was left over after a complete expression.
    IncompleteExpression(char),
    /// A character outside the grammar was left over after a complete expression.
    InvalidTrailingChar(char),
    /// The compiled instructions divide by zero when executed.
    RuntimeDivisionByZero,
    /// Structural verification of an assembled function failed.
    InvalidFunction,
}

/// Whether an executable error carries exactly the mathematical error `se`.
pub open spec fn err_matches(e: CalcError, se: SErr) -> bool {
    match e {
        CalcError::UnexpectedEnd => se is UnexpectedEnd,
        CalcError::InvalidCharacter(c) => se matches SErr::InvalidChar(c2) && c == c2,
        CalcError::MissingClosingParen => se is MissingParen,
        CalcError::InvalidLiteral(s) => se matches SErr::BadLiteral(ds) && s@ == ds,
        CalcError::DivisionByZero => se is DivByZero,
        CalcError::IncompleteExpression(c) => se matches SErr::Incomplete(c2) && c == c2,
        CalcError::InvalidTrailingChar(c) => se matches SErr::Trailing(c2) && c == c2,
        CalcError::RuntimeDivisionByZero => se is ExecDivZero,
        CalcError::InvalidFunction => false,
    }
}

impl CalcError {
    /// The message the driver prints for this error.
    pub fn message(&self) -> (m: String)
        ensures
            self matches CalcError::UnexpectedEnd ==> m@ == "SyntaxError: unexpected end of expression"@,
            self matches CalcError::InvalidCharacter(c) ==> m@ == "SyntaxError: invalid character '"@
                + seq![*c] + "' (only 0-9, +, -, *, /, () are allowed)"@,
            self matches CalcError::MissingClosingParen ==> m@ == "SyntaxError: missing closing parenthesis ')'"@,
            self matches CalcError::InvalidLiteral(s) ==> m@ == "ValueError: invalid literal for int() with base 10: '"@
                + s@ + "'"@,
            self matches CalcError::DivisionByZero ==> m@ == "ZeroDivisionError: division by zero"@,
            self matches CalcError::IncompleteExpression(c) ==> m@ == "SyntaxError: incomplete expression, trailing character '"@
                + seq![*c] + "'"@,
            self matches CalcError::InvalidTrailingChar(c) ==> m@ == "SyntaxError: invalid trailing character '"@
                + seq![*c] + "'"@,
            self matches CalcError::RuntimeDivisionByZero ==> m@ == "RuntimeError: division by zero when the compiled function ran"@,
            self matches CalcError::InvalidFunction ==> m@ == "RuntimeError: invalid function body generated"@,
    {
        match self {
            CalcError::UnexpectedEnd => String::from_str("SyntaxError: unexpected end of expression"),
            CalcError::InvalidCharacter(c) => {
                let mut m = String::from_str("SyntaxError: invalid character '");
                push_char(&mut m, *c);
                let m = m.concat("' (only 0-9, +, -, *, /, () are allowed)");
                proof {
                    assert(m@ =~= "SyntaxError: invalid character '"@ + seq![*c]
                        + "' (only 0-9, +, -, *, /, () are allowed)"@);
                }
                m
            },
            CalcError::MissingClosingParen => String::from_str("SyntaxError: missing closing parenthesis ')'"),
            CalcError::InvalidLiteral(s) => {
                let m = String::from_str("ValueError: invalid literal for int() with base 10: '");
                let m = m.concat(s.as_str());
                let m = m.concat("'");
                m
            },
            CalcError::DivisionByZero => String::from_str("ZeroDivisionError: division by zero"),
            CalcError::IncompleteExpression(c) => {
                let mut m = String::from_str("SyntaxError: incomplete expression, trailing character '");
                push_char(&mut m, *c);
                let m = m.concat("'");
                proof {
                    assert(m@ =~= "SyntaxError: incomplete expression, trailing character '"@
                        + seq![*c] + "'"@);
                }
                m
            },
            CalcError::InvalidTrailingChar(c) => {
                let mut m = String::from_str("SyntaxError: invalid trailing character '");
                push_char(&mut m, *c);
                let m = m.concat("'");
                proof {
                    assert(m@ =~= "SyntaxError: invalid trailing character '"@ + seq![*c] + "'"@);
                }
                m
            },
            CalcError::RuntimeDivisionByZero => String::from_str("RuntimeError: division by zero when the compiled function ran"),
            CalcError::InvalidFunction => String::from_str("RuntimeError: invalid function body generated"),
        }
    }
}

} // verus!
