//! The meaning of a line: a precedence-respecting, left-associative evaluator
//! over the token view, fused with the static checks the compiler performs.
//! Arithmetic follows the emitted instructions: add, subtract and multiply
//! wrap in 64 bits; division is the unsigned division instruction applied to
//! the two's-complement bit patterns.

use vstd::prelude::*;
use crate::lexer::{Token, token_first_char};

verus! {

/// What one grammar production denotes: the 64-bit value its instructions
/// compute, whether it is a bare literal constant (the only form the static
/// division check can see), and whether computing it divides by a value that
/// is zero at execution time.
pub struct SVal {
    pub v: i64,
    pub lit: bool,
    pub div0: bool,
}

/// The error kinds of the compiler, over mathematical values.
pub enum SErr {
    /// The input ended where a factor was expected.
    UnexpectedEnd,
    /// A character outside the grammar stood where a factor was expected.
    InvalidChar(char),
    /// A parenthesized expression lacked its closing parenthesis.
    MissingParen,
    /// A digit run whose value exceeds the signed 64-bit domain.
    BadLiteral(Seq<char>),
    /// The right operand of `/` is a literal constant zero.
    DivByZero,
    /// A grammatically valid character was left over after a complete expression.
    Incomplete(char),
    /// A character outside the grammar was left over after a complete expression.
    Trailing(char),
    /// The compiled instructions divide by zero when executed.
    ExecDivZero,
}

/// The numeric value of one ASCII digit.
pub open spec fn digit_of(c: char) -> int {
    c as u32 - '0' as u32
}

/// The value of a digit run read as an unsigned decimal numeral.
pub open spec fn digits_val(ds: Seq<char>) -> int
    decreases ds.len(),
{
    if ds.len() == 0 {
        0
    } else {
        digits_val(ds.drop_last()) * 10 + digit_of(ds.last())
    }
}

/// The unsigned 64-bit reading of a signed value's bit pattern.
pub open spec fn to_unsigned(x: i64) -> u64 {
    if x >= 0 {
        x as u64
    } else {
        (x + 0x1_0000_0000_0000_0000) as u64
    }
}

/// The signed reading of an unsigned 64-bit bit pattern.
pub open spec fn to_signed(x: u64) -> i64 {
    if x <= i64::MAX as u64 {
        x as i64
    } else {
        (x - 0x1_0000_0000_0000_0000) as i64
    }
}

/// The unsigned division instruction on signed operands: both bit patterns
/// are read unsigned, divided, and the quotient's bits are read back signed.
/// A zero divisor is reported separately; here it yields zero.
pub open spec fn udiv_val(a: i64, b: i64) -> i64 {
    if to_unsigned(b) == 0 {
        0
    } else {
        to_signed(to_unsigned(a) / to_unsigned(b))
    }
}

/// What the add instruction computes.
pub open spec fn add_sval(a: SVal, b: SVal) -> SVal {
    SVal { v: vstd::wrapping::i64_specs::wrapping_add(a.v, b.v), lit: false, div0: a.div0 || b.div0 }
}

/// What the subtract instruction computes.
pub open spec fn sub_sval(a: SVal, b: SVal) -> SVal {
    SVal { v: vstd::wrapping::i64_specs::wrapping_sub(a.v, b.v), lit: false, div0: a.div0 || b.div0 }
}

/// What the multiply instruction computes.
pub open spec fn mul_sval(a: SVal, b: SVal) -> SVal {
    SVal { v: vstd::wrapping::i64_specs::wrapping_mul(a.v, b.v), lit: false, div0: a.div0 || b.div0 }
}

/// What the unsigned-division instruction computes. A divisor that turns out
/// zero at execution time poisons the value rather than producing one.
pub open spec fn div_sval(a: SVal, b: SVal) -> SVal {
    SVal { v: udiv_val(a.v, b.v), lit: false, div0: a.div0 || b.div0 || b.v == 0 }
}

/// The outcome of one grammar production: the value denoted and the tokens
/// left over, or the first error met.
pub type PRes = Result<(SVal, Seq<Token>), SErr>;

/// factor := `(` expression `)` | digit-run
pub open spec fn p_factor(ts: Seq<Token>) -> PRes
    decreases ts.len(), 0int,
{
    if ts.len() == 0 {
        Err(SErr::UnexpectedEnd)
    } else {
        match ts[0] {
            Token::LPar => match p_expr(ts.skip(1)) {
                Ok((sv, rest)) => if rest.len() > 0 && rest[0] is RPar {
                    Ok((sv, rest.skip(1)))
                } else {
                    Err(SErr::MissingParen)
                },
                Err(e) => Err(e),
            },
            Token::Num(ds) => if digits_val(ds) <= i64::MAX {
                Ok((SVal { v: digits_val(ds) as i64, lit: true, div0: false }, ts.skip(1)))
            } else {
                Err(SErr::BadLiteral(ds))
            },
            t => Err(SErr::InvalidChar(token_first_char(t))),
        }
    }
}

/// term := factor ((`*` | `/`) factor)*
pub open spec fn p_term(ts: Seq<Token>) -> PRes
    decreases ts.len(), 1int,
{
    match p_factor(ts) {
        Ok((a, rest)) => if rest.len() < ts.len() {
            p_term_loop(a, rest)
        } else {
            Err(SErr::UnexpectedEnd)
        },
        Err(e) => Err(e),
    }
}

/// The running multiplication/division level: `acc` so far, then as many
/// `* factor` / `/ factor` steps as the lookahead offers. A `/` whose right
/// operand is a literal constant zero stops compilation at once.
pub open spec fn p_term_loop(acc: SVal, ts: Seq<Token>) -> PRes
    decreases ts.len(), 2int,
{
    if ts.len() > 0 && (ts[0] is Star || ts[0] is Slash) {
        match p_factor(ts.skip(1)) {
            Ok((b, rest)) => if rest.len() < ts.len() {
                if ts[0] is Star {
                    p_term_loop(mul_sval(acc, b), rest)
                } else if b.lit && b.v == 0 {
                    Err(SErr::DivByZero)
                } else {
                    p_term_loop(div_sval(acc, b), rest)
                }
            } else {
                Err(SErr::UnexpectedEnd)
            },
            Err(e) => Err(e),
        }
    } else {
        Ok((acc, ts))
    }
}

/// expression := term ((`+` | `-`) term)*
pub open spec fn p_expr(ts: Seq<Token>) -> PRes
    decreases ts.len(), 3int,
{
    match p_term(ts) {
        Ok((a, rest)) => if rest.len() < ts.len() {
            p_expr_loop(a, rest)
        } else {
            Err(SErr::UnexpectedEnd)
        },
        Err(e) => Err(e),
    }
}

/// The running addition/subtraction level.
pub open spec fn p_expr_loop(acc: SVal, ts: Seq<Token>) -> PRes
    decreases ts.len(), 4int,
{
    if ts.len() > 0 && (ts[0] is Plus || ts[0] is Minus) {
        match p_term(ts.skip(1)) {
            Ok((b, rest)) => if rest.len() < ts.len() {
                if ts[0] is Plus {
                    p_expr_loop(add_sval(acc, b), rest)
                } else {
                    p_expr_loop(sub_sval(acc, b), rest)
                }
            } else {
                Err(SErr::UnexpectedEnd)
            },
            Err(e) => Err(e),
        }
    } else {
        Ok((acc, ts))
    }
}

/// What compiling a line yields before execution: the value description of
/// the whole expression, or the first parse-time error. Leftover tokens after
/// a complete expression are a trailing error, named after the character the
/// leftover begins with.
pub open spec fn spec_compile(s: Seq<char>) -> Result<SVal, SErr> {
    match p_expr(crate::lexer::lex(s)) {
        Ok((sv, rest)) => if rest.len() > 0 {
            if rest[0] is Bad {
                Err(SErr::Trailing(token_first_char(rest[0])))
            } else {
                Err(SErr::Incomplete(token_first_char(rest[0])))
            }
        } else {
            Ok(sv)
        },
        Err(e) => Err(e),
    }
}

/// What one full run yields: compile, then execute the instructions. A
/// division whose divisor turns out zero only at execution time fails then,
/// not at compile time: the static check sees literal zeros alone.
pub open spec fn spec_run(s: Seq<char>) -> Result<i64, SErr> {
    match spec_compile(s) {
        Ok(sv) => if sv.div0 {
            Err(SErr::ExecDivZero)
        } else {
            Ok(sv.v)
        },
        Err(e) => Err(e),
    }
}

/// Every production consumes at least one token when it succeeds, and never
/// hands back more than it was given.
pub proof fn lemma_factor_progress(ts: Seq<Token>)
    ensures
        p_factor(ts) matches Ok((sv, rest)) ==> rest.len() < ts.len(),
    decreases ts.len(), 0int,
{
    if ts.len() > 0 && ts[0] is LPar {
        lemma_expr_progress(ts.skip(1));
    }
}

pub proof fn lemma_term_progress(ts: Seq<Token>)
    ensures
        p_term(ts) matches Ok((sv, rest)) ==> rest.len() < ts.len(),
    decreases ts.len(), 1int,
{
    lemma_factor_progress(ts);
    match p_factor(ts) {
        Ok((a, rest)) => lemma_term_loop_progress(a, rest),
        _ => {},
    }
}

pub proof fn lemma_term_loop_progress(acc: SVal, ts: Seq<Token>)
    ensures
        p_term_loop(acc, ts) matches Ok((sv, rest)) ==> rest.len() <= ts.len(),
    decreases ts.len(), 2int,
{
    if ts.len() > 0 && (ts[0] is Star || ts[0] is Slash) {
        lemma_factor_progress(ts.skip(1));
        match p_factor(ts.skip(1)) {
            Ok((b, rest)) => {
                if rest.len() < ts.len() {
                    lemma_term_loop_progress(mul_sval(acc, b), rest);
                    lemma_term_loop_progress(div_sval(acc, b), rest);
                }
            },
            _ => {},
        }
    }
}

pub proof fn lemma_expr_progress(ts: Seq<Token>)
    ensures
        p_expr(ts) matches Ok((sv, rest)) ==> rest.len() < ts.len(),
    decreases ts.len(), 3int,
{
    lemma_term_progress(ts);
    match p_term(ts) {
        Ok((a, rest)) => lemma_expr_loop_progress(a, rest),
        _ => {},
    }
}

pub proof fn lemma_expr_loop_progress(acc: SVal, ts: Seq<Token>)
    ensures
        p_expr_loop(acc, ts) matches Ok((sv, rest)) ==> rest.len() <= ts.len(),
    decreases ts.len(), 4int,
{
    if ts.len() > 0 && (ts[0] is Plus || ts[0] is Minus) {
        lemma_term_progress(ts.skip(1));
        match p_term(ts.skip(1)) {
            Ok((b, rest)) => {
                if rest.len() < ts.len() {
                    lemma_expr_loop_progress(add_sval(acc, b), rest);
                    lemma_expr_loop_progress(sub_sval(acc, b), rest);
                }
            },
            _ => {},
        }
    }
}

} // verus!
