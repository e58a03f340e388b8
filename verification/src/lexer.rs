//! The mathematical token view of a source line. The compiler itself never
//! materializes a token list; this model says which tokens a line carries, so
//! that contracts can speak of a line's content independently of the
//! whitespace between tokens.

use vstd::prelude::*;
use crate::chars::spec_is_whitespace_char;
use crate::spec_is_digit_char;

verus! {

/// One token of the calculator grammar. `Num` carries the exact digit run;
/// `Bad` carries a character outside the grammar's alphabet.
pub enum Token {
    Num(Seq<char>),
    Plus,
    Minus,
    Star,
    Slash,
    LPar,
    RPar,
    Bad(char),
}

/// The token a single non-digit, non-whitespace character stands for.
pub open spec fn char_token(c: char) -> Token {
    if c == '+' {
        Token::Plus
    } else if c == '-' {
        Token::Minus
    } else if c == '*' {
        Token::Star
    } else if c == '/' {
        Token::Slash
    } else if c == '(' {
        Token::LPar
    } else if c == ')' {
        Token::RPar
    } else {
        Token::Bad(c)
    }
}

/// The character a token starts with, as it stood in the source line.
pub open spec fn token_first_char(t: Token) -> char {
    match t {
        Token::Num(ds) => if ds.len() > 0 {
            ds[0]
        } else {
            '0'
        },
        Token::Plus => '+',
        Token::Minus => '-',
        Token::Star => '*',
        Token::Slash => '/',
        Token::LPar => '(',
        Token::RPar => ')',
        Token::Bad(c) => c,
    }
}

/// The tokens of a line: whitespace is dropped, maximal digit runs become one
/// `Num` token, and every other character becomes the token it stands for.
pub open spec fn lex(s: Seq<char>) -> Seq<Token>
    decreases s.len(), 0int,
{
    if s.len() == 0 {
        Seq::empty()
    } else if spec_is_whitespace_char(s[0]) {
        lex(s.skip(1))
    } else if spec_is_digit_char(s[0]) {
        lex_num(seq![s[0]], s.skip(1))
    } else {
        seq![char_token(s[0])] + lex(s.skip(1))
    }
}

/// Continues a digit run already begun: `ds` holds the digits read so far.
pub open spec fn lex_num(ds: Seq<char>, s: Seq<char>) -> Seq<Token>
    decreases s.len(), 1int,
{
    if s.len() > 0 && spec_is_digit_char(s[0]) {
        lex_num(ds.push(s[0]), s.skip(1))
    } else {
        seq![Token::Num(ds)] + lex(s)
    }
}

/// A digit run in progress always yields a `Num` token first, and the digits
/// already read stay at its front.
pub proof fn lemma_lex_num_first(ds: Seq<char>, s: Seq<char>)
    requires
        ds.len() > 0,
    ensures
        lex_num(ds, s).len() > 0,
        lex_num(ds, s)[0] matches Token::Num(ds2) && ds2.len() >= ds.len() && ds2[0] == ds[0],
    decreases s.len(),
{
    if s.len() > 0 && spec_is_digit_char(s[0]) {
        lemma_lex_num_first(ds.push(s[0]), s.skip(1));
    }
}

/// Skipping leading whitespace never changes a line's tokens.
pub proof fn lemma_lex_skip_ws(s: Seq<char>)
    ensures
        lex(crate::cursor::spec_skip_ws(s)) == lex(s),
    decreases s.len(),
{
    if s.len() > 0 && spec_is_whitespace_char(s[0]) {
        lemma_lex_skip_ws(s.skip(1));
    }
}

} // verus!
