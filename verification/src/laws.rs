//! The library's stated laws, proved against the semantic model that the
//! compiler's contracts are written over.

use vstd::prelude::*;
use crate::chars::spec_is_whitespace_char;
use crate::lexer::{Token, lex, lex_num};
use crate::sem::{SVal, SErr, digits_val, p_factor, p_term_loop, p_expr, spec_run, div_sval};
use crate::spec_is_digit_char;

verus! {

/// A run of whitespace characters. (Whitespace and digits are disjoint
/// character classes; the model keeps them apart explicitly.)
pub open spec fn ws_run(w: Seq<char>) -> bool {
    forall|i: int| 0 <= i < w.len() ==> spec_is_whitespace_char(#[trigger] w[i])
        && !spec_is_digit_char(w[i])
}

/// The seam between `a` and `b` is a token boundary: gluing them does not run
/// two digit runs into one numeral.
pub open spec fn boundary_ok(a: Seq<char>, b: Seq<char>) -> bool {
    b.len() == 0 || !spec_is_digit_char(b[0]) || (a.len() > 0 && !spec_is_digit_char(a.last()))
}

/// Leading whitespace never contributes a token.
pub proof fn lemma_lex_ws_prefix(w: Seq<char>, b: Seq<char>)
    requires
        ws_run(w),
    ensures
        lex(w + b) == lex(b),
    decreases w.len(),
{
    if w.len() == 0 {
        assert(w + b =~= b);
    } else {
        assert((w + b)[0] == w[0]);
        assert((w + b).skip(1) =~= w.skip(1) + b);
        assert forall|i: int| 0 <= i < w.skip(1).len() implies spec_is_whitespace_char(
            #[trigger] w.skip(1)[i]) && !spec_is_digit_char(w.skip(1)[i]) by {
            assert(w.skip(1)[i] == w[i + 1]);
        }
        lemma_lex_ws_prefix(w.skip(1), b);
    }
}

/// Inserting a whitespace run at a token boundary leaves the tokens unchanged.
pub proof fn lemma_lex_insert_ws(a: Seq<char>, w: Seq<char>, b: Seq<char>)
    requires
        ws_run(w),
        a.len() == 0 || boundary_ok(a, b),
    ensures
        lex(a + w + b) == lex(a + b),
    decreases a.len(), 0int,
{
    if a.len() == 0 {
        assert(a + w + b =~= w + b);
        assert(a + b =~= b);
        lemma_lex_ws_prefix(w, b);
    } else {
        let c = a[0];
        assert((a + w + b)[0] == c);
        assert((a + b)[0] == c);
        assert((a + w + b).skip(1) =~= a.skip(1) + w + b);
        assert((a + b).skip(1) =~= a.skip(1) + b);
        if spec_is_whitespace_char(c) {
            if a.skip(1).len() > 0 {
                assert(a.skip(1).last() == a.last());
            }
            lemma_lex_insert_ws(a.skip(1), w, b);
        } else if spec_is_digit_char(c) {
            if a.skip(1).len() > 0 {
                assert(a.skip(1).last() == a.last());
            }
            lemma_lex_num_insert_ws(seq![c], a.skip(1), w, b);
        } else {
            if a.skip(1).len() > 0 {
                assert(a.skip(1).last() == a.last());
            }
            lemma_lex_insert_ws(a.skip(1), w, b);
        }
    }
}

/// The same insertion, in the middle of reading a digit run.
pub proof fn lemma_lex_num_insert_ws(ds: Seq<char>, a: Seq<char>, w: Seq<char>, b: Seq<char>)
    requires
        ws_run(w),
        boundary_ok(a, b),
    ensures
        lex_num(ds, a + w + b) == lex_num(ds, a + b),
    decreases a.len(), 1int,
{
    if a.len() == 0 {
        assert(a + w + b =~= w + b);
        assert(a + b =~= b);
        if w.len() == 0 {
            assert(w + b =~= b);
        } else {
            assert((w + b)[0] == w[0]);
            lemma_lex_ws_prefix(w, b);
        }
    } else {
        let c = a[0];
        assert((a + w + b)[0] == c);
        assert((a + b)[0] == c);
        assert((a + w + b).skip(1) =~= a.skip(1) + w + b);
        assert((a + b).skip(1) =~= a.skip(1) + b);
        if spec_is_digit_char(c) {
            if a.skip(1).len() > 0 {
                assert(a.skip(1).last() == a.last());
            }
            lemma_lex_num_insert_ws(ds.push(c), a.skip(1), w, b);
        } else {
            lemma_lex_insert_ws(a, w, b);
        }
    }
}

/// Whitespace insensitivity, stated over the source line itself: inserting an
/// arbitrary run of whitespace at any token boundary never changes the
/// outcome of a run. (Inserting whitespace inside a digit run is no token
/// boundary: it splits one numeral in two.)
pub proof fn lemma_whitespace_insertion(a: Seq<char>, w: Seq<char>, b: Seq<char>)
    requires
        ws_run(w),
        a.len() == 0 || boundary_ok(a, b),
    ensures
        spec_run(a + w + b) == spec_run(a + b),
{
    lemma_lex_insert_ws(a, w, b);
}

/// Whitespace insensitivity: two lines that carry the same tokens — in
/// particular, lines that differ only in the whitespace runs between their
/// tokens — compile and evaluate to the same outcome.
pub proof fn lemma_whitespace_insensitive(s1: Seq<char>, s2: Seq<char>)
    requires
        lex(s1) == lex(s2),
    ensures
        spec_run(s1) == spec_run(s2),
{
}

/// The literal range check: a digit run whose value exceeds the signed 64-bit
/// domain is rejected with a value error carrying the run itself — never a
/// silent wraparound — and a run in range denotes exactly its decimal value.
pub proof fn lemma_literal_range(ds: Seq<char>, ts: Seq<Token>)
    ensures
        digits_val(ds) > i64::MAX ==> p_factor(seq![Token::Num(ds)] + ts) == Err::<
            (SVal, Seq<Token>),
            SErr,
        >(SErr::BadLiteral(ds)),
        digits_val(ds) <= i64::MAX ==> p_factor(seq![Token::Num(ds)] + ts) == Ok::<
            (SVal, Seq<Token>),
            SErr,
        >((SVal { v: digits_val(ds) as i64, lit: true, div0: false }, ts)),
{
    let full = seq![Token::Num(ds)] + ts;
    assert(full[0] == Token::Num(ds));
    assert(full.skip(1) =~= ts);
}

/// Parenthesization: wrapping an expression in parentheses neither changes
/// its value nor its errors; a missing `)` after a complete inner expression
/// is a missing-parenthesis error; and a bare `)` where a factor is expected
/// is an invalid-character error.
pub proof fn lemma_parentheses(ts: Seq<Token>)
    ensures
        p_expr(ts) matches Ok((sv, rest)) ==> ((rest.len() > 0 && rest[0] is RPar) ==> p_factor(
            seq![Token::LPar] + ts) == Ok::<(SVal, Seq<Token>), SErr>((sv, rest.skip(1)))),
        p_expr(ts) matches Ok((sv, rest)) ==> (!(rest.len() > 0 && rest[0] is RPar) ==> p_factor(
            seq![Token::LPar] + ts) == Err::<(SVal, Seq<Token>), SErr>(SErr::MissingParen)),
        p_expr(ts) matches Err(e) ==> p_factor(seq![Token::LPar] + ts) == Err::<
            (SVal, Seq<Token>),
            SErr,
        >(e),
        p_factor(seq![Token::RPar] + ts) == Err::<(SVal, Seq<Token>), SErr>(SErr::InvalidChar(
            ')',
        )),
{
    let full = seq![Token::LPar] + ts;
    assert(full[0] == Token::LPar);
    assert(full.skip(1) =~= ts);
    let bare = seq![Token::RPar] + ts;
    assert(bare[0] == Token::RPar);
}

/// The static division check: a `/` whose right operand is a literal zero is
/// rejected at compile time with a division-by-zero error, whatever follows.
pub proof fn lemma_static_zero_division(acc: SVal, zds: Seq<char>, ts: Seq<Token>)
    requires
        digits_val(zds) == 0,
    ensures
        p_term_loop(acc, seq![Token::Slash, Token::Num(zds)] + ts) == Err::<
            (SVal, Seq<Token>),
            SErr,
        >(SErr::DivByZero),
{
    let full = seq![Token::Slash, Token::Num(zds)] + ts;
    assert(full[0] == Token::Slash);
    assert(full.skip(1) =~= seq![Token::Num(zds)] + ts);
    lemma_literal_range(zds, ts);
}

/// The gap the static check leaves, preserved on purpose: a divisor that is
/// zero only at execution time — not a bare literal — passes compilation and
/// poisons the value, so the failure surfaces when the function runs, as a
/// runtime error rather than the compile-time division-by-zero error.
pub proof fn lemma_dynamic_zero_gap(acc: SVal, b: SVal)
    requires
        !b.lit,
        b.v == 0,
    ensures
        div_sval(acc, b).div0,
{
}

} // verus!
