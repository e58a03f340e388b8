//! The expression compiler: a recursive-descent, precedence-climbing parser
//! fused with instruction emission. Each grammar level consumes characters and
//! emits instructions through the backend, returning one opaque value handle;
//! no syntax tree is ever built.

use vstd::prelude::*;
use crate::cursor::{Cursor, skip_whitespace};
use crate::chars::push_char;
use crate::errors::{CalcError, err_matches};
use crate::ir::{BinOp, BinInst, Node, Function, nodes_wf, node_val, node_poison, op_val,
    verify_function, execute};
use crate::lexer::{Token, lex, lex_num, char_token, token_first_char, lemma_lex_skip_ws};
use crate::sem::{SVal, SErr, PRes, digits_val, digit_of, p_factor, p_term, p_term_loop, p_expr,
    p_expr_loop, spec_compile, spec_run, add_sval, sub_sval, mul_sval, div_sval,
    lemma_factor_progress, lemma_term_progress};
use crate::text::temp_name;
use crate::{is_valid_char, is_digit_char, spec_is_digit_char};

verus! {

/// The value a successful production denotes.
pub open spec fn ok_val(r: PRes) -> SVal {
    match r {
        Ok((sv, rest)) => sv,
        Err(e) => SVal { v: 0, lit: false, div0: false },
    }
}

/// The tokens a successful production leaves unconsumed.
pub open spec fn ok_rest(r: PRes) -> Seq<Token> {
    match r {
        Ok((sv, rest)) => rest,
        Err(e) => Seq::empty(),
    }
}

/// The error a failed production reports.
pub open spec fn err_of(r: PRes) -> SErr {
    match r {
        Ok(p) => SErr::UnexpectedEnd,
        Err(e) => e,
    }
}

/// `ns2` extends `ns1`: nodes are only appended, and every handle already
/// given out keeps its value and poison.
pub open spec fn ext_preserves(ns1: Seq<Node>, ns2: Seq<Node>) -> bool {
    &&& ns1.len() <= ns2.len()
    &&& ns1 == ns2.take(ns1.len() as int)
    &&& forall|i: int| 0 <= i < ns1.len() ==> node_val(ns2, i) == node_val(ns1, i)
        && node_poison(ns2, i) == node_poison(ns1, i)
}

/// A sequence extends itself.
pub proof fn lemma_ext_refl(ns: Seq<Node>)
    ensures
        ext_preserves(ns, ns),
{
    assert(ns =~= ns.take(ns.len() as int));
}

pub proof fn lemma_ext_trans(a: Seq<Node>, b: Seq<Node>, c: Seq<Node>)
    requires
        ext_preserves(a, b),
        ext_preserves(b, c),
    ensures
        ext_preserves(a, c),
{
    assert forall|i: int| 0 <= i < a.len() implies a[i] == c.take(a.len() as int)[i] by {
        assert(a[i] == b[i]);
        assert(b[i] == c[i]);
    }
    assert(a =~= c.take(a.len() as int));
}

/// Handle `h` stands for the value description `sv`: it computes `sv.v`, it
/// is poisoned exactly when `sv.div0`, and it is a bare constant exactly when
/// `sv.lit` (the shape the static division check inspects).
pub open spec fn handle_denotes(ns: Seq<Node>, h: usize, sv: SVal) -> bool {
    &&& h < ns.len()
    &&& node_val(ns, h as int) == sv.v
    &&& node_poison(ns, h as int) == sv.div0
    &&& (ns[h as int] is Const <==> sv.lit)
}

/// The label prefix of each instruction kind: the operation's name and a tag.
pub open spec fn op_prefix(op: BinOp) -> Seq<char> {
    match op {
        BinOp::Add => "add_tmp"@,
        BinOp::Sub => "sub_tmp"@,
        BinOp::Mul => "mul_tmp"@,
        BinOp::UDiv => "div_tmp"@,
    }
}

/// The compiler: the growing instruction sequence of the current line's
/// function, and the per-compilation counter that mints unique labels.
pub struct Calculator {
    nodes: Vec<Node>,
    tmp_counter: usize,
}

impl Calculator {
    /// The instruction sequence built so far.
    pub closed spec fn ir(self) -> Seq<Node> {
        self.nodes@
    }

    /// The label counter is ahead of every minted stamp, stamps grow along the
    /// sequence (so labels never collide), and operands point backwards.
    pub closed spec fn wf(self) -> bool {
        &&& nodes_wf(self.nodes@)
        &&& self.tmp_counter <= self.nodes@.len()
        &&& forall|i: int| 0 <= i < self.nodes@.len() ==> (#[trigger] self.nodes@[i] matches
            Node::Bin(b) ==> b.stamp < self.tmp_counter && b.name@ == crate::text::spec_temp_name(
            op_prefix(b.op), b.stamp as int))
        &&& forall|i: int, j: int|
            #![trigger self.nodes@[i], self.nodes@[j]]
            0 <= i < j < self.nodes@.len() ==> (self.nodes@[i] matches Node::Bin(b1)
                ==> (self.nodes@[j] matches Node::Bin(b2) ==> b1.stamp < b2.stamp))
    }

    /// A fresh compiler with an empty function and the counter at zero.
    pub fn new() -> (c: Calculator)
        ensures
            c.wf(),
            c.ir().len() == 0,
    {
        Calculator { nodes: Vec::new(), tmp_counter: 0 }
    }

    /// Starts a new line: discards the previous line's instructions and resets
    /// the label counter, so no state leaks between compilations.
    pub fn reset(&mut self)
        ensures
            final(self).wf(),
            final(self).ir().len() == 0,
    {
        self.nodes = Vec::new();
        self.tmp_counter = 0;
    }

    /// Creates a 64-bit constant, returning its handle.
    fn emit_const(&mut self, v: i64) -> (h: usize)
        requires
            old(self).wf(),
        ensures
            final(self).wf(),
            h == old(self).nodes@.len(),
            final(self).nodes@ == old(self).nodes@.push(Node::Const(v)),
            ext_preserves(old(self).nodes@, final(self).nodes@),
            handle_denotes(final(self).nodes@, h, SVal { v, lit: true, div0: false }),
    {
        let h = self.nodes.len();
        self.nodes.push(Node::Const(v));
        proof {
            assert(old(self).nodes@ =~= self.nodes@.take(old(self).nodes@.len() as int));
            assert forall|i: int| 0 <= i < old(self).nodes@.len() implies node_val(self.nodes@, i)
                == node_val(old(self).nodes@, i) && node_poison(self.nodes@, i) == node_poison(
                old(self).nodes@, i) by {
                crate::ir::lemma_node_prefix(old(self).nodes@, self.nodes@, i);
            }
        }
        h
    }

    /// Emits one arithmetic instruction over two earlier handles, labelled
    /// with a fresh name minted from the counter; returns the new handle.
    fn emit_bin(&mut self, op: BinOp, l: usize, r: usize) -> (h: usize)
        requires
            old(self).wf(),
            l < old(self).nodes@.len(),
            r < old(self).nodes@.len(),
        ensures
            final(self).wf(),
            h == old(self).nodes@.len(),
            final(self).nodes@.len() == old(self).nodes@.len() + 1,
            ext_preserves(old(self).nodes@, final(self).nodes@),
            !(final(self).nodes@[h as int] is Const),
            node_val(final(self).nodes@, h as int) == op_val(op, node_val(old(self).nodes@,
                l as int), node_val(old(self).nodes@, r as int)),
            node_poison(final(self).nodes@, h as int) == (node_poison(old(self).nodes@, l as int)
                || node_poison(old(self).nodes@, r as int) || (op is UDiv && node_val(
                old(self).nodes@, r as int) == 0)),
    {
        let name = match op {
            BinOp::Add => temp_name("add_tmp", self.tmp_counter),
            BinOp::Sub => temp_name("sub_tmp", self.tmp_counter),
            BinOp::Mul => temp_name("mul_tmp", self.tmp_counter),
            BinOp::UDiv => temp_name("div_tmp", self.tmp_counter),
        };
        let stamp = self.tmp_counter;
        let h = self.nodes.len();
        self.nodes.push(Node::Bin(BinInst { op, lhs: l, rhs: r, name, stamp }));
        // the push succeeded, so the grown length - and with it stamp + 1,
        // which never exceeds it - still fits in usize
        let grown = self.nodes.len();
        self.tmp_counter = stamp + 1;
        proof {
            assert(old(self).nodes@ =~= self.nodes@.take(old(self).nodes@.len() as int));
            assert forall|i: int| 0 <= i < old(self).nodes@.len() implies node_val(self.nodes@, i)
                == node_val(old(self).nodes@, i) && node_poison(self.nodes@, i) == node_poison(
                old(self).nodes@, i) by {
                crate::ir::lemma_node_prefix(old(self).nodes@, self.nodes@, i);
            }
        }
        h
    }

    /// Whether the handle is a literal constant equal to zero: the only shape
    /// of divisor the static division check can reject.
    fn is_const_zero(&self, h: usize) -> (r: bool)
        requires
            h < self.nodes@.len(),
        ensures
            r == (self.nodes@[h as int] matches Node::Const(v) && v == 0),
    {
        match &self.nodes[h] {
            Node::Const(v) => *v == 0,
            Node::Bin(_) => false,
        }
    }

    /// Parses one factor: a parenthesized expression or an integer literal,
    /// emitting its instructions and returning the handle of its value.
    fn parse_factor(&mut self, cur: &mut Cursor) -> (r: Result<usize, CalcError>)
        requires
            old(self).wf(),
            old(cur).wf(),
        ensures
            final(self).wf(),
            final(cur).wf(),
            ext_preserves(old(self).ir(), final(self).ir()),
            final(cur).remaining().len() <= old(cur).remaining().len(),
            ({
                let pf = p_factor(lex(old(cur).remaining()));
                match r {
                    Ok(h) => pf is Ok && handle_denotes(final(self).ir(), h, ok_val(pf)) && lex(
                        final(cur).remaining()) == ok_rest(pf),
                    Err(e) => pf is Err && err_matches(e, err_of(pf)),
                }
            }),
        decreases old(cur).remaining().len(), 0int,
    {
        let ghost rem0 = cur.remaining();
        proof {
            lemma_ext_refl(old(self).ir());
        }
        skip_whitespace(cur);
        proof {
            lemma_lex_skip_ws(rem0);
        }
        let ghost rem1 = cur.remaining();
        let ghost ts = lex(rem1);
        match cur.peek() {
            None => {
                proof {
                    assert(ts =~= Seq::<Token>::empty());
                }
                Err(CalcError::UnexpectedEnd)
            },
            Some(c) => {
                if c == '(' {
                    proof {
                        assert(ts == seq![Token::LPar] + lex(rem1.skip(1)));
                        assert(ts[0] == Token::LPar);
                        assert(ts.skip(1) =~= lex(rem1.skip(1)));
                    }
                    cur.advance();
                    let inner = match self.parse_expression(cur) {
                        Ok(h) => h,
                        Err(e) => {
                            return Err(e);
                        },
                    };
                    let ghost pe = p_expr(ts.skip(1));
                    let ghost rem2 = cur.remaining();
                    skip_whitespace(cur);
                    proof {
                        lemma_lex_skip_ws(rem2);
                    }
                    let ghost rem3 = cur.remaining();
                    match cur.peek() {
                        Some(rp) => {
                            if rp == ')' {
                                proof {
                                    assert(lex(rem3) == seq![Token::RPar] + lex(rem3.skip(1)));
                                    assert(ok_rest(pe)[0] == Token::RPar);
                                    assert(ok_rest(pe).skip(1) =~= lex(rem3.skip(1)));
                                }
                                cur.advance();
                                let ghost rem4 = cur.remaining();
                                skip_whitespace(cur);
                                proof {
                                    lemma_lex_skip_ws(rem4);
                                }
                                Ok(inner)
                            } else {
                                proof {
                                    if spec_is_digit_char(rp) {
                                        assert(lex(rem3) == lex_num(seq![rp], rem3.skip(1)));
                                        crate::lexer::lemma_lex_num_first(seq![rp], rem3.skip(1));
                                    } else {
                                        assert(lex(rem3) == seq![char_token(rp)] + lex(
                                            rem3.skip(1)));
                                    }
                                    assert(!(ok_rest(pe)[0] is RPar));
                                }
                                Err(CalcError::MissingClosingParen)
                            }
                        },
                        None => {
                            proof {
                                assert(lex(rem3) =~= Seq::<Token>::empty());
                            }
                            Err(CalcError::MissingClosingParen)
                        },
                    }
                } else if is_digit_char(c) {
                    proof {
                        assert(ts == lex_num(seq![c], rem1.skip(1)));
                    }
                    cur.advance();
                    let mut digits: Vec<char> = Vec::new();
                    digits.push(c);
                    proof {
                        assert(digits@ =~= seq![c]);
                    }
                    loop
                        invariant
                            cur.wf(),
                            digits@.len() > 0,
                            forall|i: int| 0 <= i < digits@.len() ==> spec_is_digit_char(
                                digits@[i]),
                            ts == lex_num(digits@, cur.remaining()),
                            cur.remaining().len() <= rem1.len(),
                        ensures
                            cur.wf(),
                            digits@.len() > 0,
                            forall|i: int| 0 <= i < digits@.len() ==> spec_is_digit_char(
                                digits@[i]),
                            ts == lex_num(digits@, cur.remaining()),
                            cur.remaining().len() <= rem1.len(),
                            cur.remaining().len() == 0 || !spec_is_digit_char(
                                cur.remaining()[0]),
                        decreases cur.remaining().len(),
                    {
                        match cur.peek() {
                            Some(d) => {
                                if is_digit_char(d) {
                                    cur.advance();
                                    digits.push(d);
                                } else {
                                    break ;
                                }
                            },
                            None => {
                                break ;
                            },
                        }
                    }
                    proof {
                        assert(ts == seq![Token::Num(digits@)] + lex(cur.remaining()));
                        assert(ts[0] == Token::Num(digits@));
                        assert(ts.skip(1) =~= lex(cur.remaining()));
                    }
                    match digits_to_i64(&digits) {
                        Some(v) => {
                            let h = self.emit_const(v);
                            Ok(h)
                        },
                        None => {
                            let lit = chars_to_string(&digits);
                            Err(CalcError::InvalidLiteral(lit))
                        },
                    }
                } else {
                    proof {
                        assert(ts == seq![char_token(c)] + lex(rem1.skip(1)));
                        assert(ts[0] == char_token(c));
                        assert(token_first_char(char_token(c)) == c);
                    }
                    Err(CalcError::InvalidCharacter(c))
                }
            },
        }
    }

    /// Parses one term: a factor, then any run of `*`/`/` steps, each emitting
    /// one instruction that folds the right-hand side into the accumulator.
    /// A `/` whose right operand is a literal constant zero is rejected here.
    fn parse_term(&mut self, cur: &mut Cursor) -> (r: Result<usize, CalcError>)
        requires
            old(self).wf(),
            old(cur).wf(),
        ensures
            final(self).wf(),
            final(cur).wf(),
            ext_preserves(old(self).ir(), final(self).ir()),
            final(cur).remaining().len() <= old(cur).remaining().len(),
            ({
                let pt = p_term(lex(old(cur).remaining()));
                match r {
                    Ok(h) => pt is Ok && handle_denotes(final(self).ir(), h, ok_val(pt)) && lex(
                        final(cur).remaining()) == ok_rest(pt),
                    Err(e) => pt is Err && err_matches(e, err_of(pt)),
                }
            }),
        decreases old(cur).remaining().len(), 1int,
    {
        let ghost ts0 = lex(cur.remaining());
        let mut acc = match self.parse_factor(cur) {
            Ok(h) => h,
            Err(e) => {
                return Err(e);
            },
        };
        let ghost mut sv_acc = ok_val(p_factor(ts0));
        proof {
            lemma_factor_progress(ts0);
            assert(p_term(ts0) == p_term_loop(sv_acc, ok_rest(p_factor(ts0))));
        }
        loop
            invariant
                self.wf(),
                cur.wf(),
                ext_preserves(old(self).ir(), self.ir()),
                handle_denotes(self.ir(), acc, sv_acc),
                p_term(ts0) == p_term_loop(sv_acc, lex(cur.remaining())),
                cur.remaining().len() <= old(cur).remaining().len(),
                ts0 == lex(old(cur).remaining()),
            decreases cur.remaining().len(),
        {
            let ghost rem_a = cur.remaining();
            skip_whitespace(cur);
            proof {
                lemma_lex_skip_ws(rem_a);
            }
            let ghost rem1 = cur.remaining();
            let ghost ts_cur = lex(rem1);
            match cur.peek() {
                None => {
                    proof {
                        assert(ts_cur =~= Seq::<Token>::empty());
                    }
                    return Ok(acc);
                },
                Some(op) => {
                    if op == '*' || op == '/' {
                        proof {
                            assert(ts_cur == seq![char_token(op)] + lex(rem1.skip(1)));
                            assert(ts_cur[0] == char_token(op));
                            assert(ts_cur.skip(1) =~= lex(rem1.skip(1)));
                        }
                        cur.advance();
                        let ghost nodes1 = self.ir();
                        let rhs = match self.parse_factor(cur) {
                            Ok(h) => h,
                            Err(e) => {
                                proof {
                                    lemma_ext_trans(old(self).ir(), nodes1, self.ir());
                                }
                                return Err(e);
                            },
                        };
                        let ghost pf = p_factor(lex(rem1.skip(1)));
                        let ghost sv_b = ok_val(pf);
                        proof {
                            lemma_factor_progress(lex(rem1.skip(1)));
                            lemma_ext_trans(old(self).ir(), nodes1, self.ir());
                            lemma_denotes_preserved(nodes1, self.ir(), acc, sv_acc);
                        }
                        if op == '/' {
                            if self.is_const_zero(rhs) {
                                return Err(CalcError::DivisionByZero);
                            }
                            let ghost nodes2 = self.ir();
                            let h2 = self.emit_bin(BinOp::UDiv, acc, rhs);
                            proof {
                                lemma_ext_trans(old(self).ir(), nodes2, self.ir());
                                sv_acc = div_sval(sv_acc, sv_b);
                            }
                            acc = h2;
                        } else {
                            let ghost nodes2 = self.ir();
                            let h2 = self.emit_bin(BinOp::Mul, acc, rhs);
                            proof {
                                lemma_ext_trans(old(self).ir(), nodes2, self.ir());
                                sv_acc = mul_sval(sv_acc, sv_b);
                            }
                            acc = h2;
                        }
                    } else {
                        proof {
                            if spec_is_digit_char(op) {
                                assert(ts_cur == lex_num(seq![op], rem1.skip(1)));
                                crate::lexer::lemma_lex_num_first(seq![op], rem1.skip(1));
                            } else {
                                assert(ts_cur == seq![char_token(op)] + lex(rem1.skip(1)));
                            }
                            assert(!(ts_cur[0] is Star) && !(ts_cur[0] is Slash));
                        }
                        return Ok(acc);
                    }
                },
            }
        }
    }

    /// Parses one expression: a term, then any run of `+`/`-` steps, each
    /// emitting one instruction that folds the right-hand side into the
    /// accumulator. The lookahead not offering `+`/`-` ends the loop; it is
    /// never an error.
    fn parse_expression(&mut self, cur: &mut Cursor) -> (r: Result<usize, CalcError>)
        requires
            old(self).wf(),
            old(cur).wf(),
        ensures
            final(self).wf(),
            final(cur).wf(),
            ext_preserves(old(self).ir(), final(self).ir()),
            final(cur).remaining().len() <= old(cur).remaining().len(),
            ({
                let pe = p_expr(lex(old(cur).remaining()));
                match r {
                    Ok(h) => pe is Ok && handle_denotes(final(self).ir(), h, ok_val(pe)) && lex(
                        final(cur).remaining()) == ok_rest(pe),
                    Err(e) => pe is Err && err_matches(e, err_of(pe)),
                }
            }),
        decreases old(cur).remaining().len(), 2int,
    {
        let ghost ts0 = lex(cur.remaining());
        let mut acc = match self.parse_term(cur) {
            Ok(h) => h,
            Err(e) => {
                return Err(e);
            },
        };
        let ghost mut sv_acc = ok_val(p_term(ts0));
        proof {
            lemma_term_progress(ts0);
            assert(p_expr(ts0) == p_expr_loop(sv_acc, ok_rest(p_term(ts0))));
        }
        loop
            invariant
                self.wf(),
                cur.wf(),
                ext_preserves(old(self).ir(), self.ir()),
                handle_denotes(self.ir(), acc, sv_acc),
                p_expr(ts0) == p_expr_loop(sv_acc, lex(cur.remaining())),
                cur.remaining().len() <= old(cur).remaining().len(),
                ts0 == lex(old(cur).remaining()),
            decreases cur.remaining().len(),
        {
            let ghost rem_a = cur.remaining();
            skip_whitespace(cur);
            proof {
                lemma_lex_skip_ws(rem_a);
            }
            let ghost rem1 = cur.remaining();
            let ghost ts_cur = lex(rem1);
            match cur.peek() {
                None => {
                    proof {
                        assert(ts_cur =~= Seq::<Token>::empty());
                    }
                    return Ok(acc);
                },
                Some(op) => {
                    if op == '+' || op == '-' {
                        proof {
                            assert(ts_cur == seq![char_token(op)] + lex(rem1.skip(1)));
                            assert(ts_cur[0] == char_token(op));
                            assert(ts_cur.skip(1) =~= lex(rem1.skip(1)));
                        }
                        cur.advance();
                        let ghost nodes1 = self.ir();
                        let rhs = match self.parse_term(cur) {
                            Ok(h) => h,
                            Err(e) => {
                                proof {
                                    lemma_ext_trans(old(self).ir(), nodes1, self.ir());
                                }
                                return Err(e);
                            },
                        };
                        let ghost pt = p_term(lex(rem1.skip(1)));
                        let ghost sv_b = ok_val(pt);
                        proof {
                            lemma_term_progress(lex(rem1.skip(1)));
                            lemma_ext_trans(old(self).ir(), nodes1, self.ir());
                            lemma_denotes_preserved(nodes1, self.ir(), acc, sv_acc);
                        }
                        if op == '+' {
                            let ghost nodes2 = self.ir();
                            let h2 = self.emit_bin(BinOp::Add, acc, rhs);
                            proof {
                                lemma_ext_trans(old(self).ir(), nodes2, self.ir());
                                sv_acc = add_sval(sv_acc, sv_b);
                            }
                            acc = h2;
                        } else {
                            let ghost nodes2 = self.ir();
                            let h2 = self.emit_bin(BinOp::Sub, acc, rhs);
                            proof {
                                lemma_ext_trans(old(self).ir(), nodes2, self.ir());
                                sv_acc = sub_sval(sv_acc, sv_b);
                            }
                            acc = h2;
                        }
                    } else {
                        proof {
                            if spec_is_digit_char(op) {
                                assert(ts_cur == lex_num(seq![op], rem1.skip(1)));
                                crate::lexer::lemma_lex_num_first(seq![op], rem1.skip(1));
                            } else {
                                assert(ts_cur == seq![char_token(op)] + lex(rem1.skip(1)));
                            }
                            assert(!(ts_cur[0] is Plus) && !(ts_cur[0] is Minus));
                        }
                        return Ok(acc);
                    }
                },
            }
        }
    }
}

impl Calculator {
    /// Compiles one line: parses it (emitting instructions as productions are
    /// recognized), rejects leftover characters, closes the function with its
    /// return handle, and structurally verifies it. Starts from a fresh
    /// function and a reset label counter, so nothing carries over from
    /// earlier lines.
    pub fn compile(&mut self, line: &str) -> (r: Result<Function, CalcError>)
        ensures
            final(self).wf(),
            match r {
                Ok(f) => spec_compile(line@) matches Ok(sv) && f.wf() && f.result() == sv.v
                    && f.poisoned() == sv.div0,
                Err(e) => spec_compile(line@) matches Err(se) && err_matches(e, se),
            },
    {
        self.nodes = Vec::new();
        self.tmp_counter = 0;
        let mut cur = Cursor::new(line);
        let ghost ts0 = lex(line@);
        let h = match self.parse_expression(&mut cur) {
            Ok(h) => h,
            Err(e) => {
                return Err(e);
            },
        };
        let ghost pe = p_expr(ts0);
        let ghost rem2 = cur.remaining();
        skip_whitespace(&mut cur);
        proof {
            lemma_lex_skip_ws(rem2);
        }
        let ghost rem3 = cur.remaining();
        match cur.peek() {
            Some(c) => {
                proof {
                    if spec_is_digit_char(c) {
                        assert(lex(rem3) == lex_num(seq![c], rem3.skip(1)));
                        crate::lexer::lemma_lex_num_first(seq![c], rem3.skip(1));
                    } else {
                        assert(lex(rem3) == seq![char_token(c)] + lex(rem3.skip(1)));
                    }
                    assert(ok_rest(pe).len() > 0);
                    assert(token_first_char(ok_rest(pe)[0]) == c);
                }
                if is_valid_char(c) {
                    proof {
                        assert(!(ok_rest(pe)[0] is Bad));
                    }
                    Err(CalcError::IncompleteExpression(c))
                } else {
                    proof {
                        assert(ok_rest(pe)[0] is Bad);
                    }
                    Err(CalcError::InvalidTrailingChar(c))
                }
            },
            None => {
                proof {
                    assert(lex(rem3) =~= Seq::<Token>::empty());
                }
                let mut nodes: Vec<Node> = Vec::new();
                core::mem::swap(&mut nodes, &mut self.nodes);
                self.tmp_counter = 0;
                let f = Function { nodes, ret: h };
                if !verify_function(&f) {
                    return Err(CalcError::InvalidFunction);
                }
                Ok(f)
            },
        }
    }

    /// Compiles and runs one line: the single operation the driver uses. The
    /// result is determined by the line's characters alone; no state from any
    /// earlier compilation can reach it.
    pub fn run(&mut self, line: &str) -> (r: Result<i64, CalcError>)
        ensures
            final(self).wf(),
            match r {
                Ok(v) => spec_run(line@) matches Ok(v2) && v == v2,
                Err(e) => spec_run(line@) matches Err(se) && err_matches(e, se),
            },
    {
        let f = match self.compile(line) {
            Ok(f) => f,
            Err(e) => {
                return Err(e);
            },
        };
        execute(&f)
    }
}

/// Label freshness within one compilation: two distinct emitted instructions
/// never carry the same label. Instructions of the same kind differ in the
/// counter value their label ends with; instructions of different kinds
/// differ in the label's first character.
pub proof fn lemma_labels_unique(c: Calculator, i: int, j: int)
    requires
        c.wf(),
        0 <= i < c.ir().len(),
        0 <= j < c.ir().len(),
        i != j,
    ensures
        c.ir()[i] matches Node::Bin(b1) ==> (c.ir()[j] matches Node::Bin(b2) ==> b1.stamp
            != b2.stamp && b1.name@ != b2.name@),
{
    reveal_strlit("add_tmp");
    reveal_strlit("sub_tmp");
    reveal_strlit("mul_tmp");
    reveal_strlit("div_tmp");
    match (c.ir()[i], c.ir()[j]) {
        (Node::Bin(b1), Node::Bin(b2)) => {
            let p1 = op_prefix(b1.op);
            let p2 = op_prefix(b2.op);
            assert(p1.len() == 7 && p2.len() == 7);
            assert(b1.stamp != b2.stamp);
            if b1.op == b2.op {
                if b1.name@ == b2.name@ {
                    let d1 = crate::text::spec_dec_digits(b1.stamp as int);
                    let d2 = crate::text::spec_dec_digits(b2.stamp as int);
                    assert(d1 =~= b1.name@.skip(8));
                    assert(d2 =~= b2.name@.skip(8));
                    crate::text::lemma_dec_digits_injective(b1.stamp as int, b2.stamp as int);
                    assert(false);
                }
            } else {
                assert(b1.name@[0] == p1[0]);
                assert(b2.name@[0] == p2[0]);
                assert(p1[0] != p2[0]);
            }
        },
        _ => {},
    }
}

/// Handles keep their meaning when the sequence only grows.
pub proof fn lemma_denotes_preserved(ns1: Seq<Node>, ns2: Seq<Node>, h: usize, sv: SVal)
    requires
        ext_preserves(ns1, ns2),
        handle_denotes(ns1, h, sv),
    ensures
        handle_denotes(ns2, h, sv),
{
    assert(ns2.take(ns1.len() as int)[h as int] == ns2[h as int]);
}

/// Converts a non-empty digit run into the signed 64-bit value it denotes, or
/// reports that the value lies outside the signed 64-bit domain.
fn digits_to_i64(ds: &Vec<char>) -> (r: Option<i64>)
    requires
        ds@.len() > 0,
        forall|i: int| 0 <= i < ds@.len() ==> spec_is_digit_char(ds@[i]),
    ensures
        match r {
            Some(v) => digits_val(ds@) <= i64::MAX && v == digits_val(ds@),
            None => digits_val(ds@) > i64::MAX,
        },
{
    let n = ds.len();
    let mut acc: i64 = 0;
    let mut overflow = false;
    let mut i: usize = 0;
    while i < n
        invariant
            i <= n,
            n == ds@.len(),
            forall|k: int| 0 <= k < ds@.len() ==> spec_is_digit_char(ds@[k]),
            !overflow ==> acc == digits_val(ds@.take(i as int)) && acc >= 0,
            overflow ==> digits_val(ds@.take(i as int)) > i64::MAX,
        decreases n - i,
    {
        let c = ds[i];
        proof {
            assert(spec_is_digit_char(ds@[i as int]));
        }
        let d: u32 = c as u32 - '0' as u32;
        let di: i64 = d as i64;
        proof {
            assert(di == digit_of(ds@[i as int]));
            assert(0 <= di <= 9);
            assert(ds@.take(i as int + 1).drop_last() =~= ds@.take(i as int));
            assert(ds@.take(i as int + 1).last() == ds@[i as int]);
        }
        if !overflow {
            if acc <= (i64::MAX - di) / 10 {
                proof {
                    assert(acc * 10 + di <= i64::MAX) by (nonlinear_arith)
                        requires
                            acc <= (i64::MAX - di) / 10,
                            0 <= di <= 9,
                            acc >= 0,
                    ;
                }
                acc = acc * 10 + di;
            } else {
                proof {
                    assert(acc * 10 + di > i64::MAX) by (nonlinear_arith)
                        requires
                            acc > (i64::MAX - di) / 10,
                            0 <= di <= 9,
                            acc >= 0,
                    ;
                }
                overflow = true;
            }
        } else {
            proof {
                let ghost w = digits_val(ds@.take(i as int));
                assert(w * 10 + di > i64::MAX) by (nonlinear_arith)
                    requires
                        w > i64::MAX,
                        di >= 0,
                ;
            }
        }
        i = i + 1;
    }
    proof {
        assert(ds@.take(n as int) =~= ds@);
    }
    if overflow {
        None
    } else {
        Some(acc)
    }
}

/// Copies a character sequence into a string.
fn chars_to_string(cs: &Vec<char>) -> (s: String)
    ensures
        s@ == cs@,
{
    let mut s = String::new();
    let mut i: usize = 0;
    while i < cs.len()
        invariant
            i <= cs@.len(),
            s@ == cs@.take(i as int),
        decreases cs@.len() - i,
    {
        push_char(&mut s, cs[i]);
        i = i + 1;
        proof {
            assert(s@ =~= cs@.take(i as int));
        }
    }
    proof {
        assert(cs@.take(cs@.len() as int) =~= cs@);
    }
    s
}

} // verus!
