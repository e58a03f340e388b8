//! The instruction backend: an append-only sequence of intermediate
//! instructions, the opaque value handles the parser passes around, structural
//! verification, and the executor that runs a finished function.

use vstd::prelude::*;
use crate::sem::{to_unsigned, to_signed, udiv_val};

verus! {

/// The four binary arithmetic instructions.
#[derive(Clone, Copy, PartialEq, Eq, Structural)]
pub enum BinOp {
    Add,
    Sub,
    Mul,
    UDiv,
}

/// One emitted instruction: an operation over two earlier value handles, with
/// a human-readable label and the counter stamp the label was minted from.
pub struct BinInst {
    pub op: BinOp,
    pub lhs: usize,
    pub rhs: usize,
    pub name: String,
    pub stamp: usize,
}

/// One node of a compilation: a 64-bit constant, or an instruction combining
/// two earlier nodes. A value handle is an index into the node sequence.
pub enum Node {
    Const(i64),
    Bin(BinInst),
}

/// Every instruction's operands point strictly backwards: the sequence is in
/// evaluation order.
pub open spec fn nodes_wf(ns: Seq<Node>) -> bool {
    forall|i: int| 0 <= i < ns.len() ==> (#[trigger] ns[i] matches Node::Bin(b)
        ==> b.lhs < i && b.rhs < i)
}

/// What one instruction computes from its operand values.
pub open spec fn op_val(op: BinOp, a: i64, b: i64) -> i64 {
    match op {
        BinOp::Add => vstd::wrapping::i64_specs::wrapping_add(a, b),
        BinOp::Sub => vstd::wrapping::i64_specs::wrapping_sub(a, b),
        BinOp::Mul => vstd::wrapping::i64_specs::wrapping_mul(a, b),
        BinOp::UDiv => udiv_val(a, b),
    }
}

/// The value a node holds once the sequence has executed up to it.
pub open spec fn node_val(ns: Seq<Node>, i: int) -> i64
    decreases i,
{
    if 0 <= i < ns.len() {
        match ns[i] {
            Node::Const(v) => v,
            Node::Bin(b) => if b.lhs < i && b.rhs < i {
                op_val(b.op, node_val(ns, b.lhs as int), node_val(ns, b.rhs as int))
            } else {
                0
            },
        }
    } else {
        0
    }
}

/// Whether executing up to this node divides by a zero that only exists at
/// execution time. Such a node has no defined native result; the executor
/// reports it as a runtime error.
pub open spec fn node_poison(ns: Seq<Node>, i: int) -> bool
    decreases i,
{
    if 0 <= i < ns.len() {
        match ns[i] {
            Node::Const(v) => false,
            Node::Bin(b) => if b.lhs < i && b.rhs < i {
                node_poison(ns, b.lhs as int) || node_poison(ns, b.rhs as int) || (b.op
                    is UDiv && node_val(ns, b.rhs as int) == 0)
            } else {
                false
            },
        }
    } else {
        false
    }
}

/// A node's value and poison depend only on the nodes up to it: appending
/// instructions never disturbs the handles already given out.
pub proof fn lemma_node_prefix(ns1: Seq<Node>, ns2: Seq<Node>, i: int)
    requires
        ns1.len() <= ns2.len(),
        ns1 == ns2.take(ns1.len() as int),
        0 <= i < ns1.len(),
    ensures
        node_val(ns2, i) == node_val(ns1, i),
        node_poison(ns2, i) == node_poison(ns1, i),
    decreases i,
{
    assert(ns1[i] == ns2[i]);
    match ns1[i] {
        Node::Const(v) => {},
        Node::Bin(b) => {
            if b.lhs < i && b.rhs < i {
                lemma_node_prefix(ns1, ns2, b.lhs as int);
                lemma_node_prefix(ns1, ns2, b.rhs as int);
            }
        },
    }
}

/// A finished nullary function: the instruction sequence of its single entry
/// block and the handle its return instruction carries.
pub struct Function {
    pub nodes: Vec<Node>,
    pub ret: usize,
}

impl Function {
    /// Structural well-formedness: operands point backwards and the returned
    /// handle exists.
    pub open spec fn wf(self) -> bool {
        nodes_wf(self.nodes@) && self.ret < self.nodes@.len()
    }

    /// The value the function returns when it runs, if it runs at all.
    pub open spec fn result(self) -> i64 {
        node_val(self.nodes@, self.ret as int)
    }

    /// Whether running the function divides by zero.
    pub open spec fn poisoned(self) -> bool {
        node_poison(self.nodes@, self.ret as int)
    }
}

/// Structurally verifies a function body: every instruction's operands must
/// point strictly backwards and the returned handle must exist.
pub fn verify_function(f: &Function) -> (r: bool)
    ensures
        r == f.wf(),
{
    let n = f.nodes.len();
    if f.ret >= n {
        return false;
    }
    let mut i: usize = 0;
    while i < n
        invariant
            i <= n,
            n == f.nodes@.len(),
            forall|j: int| 0 <= j < i ==> (#[trigger] f.nodes@[j] matches Node::Bin(b)
                ==> b.lhs < j && b.rhs < j),
        decreases n - i,
    {
        match &f.nodes[i] {
            Node::Const(_) => {},
            Node::Bin(b) => {
                if b.lhs >= i || b.rhs >= i {
                    return false;
                }
            },
        }
        i = i + 1;
    }
    true
}

/// The unsigned division instruction: reads both operands' bit patterns as
/// unsigned, divides, and reads the quotient back as signed.
pub fn udiv_exec(a: i64, b: i64) -> (r: i64)
    requires
        b != 0,
    ensures
        r == udiv_val(a, b),
{
    let au: u64 = if a >= 0 {
        a as u64
    } else {
        u64::MAX - ((-(a + 1)) as u64)
    };
    let bu: u64 = if b >= 0 {
        b as u64
    } else {
        u64::MAX - ((-(b + 1)) as u64)
    };
    proof {
        assert(au == to_unsigned(a));
        assert(bu == to_unsigned(b));
    }
    let q = au / bu;
    if q <= i64::MAX as u64 {
        q as i64
    } else {
        let r = -((u64::MAX - q) as i64) - 1;
        proof {
            assert(r == to_signed(q));
        }
        r
    }
}

/// Runs a verified function: evaluates its instruction sequence in order and
/// hands back the returned value, or reports the division by zero that the
/// static check could not see.
pub fn execute(f: &Function) -> (r: Result<i64, crate::errors::CalcError>)
    requires
        f.wf(),
    ensures
        f.poisoned() ==> (r matches Err(e) && e is RuntimeDivisionByZero),
        !f.poisoned() ==> (r matches Ok(v) && v == f.result()),
{
    let n = f.nodes.len();
    let mut vals: Vec<i64> = Vec::new();
    let mut poisons: Vec<bool> = Vec::new();
    let mut i: usize = 0;
    while i < n
        invariant
            i <= n,
            n == f.nodes@.len(),
            f.wf(),
            vals@.len() == i,
            poisons@.len() == i,
            forall|j: int| 0 <= j < i ==> vals@[j] == node_val(f.nodes@, j),
            forall|j: int| 0 <= j < i ==> poisons@[j] == node_poison(f.nodes@, j),
        decreases n - i,
    {
        match &f.nodes[i] {
            Node::Const(v) => {
                vals.push(*v);
                poisons.push(false);
            },
            Node::Bin(b) => {
                let a = vals[b.lhs];
                let c = vals[b.rhs];
                let p = poisons[b.lhs] || poisons[b.rhs];
                match b.op {
                    BinOp::Add => {
                        vals.push(a.wrapping_add(c));
                        poisons.push(p);
                    },
                    BinOp::Sub => {
                        vals.push(a.wrapping_sub(c));
                        poisons.push(p);
                    },
                    BinOp::Mul => {
                        vals.push(a.wrapping_mul(c));
                        poisons.push(p);
                    },
                    BinOp::UDiv => {
                        if c == 0 {
                            vals.push(0);
                            poisons.push(true);
                        } else {
                            vals.push(udiv_exec(a, c));
                            poisons.push(p);
                        }
                    },
                }
            },
        }
        i = i + 1;
    }
    if poisons[f.ret] {
        Err(crate::errors::CalcError::RuntimeDivisionByZero)
    } else {
        Ok(vals[f.ret])
    }
}

} // verus!
