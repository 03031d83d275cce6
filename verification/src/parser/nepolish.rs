//! The Devanagari-script ("Nepolish") prefix-notation calculator: parsing
//! a source line into a tree and folding the tree to a [`Sankhya`] value.

use vstd::prelude::*;

pub use crate::ast::EvalError;
pub use crate::ast::Node;
pub use crate::ast::Operator;
pub use crate::grammar::Expected;
pub use crate::grammar::ParseError;
pub use crate::grammar::SyntaxError;
pub use crate::numeral::NumeralError;
pub use crate::numeral::Sankhya;

verus! {

use crate::ast::{
    TreeModel,
    wf_tree,
    models_of,
    spec_eval,
    spec_fold,
    spec_apply,
    lemma_models_of,
};
use crate::grammar::{spec_parse, ParseErrModel, parse_core};
use crate::numeral::Script;

broadcast use vstd::std_specs::vec::group_vec_axioms;

/// Parses one source line of Devanagari-digit prefix notation, exactly as
/// [`spec_parse`] states; a successful parse is a well-formed tree.
pub fn parse(source: &str) -> (r: Result<Node, ParseError>)
    ensures
        match r {
            Ok(node) => spec_parse(Script::Devanagari, source@) == Ok::<TreeModel, ParseErrModel>(
                node@,
            ) && wf_tree(node@),
            Err(e) => spec_parse(Script::Devanagari, source@) == Err::<TreeModel, ParseErrModel>(
                e@,
            ),
        },
{
    parse_core(Script::Devanagari, source)
}

/// Whether every operator node of the tree has at least two children.  Trees
/// returned by [`parse`] always do; a caller that builds trees by hand can
/// check before evaluating.
pub fn well_formed(node: &Node) -> (r: bool)
    ensures
        r == wf_tree(node@),
    decreases node,
{
    match node {
        Node::Int(_) => true,
        Node::Expr { op, children } => {
            proof {
                lemma_models_of(children@);
            }
            let n = children.len();
            if n < 2 {
                return false;
            }
            let mut idx: usize = 0;
            while idx < n
                invariant
                    idx <= n,
                    n == children@.len(),
                    *node == (Node::Expr { op: *op, children: *children }),
                    node@ == (TreeModel::Expr { op: *op, children: models_of(children@) }),
                    models_of(children@).len() == n,
                    forall|t: int|
                        0 <= t < children@.len() ==> models_of(children@)[t] == #[trigger] (
                        children@[t]@),
                    forall|t: int| 0 <= t < idx ==> wf_tree(#[trigger] models_of(children@)[t]),
                decreases n - idx,
            {
                proof {
                    assert(decreases_to!(*node => *children));
                    assert(decreases_to!(*children => children@));
                    assert(decreases_to!(children@ => children@[idx as int]));
                }
                if !well_formed(&children[idx]) {
                    proof {
                        assert(!wf_tree(models_of(children@)[idx as int]));
                    }
                    return false;
                }
                idx = idx + 1;
            }
            true
        },
    }
}

/// One fold step of the evaluator, exactly as [`spec_apply`] states:
/// 32-bit arithmetic with overflow detected, division truncating toward
/// zero and rejecting a zero divisor.
fn apply_op(op: Operator, a: i32, b: i32) -> (r: Result<i32, EvalError>)
    ensures
        match r {
            Ok(v) => spec_apply(op, a as int, b as int) == Ok::<int, EvalError>(v as int),
            Err(e) => spec_apply(op, a as int, b as int) == Err::<int, EvalError>(e),
        },
{
    match op {
        Operator::Add => {
            let s64: i64 = a as i64 + b as i64;
            if s64 < -0x8000_0000i64 || s64 > 0x7fff_ffffi64 {
                Err(EvalError::Overflow)
            } else {
                Ok(s64 as i32)
            }
        },
        Operator::Subtract => {
            let s64: i64 = a as i64 - b as i64;
            if s64 < -0x8000_0000i64 || s64 > 0x7fff_ffffi64 {
                Err(EvalError::Overflow)
            } else {
                Ok(s64 as i32)
            }
        },
        Operator::Multiply => {
            proof {
                assert(-0x4000_0000_0000_0000 <= (a as int) * (b as int)
                    <= 0x4000_0000_0000_0000) by (nonlinear_arith)
                    requires
                        -0x8000_0000 <= a as int <= 0x7fff_ffff,
                        -0x8000_0000 <= b as int <= 0x7fff_ffff,
                ;
            }
            let p: i64 = (a as i64) * (b as i64);
            if p < -0x8000_0000i64 || p > 0x7fff_ffffi64 {
                Err(EvalError::Overflow)
            } else {
                Ok(p as i32)
            }
        },
        Operator::Divide => {
            if b == 0 {
                return Err(EvalError::DivideByZero);
            }
            let am: u64 = if a < 0 {
                (-(a as i64)) as u64
            } else {
                a as u64
            };
            let bm: u64 = if b < 0 {
                (-(b as i64)) as u64
            } else {
                b as u64
            };
            let q: u64 = am / bm;
            proof {
                assert(am as int == vstd::math::abs(a as int));
                assert(bm as int == vstd::math::abs(b as int));
                assert(q <= am) by (nonlinear_arith)
                    requires
                        bm >= 1,
                        q == am / bm,
                ;
            }
            if (a < 0) == (b < 0) {
                if q > 0x7fff_ffff {
                    Err(EvalError::Overflow)
                } else {
                    Ok(q as i32)
                }
            } else {
                let v = (-(q as i64)) as i32;
                Ok(v)
            }
        },
    }
}

/// Evaluates a well-formed tree to its 32-bit value, exactly as
/// [`spec_eval`] states: leaves are their value, an operator node folds its
/// children left to right, and the first overflow or zero divisor aborts
/// the evaluation.
pub fn eval_node(node: &Node) -> (r: Result<i32, EvalError>)
    requires
        wf_tree(node@),
    ensures
        match r {
            Ok(v) => spec_eval(node@) == Ok::<int, EvalError>(v as int),
            Err(e) => spec_eval(node@) == Err::<int, EvalError>(e),
        },
    decreases node,
{
    match node {
        Node::Int(v) => Ok(*v),
        Node::Expr { op, children } => {
            proof {
                lemma_models_of(children@);
            }
            let ghost mcs = models_of(children@);
            let first = match eval_node(&children[0]) {
                Err(e) => {
                    return Err(e);
                },
                Ok(v) => v,
            };
            let mut acc = first;
            let mut idx: usize = 1;
            while idx < children.len()
                invariant
                    1 <= idx <= children@.len(),
                    mcs == models_of(children@),
                    mcs.len() == children@.len(),
                    *node == (Node::Expr { op: *op, children: *children }),
                    node@ == (TreeModel::Expr { op: *op, children: mcs }),
                    forall|t: int| 0 <= t < mcs.len() ==> wf_tree(#[trigger] mcs[t]),
                    forall|t: int|
                        0 <= t < children@.len() ==> mcs[t] == #[trigger] (children@[t]@),
                    spec_eval(node@) == spec_fold(*op, acc as int, mcs, idx as int),
                decreases children@.len() - idx,
            {
                proof {
                    assert(decreases_to!(*node => *children));
                    assert(decreases_to!(*children => children@));
                    assert(decreases_to!(children@ => children@[idx as int]));
                }
                let v = match eval_node(&children[idx]) {
                    Err(e) => {
                        return Err(e);
                    },
                    Ok(v) => v,
                };
                let a2 = match apply_op(*op, acc, v) {
                    Err(e) => {
                        return Err(e);
                    },
                    Ok(v) => v,
                };
                acc = a2;
                idx = idx + 1;
            }
            Ok(acc)
        },
    }
}

/// Evaluates a well-formed tree to a [`Sankhya`] value; see [`eval_node`]
/// for the exact meaning.
pub fn eval(node: Node) -> (r: Result<Sankhya, EvalError>)
    requires
        wf_tree(node@),
    ensures
        match r {
            Ok(k) => spec_eval(node@) == Ok::<int, EvalError>(k.0 as int),
            Err(e) => spec_eval(node@) == Err::<int, EvalError>(e),
        },
{
    match eval_node(&node) {
        Ok(v) => Ok(Sankhya(v)),
        Err(e) => Err(e),
    }
}

} // verus!
