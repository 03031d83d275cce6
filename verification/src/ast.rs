//! The abstract syntax tree of prefix expressions and its evaluation model.
//!
//! A tree is either an integer leaf or an operator applied to an ordered list
//! of at least two children.  Evaluation folds each operator node's children
//! left to right over signed 32-bit arithmetic, reporting overflow and
//! division by zero instead of wrapping or panicking.

use vstd::prelude::*;

verus! {

/// The four arithmetic operators of the grammar.
#[derive(Debug, PartialEq, Eq, Clone, Copy, Structural)]
pub enum Operator {
    Add,
    Subtract,
    Multiply,
    Divide,
}

/// A parsed prefix expression: an integer leaf, or an operator node with an
/// ordered list of children.  The grammar only ever produces operator nodes
/// with at least two children (see [`wf_tree`]).
#[derive(Debug, PartialEq, Eq)]
pub enum Node {
    Int(i32),
    Expr { op: Operator, children: Vec<Node> },
}

/// The mathematical model of a [`Node`]: the same tree over unbounded
/// integers and `Seq`, used by every contract in this crate.
#[verifier::ext_equal]
pub enum TreeModel {
    Int(int),
    Expr { op: Operator, children: Seq<TreeModel> },
}

/// The model of an executable tree: leaves keep their value, children become
/// a `Seq` of models.
pub open spec fn tree_model(n: Node) -> TreeModel
    decreases n, 0int,
    via tree_model_decreases
{
    match n {
        Node::Int(v) => TreeModel::Int(v as int),
        Node::Expr { op, children } => TreeModel::Expr {
            op: op,
            children: models_of(children@),
        },
    }
}

/// The models of a sequence of executable trees, in order.
pub open spec fn models_of(s: Seq<Node>) -> Seq<TreeModel>
    decreases s, 1int,
{
    if s.len() == 0 {
        Seq::empty()
    } else {
        models_of(s.drop_last()).push(tree_model(s.last()))
    }
}

/// `models_of` maps the model over the sequence element by element.
pub proof fn lemma_models_of(s: Seq<Node>)
    ensures
        models_of(s).len() == s.len(),
        forall|i: int| 0 <= i < s.len() ==> models_of(s)[i] == tree_model(#[trigger] s[i]),
    decreases s.len(),
{
    if s.len() > 0 {
        lemma_models_of(s.drop_last());
        assert forall|i: int| 0 <= i < s.len() implies models_of(s)[i] == tree_model(
            #[trigger] s[i],
        ) by {
            if i < s.len() - 1 {
                assert(s.drop_last()[i] == s[i]);
                assert(models_of(s)[i] == models_of(s.drop_last())[i]);
            } else {
                assert(models_of(s)[i] == tree_model(s.last()));
            }
        }
    }
}

/// Appending one tree appends its model.
pub proof fn lemma_models_push(s: Seq<Node>, x: Node)
    ensures
        models_of(s.push(x)) == models_of(s).push(tree_model(x)),
{
    assert(s.push(x).drop_last() =~= s);
    assert(s.push(x).last() == x);
}

#[via_fn]
proof fn tree_model_decreases(n: Node) {
    broadcast use vstd::std_specs::vec::group_vec_axioms;

    match n {
        Node::Int(_) => {},
        Node::Expr { op, children } => {
            assert(decreases_to!(n => children));
            assert(decreases_to!(children => children@));
        },
    }
}

impl View for Node {
    type V = TreeModel;

    open spec fn view(&self) -> TreeModel {
        tree_model(*self)
    }
}

/// A value representable by the 32-bit signed leaves of the tree.
pub open spec fn bounded(v: int) -> bool {
    -0x8000_0000 <= v <= 0x7fff_ffff
}

/// Well-formedness of a tree: every operator node has at least two children
/// and every leaf is in 32-bit range.  The grammar can produce nothing else.
pub open spec fn wf_tree(t: TreeModel) -> bool
    decreases t,
{
    match t {
        TreeModel::Int(v) => bounded(v),
        TreeModel::Expr { op, children } => {
            &&& children.len() >= 2
            &&& forall|i: int| 0 <= i < children.len() ==> wf_tree(#[trigger] children[i])
        },
    }
}

/// Why an evaluation failed.
#[derive(Debug, PartialEq, Eq, Clone, Copy, Structural)]
pub enum EvalError {
    DivideByZero,
    Overflow,
}

/// Division truncating toward zero, as 32-bit machine division does.
pub open spec fn trunc_div(a: int, b: int) -> int {
    if (a < 0) == (b < 0) {
        (vstd::math::abs(a) / vstd::math::abs(b)) as int
    } else {
        -((vstd::math::abs(a) / vstd::math::abs(b)) as int)
    }
}

/// One fold step: apply `op` to the accumulator and the next operand, with
/// the error semantics of the evaluator (overflow detected, division by the
/// integer zero rejected).
pub open spec fn spec_apply(op: Operator, a: int, b: int) -> Result<int, EvalError> {
    match op {
        Operator::Add => if bounded(a + b) {
            Ok(a + b)
        } else {
            Err(EvalError::Overflow)
        },
        Operator::Subtract => if bounded(a - b) {
            Ok(a - b)
        } else {
            Err(EvalError::Overflow)
        },
        Operator::Multiply => if bounded(a * b) {
            Ok(a * b)
        } else {
            Err(EvalError::Overflow)
        },
        Operator::Divide => if b == 0 {
            Err(EvalError::DivideByZero)
        } else if bounded(trunc_div(a, b)) {
            Ok(trunc_div(a, b))
        } else {
            Err(EvalError::Overflow)
        },
    }
}

/// The meaning of a tree: leaves evaluate to their value; an operator node
/// evaluates its first child and then folds the remaining children left to
/// right with [`spec_apply`].  The first error aborts the fold.
pub open spec fn spec_eval(t: TreeModel) -> Result<int, EvalError>
    decreases t, 0int, 0int,
{
    match t {
        TreeModel::Int(v) => Ok(v),
        TreeModel::Expr { op, children } => if children.len() == 0 {
            Ok(0)
        } else {
            match spec_eval(children[0]) {
                Err(e) => Err(e),
                Ok(first) => spec_fold(op, first, children, 1),
            }
        },
    }
}

/// The left-to-right fold of `children[i..]` onto the accumulator `acc`.
pub open spec fn spec_fold(op: Operator, acc: int, children: Seq<TreeModel>, i: int) -> Result<
    int,
    EvalError,
>
    decreases children, children.len() - i, 1int,
{
    if i < 0 || i >= children.len() {
        Ok(acc)
    } else {
        match spec_eval(children[i]) {
            Err(e) => Err(e),
            Ok(v) => match spec_apply(op, acc, v) {
                Err(e) => Err(e),
                Ok(acc2) => spec_fold(op, acc2, children, i + 1),
            },
        }
    }
}

} // verus!
