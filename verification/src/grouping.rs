//! How a chain of binary operators is grouped: tighter operators first, and
//! operators of equal precedence from left to right.

use vstd::prelude::*;
use crate::ast::BinOpKind;
use crate::ast::Expr;
use crate::ast::Tree;

verus! {

/// The tree that results when `op rhs` is read after the chain `left`: the
/// new operator takes as its left operand the longest tail of the chain whose
/// operators all bind tighter than it does.
pub open spec fn attach(left: Tree, op: BinOpKind, rhs: Tree) -> Tree
    decreases left,
{
    match left {
        Tree::BinOp(k, l, r) => if op.spec_precedence() > k.spec_precedence() {
            Tree::BinOp(k, l, Box::new(attach(*r, op, rhs)))
        } else {
            Tree::BinOp(op, Box::new(left), Box::new(rhs))
        },
        _ => Tree::BinOp(op, Box::new(left), Box::new(rhs)),
    }
}

/// The precedence of the operator at the root, for a binary operation.
pub open spec fn root_precedence(t: Tree) -> int {
    match t {
        Tree::BinOp(k, l, r) => k.spec_precedence() as int,
        _ => 0,
    }
}

/// Whether every chain of binary operators in `t` is grouped as precedence
/// asks: under every operator, an operator to the right binds strictly
/// tighter, and one to the left binds at least as tightly.
pub open spec fn grouped(t: Tree) -> bool
    decreases t,
{
    match t {
        Tree::BinOp(k, l, r) => {
            &&& grouped(*l)
            &&& grouped(*r)
            &&& (*l is BinOp ==> root_precedence(*l) >= k.spec_precedence())
            &&& (*r is BinOp ==> root_precedence(*r) > k.spec_precedence())
        },
        Tree::Access(l, r) => grouped(*l) && grouped(*r),
        Tree::CodeBlock(v) => forall|i: int| 0 <= i < v.len() ==> grouped(#[trigger] v[i]),
        Tree::Closure(name, params, ret) => grouped(*ret),
        Tree::If(c, t, e) => {
            &&& grouped(*c)
            &&& grouped(*t)
            &&& match e {
                Some(b) => grouped(*b),
                None => true,
            }
        },
        Tree::Call(f, args) => {
            &&& grouped(*f)
            &&& forall|i: int| 0 <= i < args.len() ==> grouped(#[trigger] args[i])
        },
        Tree::List(v) => forall|i: int| 0 <= i < v.len() ==> grouped(#[trigger] v[i]),
        Tree::VarDef(name, is_mut, init) => match init {
            Some(b) => grouped(*b),
            None => true,
        },
        _ => true,
    }
}

/// Whether every tree of `v` is grouped.
pub open spec fn all_grouped(v: Seq<Tree>) -> bool {
    forall|i: int| 0 <= i < v.len() ==> grouped(#[trigger] v[i])
}

/// The operands of the chain at the root of `t`, from left to right.
pub open spec fn operands(t: Tree) -> Seq<Tree>
    decreases t,
{
    match t {
        Tree::BinOp(k, l, r) => operands(*l) + operands(*r),
        _ => seq![t],
    }
}

/// The operators of the chain at the root of `t`, from left to right.
pub open spec fn operators(t: Tree) -> Seq<BinOpKind>
    decreases t,
{
    match t {
        Tree::BinOp(k, l, r) => operators(*l) + seq![k] + operators(*r),
        _ => Seq::empty(),
    }
}

/// Attaching an operator and an operand to a well-grouped chain gives a
/// well-grouped chain, whose root binds no tighter than the new operator.
pub proof fn lemma_attach_grouped(left: Tree, op: BinOpKind, rhs: Tree)
    requires
        grouped(left),
        grouped(rhs),
        !(rhs is BinOp),
    ensures
        grouped(attach(left, op, rhs)),
        attach(left, op, rhs) is BinOp,
        root_precedence(attach(left, op, rhs)) <= op.spec_precedence(),
        root_precedence(attach(left, op, rhs)) == op.spec_precedence() || (left is BinOp
            && root_precedence(attach(left, op, rhs)) == root_precedence(left)),
    decreases left,
{
    let out = attach(left, op, rhs);
    match left {
        Tree::BinOp(k, l, r) => {
            if op.spec_precedence() > k.spec_precedence() {
                lemma_attach_grouped(*r, op, rhs);
                let inner = attach(*r, op, rhs);
                assert(out == Tree::BinOp(k, l, Box::new(inner)));
                assert(root_precedence(inner) > k.spec_precedence());
                assert(grouped(out));
            } else {
                assert(out == Tree::BinOp(op, Box::new(left), Box::new(rhs)));
                assert(grouped(out));
            }
        },
        _ => {
            assert(out == Tree::BinOp(op, Box::new(left), Box::new(rhs)));
            assert(grouped(out));
        },
    }
}

/// Attaching keeps the source order: the operand and the operator come last.
pub proof fn lemma_attach_order(left: Tree, op: BinOpKind, rhs: Tree)
    requires
        !(rhs is BinOp),
    ensures
        operands(attach(left, op, rhs)) == operands(left).push(rhs),
        operators(attach(left, op, rhs)) == operators(left).push(op),
    decreases left,
{
    let out = attach(left, op, rhs);
    assert(operands(rhs) == seq![rhs]);
    assert(operators(rhs) == Seq::<BinOpKind>::empty());
    match left {
        Tree::BinOp(k, l, r) => {
            if op.spec_precedence() > k.spec_precedence() {
                lemma_attach_order(*r, op, rhs);
                let inner = attach(*r, op, rhs);
                assert(out == Tree::BinOp(k, l, Box::new(inner)));
                assert(operands(out) == operands(*l) + operands(inner));
                assert(operators(out) == operators(*l) + seq![k] + operators(inner));
                assert(operands(*l) + operands(*r).push(rhs) =~= (operands(*l) + operands(
                    *r,
                )).push(rhs));
                assert(operators(*l) + seq![k] + operators(*r).push(op) =~= (operators(*l)
                    + seq![k] + operators(*r)).push(op));
            } else {
                assert(out == Tree::BinOp(op, Box::new(left), Box::new(rhs)));
                assert(operands(out) == operands(left) + operands(rhs));
                assert(operators(out) == operators(left) + seq![op] + operators(rhs));
                assert(operands(left) + seq![rhs] =~= operands(left).push(rhs));
                assert(operators(left) + seq![op] + Seq::<BinOpKind>::empty() =~= operators(
                    left,
                ).push(op));
            }
        },
        _ => {
            assert(out == Tree::BinOp(op, Box::new(left), Box::new(rhs)));
            assert(operands(out) == operands(left) + operands(rhs));
            assert(operators(out) == operators(left) + seq![op] + operators(rhs));
            assert(operands(left) == seq![left]);
            assert(operators(left) == Seq::<BinOpKind>::empty());
            assert(seq![left] + seq![rhs] =~= seq![left].push(rhs));
            assert(Seq::<BinOpKind>::empty() + seq![op] + Seq::<BinOpKind>::empty()
                =~= Seq::<BinOpKind>::empty().push(op));
        },
    }
}

/// Reads `op right` after the chain `left` and returns the regrouped chain.
pub fn attach_operand(left: Expr, op: BinOpKind, right: Expr) -> (r: Expr)
    ensures
        r@ == attach(left@, op, right@),
    decreases left,
{
    match left {
        Expr::BinOp(k, l, r) => {
            if op.precedence() > k.precedence() {
                Expr::BinOp(k, l, Box::new(attach_operand(*r, op, right)))
            } else {
                Expr::BinOp(op, Box::new(Expr::BinOp(k, l, r)), Box::new(right))
            }
        },
        other => Expr::BinOp(op, Box::new(other), Box::new(right)),
    }
}

} // verus!
