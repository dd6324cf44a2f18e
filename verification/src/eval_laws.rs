//! Laws of expression evaluation under three-valued logic.
use vstd::prelude::*;
use crate::eval_spec::{
    Outcome, and_outcome, binary_outcome, compare_outcome, in_outcome, or_outcome, pairs_equal,
    unary_outcome, values_equal,
};
use crate::expr::{BinaryOperator, Expression, UnaryOperator};
use crate::eval_spec::{Lookup, eval_expr};
use crate::value::VModel;

verus! {

/// Equality is symmetric: `a == b` and `b == a` always agree.
pub proof fn lemma_values_equal_symmetric(a: VModel, b: VModel)
    ensures
        values_equal(a, b) == values_equal(b, a),
    decreases a, 0nat,
{
    match (a, b) {
        (VModel::List(xs), VModel::List(ys)) => {
            if xs.len() == ys.len() {
                lemma_pairs_equal_symmetric(xs, ys, xs.len());
            }
        },
        _ => {},
    }
}

/// Element-wise equality of two lists is symmetric.
pub proof fn lemma_pairs_equal_symmetric(xs: Seq<VModel>, ys: Seq<VModel>, k: nat)
    requires
        xs.len() == ys.len(),
    ensures
        pairs_equal(xs, ys, k) == pairs_equal(ys, xs, k),
    decreases xs, k,
{
    if k > 0 && k <= xs.len() {
        lemma_pairs_equal_symmetric(xs, ys, (k - 1) as nat);
        lemma_values_equal_symmetric(xs[k - 1], ys[k - 1]);
    }
}

/// `==` and `!=` always give opposite answers.
pub proof fn lemma_not_equal_is_negated_equal(l: VModel, r: VModel)
    ensures
        binary_outcome(BinaryOperator::Neq, l, r) == unary_outcome(
            UnaryOperator::Not,
            match binary_outcome(BinaryOperator::Eq, l, r) {
                Outcome::Val(v) => v,
                _ => VModel::Null,
            },
        ),
{
}

/// `x NOT IN list` is `NOT (x IN list)`: a known answer is negated and an
/// unknown (null) one stays unknown.
pub proof fn lemma_not_in_is_negated_in(l: VModel, r: VModel)
    ensures
        binary_outcome(BinaryOperator::NotIn, l, r) == unary_outcome(
            UnaryOperator::Not,
            in_outcome(l, r),
        ),
{
}

/// `NULL IN anything` is unknown.
pub proof fn lemma_null_in_is_unknown(r: VModel)
    ensures
        binary_outcome(BinaryOperator::In, VModel::Null, r) == Outcome::Val(VModel::Null),
{
}

/// A match makes `IN` true even when the list also holds nulls; without a
/// match, a null element makes the answer unknown, and otherwise it is false.
pub proof fn lemma_in_list(l: VModel, items: Seq<VModel>)
    requires
        !(l is Null),
    ensures
        (exists|i: int| 0 <= i < items.len() && #[trigger] values_equal(l, items[i]))
            ==> in_outcome(l, VModel::List(items)) == VModel::Bool(true),
        !(exists|i: int| 0 <= i < items.len() && #[trigger] values_equal(l, items[i]))
            && (exists|i: int| 0 <= i < items.len() && (#[trigger] items[i]) is Null)
            ==> in_outcome(l, VModel::List(items)) == VModel::Null,
        !(exists|i: int| 0 <= i < items.len() && #[trigger] values_equal(l, items[i]))
            && !(exists|i: int| 0 <= i < items.len() && (#[trigger] items[i]) is Null)
            ==> in_outcome(l, VModel::List(items)) == VModel::Bool(false),
{
}

/// Ordering comparisons with a null operand are unknown.
pub proof fn lemma_compare_with_null_is_unknown(op: BinaryOperator, l: VModel, r: VModel)
    requires
        op == BinaryOperator::Lt || op == BinaryOperator::Lte || op == BinaryOperator::Gt || op
            == BinaryOperator::Gte,
        l is Null || r is Null,
    ensures
        binary_outcome(op, l, r) == Outcome::Val(VModel::Null),
{
}

/// `AND` does not depend on the order of its operands.
pub proof fn lemma_and_commutative(l: VModel, r: VModel)
    ensures
        and_outcome(l, r) == and_outcome(r, l),
{
}

/// `OR` does not depend on the order of its operands.
pub proof fn lemma_or_commutative(l: VModel, r: VModel)
    ensures
        or_outcome(l, r) == or_outcome(r, l),
{
}


/// Law: comparing two integers gives the mathematical relation between
/// them, equality included: `a < b`, `a <= b`, `a > b`, `a >= b`, `a == b`
/// and `a != b` are true exactly when the relation holds.
pub proof fn lemma_integer_comparisons(left: Expression, right: Expression, lookup: Lookup, a: i64, b: i64)
    requires
        eval_expr(left, lookup) == Outcome::Val(VModel::Int(a)),
        eval_expr(right, lookup) == Outcome::Val(VModel::Int(b)),
    ensures
        eval_expr(Expression::BinaryOp { op: BinaryOperator::Lt, left: Box::new(left), right: Box::new(right) }, lookup)
            == Outcome::Val(VModel::Bool(a < b)),
        eval_expr(Expression::BinaryOp { op: BinaryOperator::Lte, left: Box::new(left), right: Box::new(right) }, lookup)
            == Outcome::Val(VModel::Bool(a <= b)),
        eval_expr(Expression::BinaryOp { op: BinaryOperator::Gt, left: Box::new(left), right: Box::new(right) }, lookup)
            == Outcome::Val(VModel::Bool(a > b)),
        eval_expr(Expression::BinaryOp { op: BinaryOperator::Gte, left: Box::new(left), right: Box::new(right) }, lookup)
            == Outcome::Val(VModel::Bool(a >= b)),
        eval_expr(Expression::BinaryOp { op: BinaryOperator::Eq, left: Box::new(left), right: Box::new(right) }, lookup)
            == Outcome::Val(VModel::Bool(a == b)),
        eval_expr(Expression::BinaryOp { op: BinaryOperator::Neq, left: Box::new(left), right: Box::new(right) }, lookup)
            == Outcome::Val(VModel::Bool(a != b)),
{
}

} // verus!
