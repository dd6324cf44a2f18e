//! The meaning of expression evaluation, stated over value models.
use vstd::prelude::*;
use crate::error::ErrorKind;
use crate::expr::{BinaryOperator, Expression, Literal, UnaryOperator, dotted};
use crate::text::{
    Order, lex_order, lowercase_of, regex_match_result, seq_contains, seq_ends_with,
    seq_starts_with, uppercase_of, utf8_len,
};
use crate::value::VModel;

verus! {

/// What evaluating an expression does: yields a value, fails with an error of
/// the given kind, or overflows 64-bit integer arithmetic (where the
/// computation panics).
pub enum Outcome {
    Val(VModel),
    Fail(ErrorKind),
    Overflow,
}

/// What evaluating a sequence of expressions, left to right, does.
pub enum ListOutcome {
    Vals(Seq<VModel>),
    Fail(ErrorKind),
    Overflow,
}

/// What evaluating the entries of a map literal, in order, does.
pub enum DictOutcome {
    Vals(Seq<(Seq<char>, VModel)>),
    Fail(ErrorKind),
    Overflow,
}

pub open spec fn literal_model(l: Literal) -> VModel {
    match l {
        Literal::Bool(b) => VModel::Bool(b),
        Literal::Int(i) => VModel::Int(i),
        Literal::String(s) => VModel::Str(s@),
        Literal::Null => VModel::Null,
    }
}

/// Equality used by `==`, `!=` and `IN`: null equals only null, lists compare
/// element-wise, maps never compare equal.
pub open spec fn values_equal(l: VModel, r: VModel) -> bool
    decreases l, 0nat,
{
    match l {
        VModel::Null => r is Null,
        VModel::Int(a) => r matches VModel::Int(b) && a == b,
        VModel::Str(a) => r matches VModel::Str(b) && a == b,
        VModel::Bool(a) => r matches VModel::Bool(b) && a == b,
        VModel::List(a) => match r {
            VModel::List(b) => a.len() == b.len() && pairs_equal(a, b, a.len()),
            _ => false,
        },
        VModel::Dict(_) => false,
    }
}

/// The first `k` elements of `a` and `b` are pairwise equal.
pub open spec fn pairs_equal(a: Seq<VModel>, b: Seq<VModel>, k: nat) -> bool
    decreases a, k,
{
    if k == 0 || k > a.len() || k > b.len() {
        k == 0
    } else {
        pairs_equal(a, b, (k - 1) as nat) && values_equal(a[k - 1], b[k - 1])
    }
}

/// `left IN right` under three-valued logic.
pub open spec fn in_outcome(l: VModel, r: VModel) -> VModel {
    if l is Null {
        VModel::Null
    } else {
        match r {
            VModel::List(items) => if exists|i: int|
                0 <= i < items.len() && #[trigger] values_equal(l, items[i]) {
                VModel::Bool(true)
            } else if exists|i: int| 0 <= i < items.len() && (#[trigger] items[i]) is Null {
                VModel::Null
            } else {
                VModel::Bool(false)
            },
            _ => VModel::Bool(false),
        }
    }
}

pub open spec fn int_order(a: i64, b: i64) -> Order {
    if a < b {
        Order::Less
    } else if a == b {
        Order::Equal
    } else {
        Order::Greater
    }
}

/// Whether order `o` satisfies the comparison operator `op`.
pub open spec fn order_satisfies(op: BinaryOperator, o: Order) -> bool {
    match op {
        BinaryOperator::Lt => o == Order::Less,
        BinaryOperator::Lte => o != Order::Greater,
        BinaryOperator::Gt => o == Order::Greater,
        _ => o != Order::Less,
    }
}

pub open spec fn compare_outcome(op: BinaryOperator, l: VModel, r: VModel) -> Outcome {
    if l is Null || r is Null {
        Outcome::Val(VModel::Null)
    } else {
        match (l, r) {
            (VModel::Int(a), VModel::Int(b)) => Outcome::Val(
                VModel::Bool(order_satisfies(op, int_order(a, b))),
            ),
            (VModel::Str(a), VModel::Str(b)) => Outcome::Val(
                VModel::Bool(order_satisfies(op, lex_order(a, b))),
            ),
            _ => Outcome::Fail(ErrorKind::TypeMismatch),
        }
    }
}

pub open spec fn int_result(r: Option<i64>) -> Outcome {
    match r {
        Some(c) => Outcome::Val(VModel::Int(c)),
        None => Outcome::Overflow,
    }
}

/// Null wins over a type mismatch in arithmetic.
pub open spec fn null_or_mismatch(l: VModel, r: VModel) -> Outcome {
    if l is Null || r is Null {
        Outcome::Val(VModel::Null)
    } else {
        Outcome::Fail(ErrorKind::TypeMismatch)
    }
}

pub open spec fn arith_outcome(op: BinaryOperator, l: VModel, r: VModel) -> Outcome {
    match op {
        BinaryOperator::Add => match (l, r) {
            (VModel::Int(a), VModel::Int(b)) => int_result(a.checked_add(b)),
            (VModel::Str(a), VModel::Str(b)) => Outcome::Val(VModel::Str(a + b)),
            _ => null_or_mismatch(l, r),
        },
        BinaryOperator::Sub => match (l, r) {
            (VModel::Int(a), VModel::Int(b)) => int_result(a.checked_sub(b)),
            _ => null_or_mismatch(l, r),
        },
        BinaryOperator::Mul => match (l, r) {
            (VModel::Int(a), VModel::Int(b)) => int_result(a.checked_mul(b)),
            _ => null_or_mismatch(l, r),
        },
        BinaryOperator::Div => if r == VModel::Int(0) {
            Outcome::Fail(ErrorKind::InvalidOperation)
        } else {
            match (l, r) {
                (VModel::Int(a), VModel::Int(b)) => int_result(a.checked_div(b)),
                _ => null_or_mismatch(l, r),
            }
        },
        _ => if r == VModel::Int(0) {
            Outcome::Fail(ErrorKind::InvalidOperation)
        } else {
            match (l, r) {
                (VModel::Int(a), VModel::Int(b)) => int_result(a.checked_rem(b)),
                _ => null_or_mismatch(l, r),
            }
        },
    }
}

pub open spec fn and_outcome(l: VModel, r: VModel) -> Outcome {
    if l == VModel::Bool(false) || r == VModel::Bool(false) {
        Outcome::Val(VModel::Bool(false))
    } else if l == VModel::Bool(true) && r == VModel::Bool(true) {
        Outcome::Val(VModel::Bool(true))
    } else if (l is Null || l == VModel::Bool(true)) && (r is Null || r == VModel::Bool(true)) {
        Outcome::Val(VModel::Null)
    } else {
        Outcome::Fail(ErrorKind::TypeMismatch)
    }
}

pub open spec fn or_outcome(l: VModel, r: VModel) -> Outcome {
    if l == VModel::Bool(true) || r == VModel::Bool(true) {
        Outcome::Val(VModel::Bool(true))
    } else if l == VModel::Bool(false) && r == VModel::Bool(false) {
        Outcome::Val(VModel::Bool(false))
    } else if (l is Null || l == VModel::Bool(false)) && (r is Null || r == VModel::Bool(false)) {
        Outcome::Val(VModel::Null)
    } else {
        Outcome::Fail(ErrorKind::TypeMismatch)
    }
}

/// A string test on two operands: nulls give null, other mismatches give `other`.
pub open spec fn string_test(l: VModel, r: VModel, holds: bool, other: bool) -> VModel {
    if l is Str && r is Str {
        VModel::Bool(holds)
    } else if l is Null || r is Null {
        VModel::Null
    } else {
        VModel::Bool(other)
    }
}

pub open spec fn str_of(v: VModel) -> Seq<char> {
    match v {
        VModel::Str(s) => s,
        _ => Seq::empty(),
    }
}

pub open spec fn regex_holds(pattern: Seq<char>, text: Seq<char>) -> bool {
    regex_match_result(pattern, text) == Some(true)
}

pub open spec fn binary_outcome(op: BinaryOperator, l: VModel, r: VModel) -> Outcome {
    match op {
        BinaryOperator::Add | BinaryOperator::Sub | BinaryOperator::Mul | BinaryOperator::Div
        | BinaryOperator::Mod => arith_outcome(op, l, r),
        BinaryOperator::Eq => Outcome::Val(VModel::Bool(values_equal(l, r))),
        BinaryOperator::Neq => Outcome::Val(VModel::Bool(!values_equal(l, r))),
        BinaryOperator::Lt | BinaryOperator::Lte | BinaryOperator::Gt | BinaryOperator::Gte =>
            compare_outcome(op, l, r),
        BinaryOperator::And => and_outcome(l, r),
        BinaryOperator::Or => or_outcome(l, r),
        BinaryOperator::Contains => Outcome::Val(
            string_test(l, r, seq_contains(str_of(l), str_of(r)), false),
        ),
        BinaryOperator::NotContains => Outcome::Val(
            string_test(l, r, !seq_contains(str_of(l), str_of(r)), true),
        ),
        BinaryOperator::In => Outcome::Val(in_outcome(l, r)),
        BinaryOperator::NotIn => Outcome::Val(
            match in_outcome(l, r) {
                VModel::Bool(b) => VModel::Bool(!b),
                other => other,
            },
        ),
        BinaryOperator::StartsWith => Outcome::Val(
            string_test(l, r, seq_starts_with(str_of(l), str_of(r)), false),
        ),
        BinaryOperator::EndsWith => Outcome::Val(
            string_test(l, r, seq_ends_with(str_of(l), str_of(r)), false),
        ),
        BinaryOperator::Regex => Outcome::Val(
            string_test(l, r, regex_holds(str_of(r), str_of(l)), false),
        ),
    }
}

pub open spec fn unary_outcome(op: UnaryOperator, v: VModel) -> Outcome {
    match op {
        UnaryOperator::Not => match v {
            VModel::Bool(b) => Outcome::Val(VModel::Bool(!b)),
            VModel::Null => Outcome::Val(VModel::Null),
            _ => Outcome::Fail(ErrorKind::TypeMismatch),
        },
        UnaryOperator::Neg => match v {
            VModel::Int(i) => if i == i64::MIN {
                Outcome::Overflow
            } else {
                Outcome::Val(VModel::Int(-i as i64))
            },
            VModel::Null => Outcome::Val(VModel::Null),
            _ => Outcome::Fail(ErrorKind::TypeMismatch),
        },
    }
}

pub open spec fn arg(args: Seq<VModel>, i: int) -> Option<VModel> {
    if 0 <= i < args.len() {
        Some(args[i])
    } else {
        None
    }
}

/// A two-string-argument function: nulls give null, anything else is an error.
pub open spec fn string_fn(args: Seq<VModel>, holds: bool) -> Outcome {
    match (arg(args, 0), arg(args, 1)) {
        (Some(VModel::Str(_)), Some(VModel::Str(_))) => Outcome::Val(VModel::Bool(holds)),
        (Some(VModel::Null), _) => Outcome::Val(VModel::Null),
        (_, Some(VModel::Null)) => Outcome::Val(VModel::Null),
        _ => Outcome::Fail(ErrorKind::InvalidOperation),
    }
}

/// The first non-null argument, or null.
pub open spec fn coalesce(args: Seq<VModel>) -> VModel
    decreases args.len(),
{
    if args.len() == 0 {
        VModel::Null
    } else if !(args[0] is Null) {
        args[0]
    } else {
        coalesce(args.drop_first())
    }
}

/// Whether `u` (an upper-cased name) is one the scalar dispatcher accepts.
pub open spec fn is_scalar_name(u: Seq<char>) -> bool {
    ||| u == "LOWER"@ ||| u == "TOLOWER"@ ||| u == "UPPER"@ ||| u == "TOUPPER"@
    ||| u == "LENGTH"@ ||| u == "SIZE"@ ||| u == "CONTAINS"@ ||| u == "STARTS_WITH"@
    ||| u == "STARTSWITH"@ ||| u == "ENDS_WITH"@ ||| u == "ENDSWITH"@ ||| u == "ABS"@
    ||| u == "FLOOR"@ ||| u == "CEIL"@ ||| u == "ROUND"@ ||| u == "IS_NULL"@
    ||| u == "ISNULL"@ ||| u == "IS_NOT_NULL"@ ||| u == "ISNOTNULL"@ ||| u == "COALESCE"@
}

pub open spec fn case_outcome(args: Seq<VModel>, lower: bool) -> Outcome {
    match arg(args, 0) {
        Some(VModel::Str(s)) => Outcome::Val(
            VModel::Str(if lower { lowercase_of(s) } else { uppercase_of(s) }),
        ),
        Some(VModel::Null) => Outcome::Val(VModel::Null),
        _ => Outcome::Fail(ErrorKind::InvalidOperation),
    }
}

pub open spec fn length_outcome(args: Seq<VModel>) -> Outcome {
    match arg(args, 0) {
        Some(VModel::Str(s)) => Outcome::Val(VModel::Int((utf8_len(s) as usize) as i64)),
        Some(VModel::List(l)) => Outcome::Val(VModel::Int(l.len() as i64)),
        Some(VModel::Null) => Outcome::Val(VModel::Null),
        _ => Outcome::Fail(ErrorKind::InvalidOperation),
    }
}

/// Contains (`kind` 0), starts-with (2) or ends-with (3) on the first two arguments.
pub open spec fn string_pair_outcome(args: Seq<VModel>, kind: u8) -> Outcome {
    let s = str_of(arg(args, 0).unwrap_or(VModel::Null));
    let t = str_of(arg(args, 1).unwrap_or(VModel::Null));
    string_fn(
        args,
        if kind == 0 {
            seq_contains(s, t)
        } else if kind == 2 {
            seq_starts_with(s, t)
        } else {
            seq_ends_with(s, t)
        },
    )
}

pub open spec fn abs_outcome(args: Seq<VModel>) -> Outcome {
    match arg(args, 0) {
        Some(VModel::Int(i)) => if i == i64::MIN {
            Outcome::Overflow
        } else {
            Outcome::Val(VModel::Int(if i < 0 { -i as i64 } else { i }))
        },
        Some(VModel::Null) => Outcome::Val(VModel::Null),
        _ => Outcome::Fail(ErrorKind::InvalidOperation),
    }
}

/// FLOOR, CEIL and ROUND: integers are returned unchanged.
pub open spec fn rounding_outcome(args: Seq<VModel>) -> Outcome {
    match arg(args, 0) {
        Some(VModel::Int(i)) => Outcome::Val(VModel::Int(i)),
        Some(VModel::Null) => Outcome::Val(VModel::Null),
        _ => Outcome::Fail(ErrorKind::InvalidOperation),
    }
}

pub open spec fn null_test_outcome(args: Seq<VModel>, want_null: bool) -> Outcome {
    match arg(args, 0) {
        Some(v) => Outcome::Val(VModel::Bool(if want_null { v is Null } else { !(v is Null) })),
        None => Outcome::Fail(ErrorKind::InvalidOperation),
    }
}

/// What a scalar function does, given its upper-cased name and argument values.
pub open spec fn scalar_outcome(u: Seq<char>, args: Seq<VModel>) -> Outcome {
    if u == "LOWER"@ || u == "TOLOWER"@ {
        case_outcome(args, true)
    } else if u == "UPPER"@ || u == "TOUPPER"@ {
        case_outcome(args, false)
    } else if u == "LENGTH"@ || u == "SIZE"@ {
        length_outcome(args)
    } else if u == "CONTAINS"@ {
        string_pair_outcome(args, 0)
    } else if u == "STARTS_WITH"@ || u == "STARTSWITH"@ {
        string_pair_outcome(args, 2)
    } else if u == "ENDS_WITH"@ || u == "ENDSWITH"@ {
        string_pair_outcome(args, 3)
    } else if u == "ABS"@ {
        abs_outcome(args)
    } else if u == "FLOOR"@ || u == "CEIL"@ || u == "ROUND"@ {
        rounding_outcome(args)
    } else if u == "IS_NULL"@ || u == "ISNULL"@ {
        null_test_outcome(args, true)
    } else if u == "IS_NOT_NULL"@ || u == "ISNOTNULL"@ {
        null_test_outcome(args, false)
    } else if u == "COALESCE"@ {
        Outcome::Val(coalesce(args))
    } else {
        Outcome::Fail(ErrorKind::InvalidOperation)
    }
}

/// How property paths resolve during an evaluation.
pub type Lookup = spec_fn(Seq<char>) -> Option<VModel>;

/// Resolution with nothing bound.
pub open spec fn no_bindings() -> Lookup {
    |p: Seq<char>| None
}

/// Whether the class list bound to `__isa__` holds the class named `t`.
pub open spec fn isa_member(lookup: Lookup, t: Seq<char>) -> bool {
    match lookup("__isa__"@) {
        Some(VModel::List(l)) => exists|i: int| 0 <= i < l.len() && l[i] == VModel::Str(t),
        _ => false,
    }
}

pub open spec fn function_outcome(name: Seq<char>, args: Seq<VModel>, lookup: Lookup) -> Outcome {
    let u = uppercase_of(name);
    if u == "IS_A"@ || u == "ISA"@ {
        match arg(args, 0) {
            Some(VModel::Str(t)) => Outcome::Val(VModel::Bool(isa_member(lookup, t))),
            Some(VModel::Null) => Outcome::Val(VModel::Null),
            _ => Outcome::Fail(ErrorKind::InvalidOperation),
        }
    } else {
        scalar_outcome(u, args)
    }
}

/// Insert-or-replace of `k` in an association list, keeping positions.
pub open spec fn dict_insert(d: Seq<(Seq<char>, VModel)>, k: Seq<char>, v: VModel) -> Seq<
    (Seq<char>, VModel),
>
    decreases d.len(),
{
    if d.len() == 0 {
        seq![(k, v)]
    } else if d[0].0 == k {
        d.update(0, (k, v))
    } else {
        seq![d[0]] + dict_insert(d.drop_first(), k, v)
    }
}

pub open spec fn eval_expr(e: Expression, lookup: Lookup) -> Outcome
    decreases e,
{
    match e {
        Expression::Literal(l) => Outcome::Val(literal_model(l)),
        Expression::Identifier(name) => match lookup(name@) {
            Some(v) => Outcome::Val(v),
            None => Outcome::Fail(ErrorKind::TypeMismatch),
        },
        Expression::BinaryOp { op, left, right } => match eval_expr(*left, lookup) {
            Outcome::Val(l) => match eval_expr(*right, lookup) {
                Outcome::Val(r) => binary_outcome(op, l, r),
                other => other,
            },
            other => other,
        },
        Expression::UnaryOp { op, operand } => match eval_expr(*operand, lookup) {
            Outcome::Val(v) => unary_outcome(op, v),
            other => other,
        },
        Expression::FunctionCall { name, args } => match eval_list(args@, lookup) {
            ListOutcome::Vals(vs) => function_outcome(name@, vs, lookup),
            ListOutcome::Fail(k) => Outcome::Fail(k),
            ListOutcome::Overflow => Outcome::Overflow,
        },
        Expression::List(items) => match eval_list(items@, lookup) {
            ListOutcome::Vals(vs) => Outcome::Val(VModel::List(vs)),
            ListOutcome::Fail(k) => Outcome::Fail(k),
            ListOutcome::Overflow => Outcome::Overflow,
        },
        Expression::Dict(entries) => match eval_dict(entries@, lookup) {
            DictOutcome::Vals(d) => Outcome::Val(VModel::Dict(d)),
            DictOutcome::Fail(k) => Outcome::Fail(k),
            DictOutcome::Overflow => Outcome::Overflow,
        },
        Expression::PropRef { object, prop } => match lookup(dotted(object@, prop@)) {
            Some(v) => Outcome::Val(v),
            None => match lookup(prop@) {
                Some(v) => Outcome::Val(v),
                None => Outcome::Fail(ErrorKind::TypeMismatch),
            },
        },
        Expression::DstVertexProp { .. } => Outcome::Fail(ErrorKind::InvalidOperation),
    }
}

pub open spec fn eval_list(items: Seq<Expression>, lookup: Lookup) -> ListOutcome
    decreases items,
{
    if items.len() == 0 {
        ListOutcome::Vals(Seq::empty())
    } else {
        match eval_list(items.drop_last(), lookup) {
            ListOutcome::Vals(vs) => match eval_expr(items.last(), lookup) {
                Outcome::Val(v) => ListOutcome::Vals(vs.push(v)),
                Outcome::Fail(k) => ListOutcome::Fail(k),
                Outcome::Overflow => ListOutcome::Overflow,
            },
            other => other,
        }
    }
}

pub open spec fn eval_dict(entries: Seq<(String, Expression)>, lookup: Lookup) -> DictOutcome
    decreases entries,
{
    if entries.len() == 0 {
        DictOutcome::Vals(Seq::empty())
    } else {
        match eval_dict(entries.drop_last(), lookup) {
            DictOutcome::Vals(d) => match eval_expr(entries.last().1, lookup) {
                Outcome::Val(v) => DictOutcome::Vals(dict_insert(d, entries.last().0@, v)),
                Outcome::Fail(k) => DictOutcome::Fail(k),
                Outcome::Overflow => DictOutcome::Overflow,
            },
            other => other,
        }
    }
}

/// What evaluating a WHERE condition does: true/false, or an error kind;
/// `None` when evaluation overflows.
pub open spec fn condition_outcome(e: Expression, lookup: Lookup) -> Option<Result<bool, ErrorKind>> {
    match eval_expr(e, lookup) {
        Outcome::Val(VModel::Bool(b)) => Some(Ok(b)),
        Outcome::Val(VModel::Null) => Some(Ok(false)),
        Outcome::Val(_) => Some(Err(ErrorKind::TypeMismatch)),
        Outcome::Fail(k) => Some(Err(k)),
        Outcome::Overflow => None,
    }
}

} // verus!
