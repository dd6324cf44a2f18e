//! Expression evaluation for WHERE clauses and projections.
use vstd::prelude::*;
use vstd::string::*;
use crate::error::{ErrorKind, ExecutionError};
use crate::eval_spec::{
    Outcome, ListOutcome, DictOutcome, values_equal, in_outcome, int_order, order_satisfies,
    compare_outcome, int_result, null_or_mismatch, arith_outcome, and_outcome, or_outcome,
    string_test, str_of, regex_holds, binary_outcome, unary_outcome, scalar_outcome,
    function_outcome, eval_expr, eval_list, eval_dict, dict_insert, is_scalar_name, coalesce,
    literal_model, condition_outcome, arg, string_fn, isa_member, pairs_equal, Lookup,
    no_bindings, case_outcome, length_outcome, string_pair_outcome, abs_outcome,
    rounding_outcome, null_test_outcome,
};
use crate::expr::{
    BinaryOperator, EvalContext, Expression, Literal, UnaryOperator, spec_get_property,
    find_variable, find_in_variables, get_qualified,
};
use crate::text::{
    Order, chars_of, contains, ends_with, order_chars, regex_match, starts_with, to_lowercase,
    to_uppercase, byte_len, uppercase_of,
};
use crate::value::{
    VModel, Value, list_model, entries_model, value_model, lemma_list_model_len,
    lemma_list_model_index, lemma_list_model_push, lemma_entries_model_push,
};

verus! {

/// The result of evaluating with integer overflow reported rather than
/// treated as a panic.
pub enum Evaluated {
    Value(Value),
    Error(ExecutionError),
    Overflow,
}

pub open spec fn evaluated_matches(r: Evaluated, o: Outcome) -> bool {
    match (r, o) {
        (Evaluated::Value(v), Outcome::Val(m)) => value_model(v) == m,
        (Evaluated::Error(e), Outcome::Fail(k)) => e.spec_kind() == k,
        (Evaluated::Overflow, Outcome::Overflow) => true,
        _ => false,
    }
}

pub open spec fn result_matches(r: Result<Value, ExecutionError>, o: Outcome) -> bool {
    match (r, o) {
        (Ok(v), Outcome::Val(m)) => value_model(v) == m,
        (Err(e), Outcome::Fail(k)) => e.spec_kind() == k,
        _ => false,
    }
}

fn type_mismatch(msg: &str) -> (e: ExecutionError)
    ensures
        e.spec_kind() == ErrorKind::TypeMismatch,
        e.spec_detail() == msg@,
{
    ExecutionError::TypeMismatch(String::from_str(msg))
}

fn invalid_operation(msg: &str) -> (e: ExecutionError)
    ensures
        e.spec_kind() == ErrorKind::InvalidOperation,
        e.spec_detail() == msg@,
{
    ExecutionError::InvalidOperation(String::from_str(msg))
}

/// Equality of two values as `==` evaluates it.
pub fn values_equal_exec(l: &Value, r: &Value) -> (eq: bool)
    ensures
        eq == values_equal(value_model(*l), value_model(*r)),
    decreases l,
{
    match l {
        Value::Null => {
            let b = r.is_null();
            assert(value_model(*l) == VModel::Null);
            b
        },
        Value::Int(a) => match r {
            Value::Int(b) => *a == *b,
            _ => false,
        },
        Value::String(a) => match r {
            Value::String(b) => *a == *b,
            _ => false,
        },
        Value::Bool(a) => match r {
            Value::Bool(b) => *a == *b,
            _ => false,
        },
        Value::List(a) => match r {
            Value::List(b) => {
                proof {
                    lemma_list_model_len(a@);
                    lemma_list_model_len(b@);
                }
                if a.len() != b.len() {
                    return false;
                }
                let mut i: usize = 0;
                while i < a.len()
                    invariant
                        *l == Value::List(*a),
                        *r == Value::List(*b),
                        a.len() == b.len(),
                        i <= a.len(),
                        list_model(a@).len() == a.len(),
                        list_model(b@).len() == b.len(),
                        pairs_equal(list_model(a@), list_model(b@), i as nat),
                    decreases a.len() - i,
                {
                    proof {
                        lemma_list_model_index(a@, i as int);
                        lemma_list_model_index(b@, i as int);
                        assert(decreases_to!(*l => l->List_0));
                        assert(decreases_to!(l->List_0 => l->List_0@));
                        assert(decreases_to!(l->List_0@ => a@[i as int]));
                    }
                    if !values_equal_exec(&a[i], &b[i]) {
                        proof {
                            assert(!pairs_equal(list_model(a@), list_model(b@), (i + 1) as nat));
                            if pairs_equal(list_model(a@), list_model(b@), a.len() as nat) {
                                lemma_pairs_equal_prefix(
                                    list_model(a@),
                                    list_model(b@),
                                    (i + 1) as nat,
                                    a.len() as nat,
                                );
                            }
                        }
                        assert(value_model(*l) == VModel::List(list_model(a@)));
                        assert(value_model(*r) == VModel::List(list_model(b@)));
                        return false;
                    }
                    i = i + 1;
                }
                assert(value_model(*l) == VModel::List(list_model(a@)));
                assert(value_model(*r) == VModel::List(list_model(b@)));
                true
            },
            _ => false,
        },
        Value::Dict(_) => false,
    }
}

proof fn lemma_pairs_equal_prefix(a: Seq<VModel>, b: Seq<VModel>, k: nat, n: nat)
    requires
        k <= n <= a.len(),
        n <= b.len(),
        pairs_equal(a, b, n),
    ensures
        pairs_equal(a, b, k),
    decreases n - k,
{
    if k < n {
        lemma_pairs_equal_prefix(a, b, (k + 1) as nat, n);
    }
}

/// `left IN right` under three-valued logic.
fn eval_in(l: &Value, r: &Value) -> (v: Value)
    ensures
        value_model(v) == in_outcome(value_model(*l), value_model(*r)),
{
    if l.is_null() {
        return Value::Null;
    }
    match r {
        Value::List(items) => {
            proof {
                lemma_list_model_len(items@);
            }
            let ghost lm = list_model(items@);
            let mut saw_null = false;
            let mut i: usize = 0;
            while i < items.len()
                invariant
                    i <= items.len(),
                    *r == Value::List(*items),
                    !(value_model(*l) is Null),
                    lm == list_model(items@),
                    lm.len() == items.len(),
                    forall|j: int| 0 <= j < i ==> !(#[trigger] values_equal(value_model(*l), lm[j])),
                    saw_null == exists|j: int| 0 <= j < i && (#[trigger] lm[j]) is Null,
                decreases items.len() - i,
            {
                proof {
                    lemma_list_model_index(items@, i as int);
                }
                if values_equal_exec(l, &items[i]) {
                    assert(values_equal(value_model(*l), lm[i as int]));
                    return Value::Bool(true);
                }
                if items[i].is_null() {
                    saw_null = true;
                }
                i = i + 1;
            }
            if saw_null {
                Value::Null
            } else {
                Value::Bool(false)
            }
        },
        _ => Value::Bool(false),
    }
}

fn order_from_ints(a: i64, b: i64) -> (o: Order)
    ensures
        o == int_order(a, b),
{
    if a < b {
        Order::Less
    } else if a == b {
        Order::Equal
    } else {
        Order::Greater
    }
}

fn satisfies(op: BinaryOperator, o: Order) -> (b: bool)
    ensures
        b == order_satisfies(op, o),
{
    match op {
        BinaryOperator::Lt => o == Order::Less,
        BinaryOperator::Lte => o != Order::Greater,
        BinaryOperator::Gt => o == Order::Greater,
        _ => o != Order::Less,
    }
}

fn eval_compare(op: BinaryOperator, l: &Value, r: &Value) -> (res: Evaluated)
    ensures
        evaluated_matches(res, compare_outcome(op, value_model(*l), value_model(*r))),
{
    if l.is_null() || r.is_null() {
        return Evaluated::Value(Value::Null);
    }
    match (l, r) {
        (Value::Int(a), Value::Int(b)) => Evaluated::Value(
            Value::Bool(satisfies(op, order_from_ints(*a, *b))),
        ),
        (Value::String(a), Value::String(b)) => {
            let ac = chars_of(a.as_str());
            let bc = chars_of(b.as_str());
            Evaluated::Value(Value::Bool(satisfies(op, order_chars(&ac, &bc))))
        },
        _ => Evaluated::Error(type_mismatch("Cannot compare values of these types")),
    }
}

fn int_outcome(r: Option<i64>) -> (res: Evaluated)
    ensures
        evaluated_matches(res, int_result(r)),
{
    match r {
        Some(c) => Evaluated::Value(Value::Int(c)),
        None => Evaluated::Overflow,
    }
}

fn null_or_type_mismatch(l: &Value, r: &Value, msg: &str) -> (res: Evaluated)
    ensures
        evaluated_matches(res, null_or_mismatch(value_model(*l), value_model(*r))),
{
    if l.is_null() || r.is_null() {
        Evaluated::Value(Value::Null)
    } else {
        Evaluated::Error(type_mismatch(msg))
    }
}

fn is_int_zero(v: &Value) -> (b: bool)
    ensures
        b == (value_model(*v) == VModel::Int(0)),
{
    match v {
        Value::Int(i) => *i == 0,
        _ => false,
    }
}

fn eval_arith(op: BinaryOperator, l: Value, r: Value) -> (res: Evaluated)
    requires
        op is Add || op is Sub || op is Mul || op is Div || op is Mod,
    ensures
        evaluated_matches(res, arith_outcome(op, value_model(l), value_model(r))),
{
    match op {
        BinaryOperator::Add => match (l, r) {
            (Value::Int(a), Value::Int(b)) => int_outcome(a.checked_add(b)),
            (Value::String(a), Value::String(b)) => Evaluated::Value(
                Value::String(a.concat(b.as_str())),
            ),
            (l, r) => null_or_type_mismatch(&l, &r, "Cannot add values of these types"),
        },
        BinaryOperator::Sub => match (l, r) {
            (Value::Int(a), Value::Int(b)) => int_outcome(a.checked_sub(b)),
            (l, r) => null_or_type_mismatch(&l, &r, "Cannot subtract values of these types"),
        },
        BinaryOperator::Mul => match (l, r) {
            (Value::Int(a), Value::Int(b)) => int_outcome(a.checked_mul(b)),
            (l, r) => null_or_type_mismatch(&l, &r, "Cannot multiply values of these types"),
        },
        BinaryOperator::Div => {
            if is_int_zero(&r) {
                return Evaluated::Error(invalid_operation("Division by zero"));
            }
            match (l, r) {
                (Value::Int(a), Value::Int(b)) => int_outcome(a.checked_div(b)),
                (l, r) => null_or_type_mismatch(&l, &r, "Cannot divide values of these types"),
            }
        },
        _ => {
            if is_int_zero(&r) {
                return Evaluated::Error(invalid_operation("Modulo by zero"));
            }
            match (l, r) {
                (Value::Int(a), Value::Int(b)) => int_outcome(a.checked_rem(b)),
                (l, r) => null_or_type_mismatch(&l, &r, "Cannot modulo values of these types"),
            }
        },
    }
}

fn eval_and(l: &Value, r: &Value) -> (res: Evaluated)
    ensures
        evaluated_matches(res, and_outcome(value_model(*l), value_model(*r))),
{
    let lf = match l {
        Value::Bool(b) => !*b,
        _ => false,
    };
    let rf = match r {
        Value::Bool(b) => !*b,
        _ => false,
    };
    let lt = match l {
        Value::Bool(b) => *b,
        _ => false,
    };
    let rt = match r {
        Value::Bool(b) => *b,
        _ => false,
    };
    if lf || rf {
        Evaluated::Value(Value::Bool(false))
    } else if lt && rt {
        Evaluated::Value(Value::Bool(true))
    } else if (l.is_null() || lt) && (r.is_null() || rt) {
        Evaluated::Value(Value::Null)
    } else {
        Evaluated::Error(type_mismatch("AND requires boolean operands"))
    }
}

fn eval_or(l: &Value, r: &Value) -> (res: Evaluated)
    ensures
        evaluated_matches(res, or_outcome(value_model(*l), value_model(*r))),
{
    let lf = match l {
        Value::Bool(b) => !*b,
        _ => false,
    };
    let rf = match r {
        Value::Bool(b) => !*b,
        _ => false,
    };
    let lt = match l {
        Value::Bool(b) => *b,
        _ => false,
    };
    let rt = match r {
        Value::Bool(b) => *b,
        _ => false,
    };
    if lt || rt {
        Evaluated::Value(Value::Bool(true))
    } else if lf && rf {
        Evaluated::Value(Value::Bool(false))
    } else if (l.is_null() || lf) && (r.is_null() || rf) {
        Evaluated::Value(Value::Null)
    } else {
        Evaluated::Error(type_mismatch("OR requires boolean operands"))
    }
}

/// A string operator: `test` decides two strings; nulls give null; other
/// operand types give `other`.
fn string_operator(l: &Value, r: &Value, kind: u8, other: bool) -> (v: Value)
    requires
        kind < 5,
    ensures
        value_model(v) == string_test(
            value_model(*l),
            value_model(*r),
            string_holds(kind, str_of(value_model(*l)), str_of(value_model(*r))),
            other,
        ),
{
    match (l, r) {
        (Value::String(s), Value::String(t)) => {
            let b = if kind == 0 {
                contains(s.as_str(), t.as_str())
            } else if kind == 1 {
                !contains(s.as_str(), t.as_str())
            } else if kind == 2 {
                starts_with(s.as_str(), t.as_str())
            } else if kind == 3 {
                ends_with(s.as_str(), t.as_str())
            } else {
                match regex_match(t.as_str(), s.as_str()) {
                    Some(m) => m,
                    None => false,
                }
            };
            Value::Bool(b)
        },
        _ => {
            if l.is_null() || r.is_null() {
                Value::Null
            } else {
                Value::Bool(other)
            }
        },
    }
}

/// Which string test `kind` names: contains, not contains, starts with,
/// ends with, regex match (pattern on the right).
pub open spec fn string_holds(kind: u8, s: Seq<char>, t: Seq<char>) -> bool {
    if kind == 0 {
        crate::text::seq_contains(s, t)
    } else if kind == 1 {
        !crate::text::seq_contains(s, t)
    } else if kind == 2 {
        crate::text::seq_starts_with(s, t)
    } else if kind == 3 {
        crate::text::seq_ends_with(s, t)
    } else {
        regex_holds(t, s)
    }
}

/// Applies binary operator `op` to two evaluated operands.
pub fn eval_binary_op(op: BinaryOperator, l: Value, r: Value) -> (res: Evaluated)
    ensures
        evaluated_matches(res, binary_outcome(op, value_model(l), value_model(r))),
{
    match op {
        BinaryOperator::Add | BinaryOperator::Sub | BinaryOperator::Mul | BinaryOperator::Div
        | BinaryOperator::Mod => eval_arith(op, l, r),
        BinaryOperator::Eq => Evaluated::Value(Value::Bool(values_equal_exec(&l, &r))),
        BinaryOperator::Neq => Evaluated::Value(Value::Bool(!values_equal_exec(&l, &r))),
        BinaryOperator::Lt | BinaryOperator::Lte | BinaryOperator::Gt | BinaryOperator::Gte =>
            eval_compare(op, &l, &r),
        BinaryOperator::And => eval_and(&l, &r),
        BinaryOperator::Or => eval_or(&l, &r),
        BinaryOperator::Contains => Evaluated::Value(string_operator(&l, &r, 0, false)),
        BinaryOperator::NotContains => Evaluated::Value(string_operator(&l, &r, 1, true)),
        BinaryOperator::In => Evaluated::Value(eval_in(&l, &r)),
        BinaryOperator::NotIn => Evaluated::Value(
            match eval_in(&l, &r) {
                Value::Bool(found) => Value::Bool(!found),
                other => other,
            },
        ),
        BinaryOperator::StartsWith => Evaluated::Value(string_operator(&l, &r, 2, false)),
        BinaryOperator::EndsWith => Evaluated::Value(string_operator(&l, &r, 3, false)),
        BinaryOperator::Regex => Evaluated::Value(string_operator(&l, &r, 4, false)),
    }
}

/// Applies unary operator `op` to an evaluated operand.
pub fn eval_unary_op(op: UnaryOperator, v: Value) -> (res: Evaluated)
    ensures
        evaluated_matches(res, unary_outcome(op, value_model(v))),
{
    match op {
        UnaryOperator::Not => match v {
            Value::Bool(b) => Evaluated::Value(Value::Bool(!b)),
            Value::Null => Evaluated::Value(Value::Null),
            _ => Evaluated::Error(type_mismatch("NOT operator requires boolean")),
        },
        UnaryOperator::Neg => match v {
            Value::Int(i) => if i == i64::MIN {
                Evaluated::Overflow
            } else {
                Evaluated::Value(Value::Int(-i))
            },
            Value::Null => Evaluated::Value(Value::Null),
            _ => Evaluated::Error(type_mismatch("Negation requires number")),
        },
    }
}


fn name_is(u: &String, lit: &str) -> (b: bool)
    ensures
        b == (u@ == lit@),
{
    let l = String::from_str(lit);
    *u == l
}

fn first_arg(args: &[Value]) -> (r: Option<&Value>)
    ensures
        match r {
            Some(v) => arg(list_model(args@), 0) == Some(value_model(*v)),
            None => arg(list_model(args@), 0) is None,
        },
{
    proof {
        lemma_list_model_len(args@);
    }
    if args.len() > 0 {
        proof {
            lemma_list_model_index(args@, 0);
        }
        Some(&args[0])
    } else {
        None
    }
}

fn second_arg(args: &[Value]) -> (r: Option<&Value>)
    ensures
        match r {
            Some(v) => arg(list_model(args@), 1) == Some(value_model(*v)),
            None => arg(list_model(args@), 1) is None,
        },
{
    proof {
        lemma_list_model_len(args@);
    }
    if args.len() > 1 {
        proof {
            lemma_list_model_index(args@, 1);
        }
        Some(&args[1])
    } else {
        None
    }
}

/// LOWER / UPPER.
fn case_fn(args: &[Value], lower: bool) -> (res: Evaluated)
    ensures
        evaluated_matches(
            res,
            case_outcome(list_model(args@), lower),
        ),
        res matches Evaluated::Error(e) ==> e.spec_detail() == (if lower { "LOWER requires string argument"@ } else { "UPPER requires string argument"@ }),
{
    match first_arg(args) {
        Some(Value::String(s)) => if lower {
            Evaluated::Value(Value::String(to_lowercase(s.as_str())))
        } else {
            Evaluated::Value(Value::String(to_uppercase(s.as_str())))
        },
        Some(Value::Null) => Evaluated::Value(Value::Null),
        _ => if lower {
            Evaluated::Error(invalid_operation("LOWER requires string argument"))
        } else {
            Evaluated::Error(invalid_operation("UPPER requires string argument"))
        },
    }
}

fn length_fn(args: &[Value]) -> (res: Evaluated)
    ensures
        evaluated_matches(res, length_outcome(list_model(args@))),
        res matches Evaluated::Error(e) ==> e.spec_detail() == "LENGTH requires string or list"@,
{
    match first_arg(args) {
        Some(Value::String(s)) => Evaluated::Value(
            Value::Int(#[verifier::truncate] (byte_len(s.as_str()) as i64)),
        ),
        Some(Value::List(l)) => {
            proof {
                lemma_list_model_len(l@);
            }
            Evaluated::Value(Value::Int(#[verifier::truncate] (l.len() as i64)))
        },
        Some(Value::Null) => Evaluated::Value(Value::Null),
        _ => Evaluated::Error(invalid_operation("LENGTH requires string or list")),
    }
}

/// CONTAINS (0), STARTS_WITH (2), ENDS_WITH (3) on two string arguments.
fn two_string_fn(args: &[Value], kind: u8) -> (res: Evaluated)
    requires
        kind == 0 || kind == 2 || kind == 3,
    ensures
        evaluated_matches(
            res,
            string_pair_outcome(list_model(args@), kind),
        ),
        res matches Evaluated::Error(e) ==> e.spec_detail() == "function requires two string arguments"@,
{
    match (first_arg(args), second_arg(args)) {
        (Some(Value::String(s)), Some(Value::String(t))) => {
            let b = if kind == 0 {
                contains(s.as_str(), t.as_str())
            } else if kind == 2 {
                starts_with(s.as_str(), t.as_str())
            } else {
                ends_with(s.as_str(), t.as_str())
            };
            Evaluated::Value(Value::Bool(b))
        },
        (Some(Value::Null), _) => Evaluated::Value(Value::Null),
        (_, Some(Value::Null)) => Evaluated::Value(Value::Null),
        _ => Evaluated::Error(invalid_operation("function requires two string arguments")),
    }
}

fn abs_fn(args: &[Value]) -> (res: Evaluated)
    ensures
        evaluated_matches(res, abs_outcome(list_model(args@))),
        res matches Evaluated::Error(e) ==> e.spec_detail() == "ABS requires numeric argument"@,
{
    match first_arg(args) {
        Some(Value::Int(i)) => if *i == i64::MIN {
            Evaluated::Overflow
        } else if *i < 0 {
            Evaluated::Value(Value::Int(-*i))
        } else {
            Evaluated::Value(Value::Int(*i))
        },
        Some(Value::Null) => Evaluated::Value(Value::Null),
        _ => Evaluated::Error(invalid_operation("ABS requires numeric argument")),
    }
}

/// FLOOR, CEIL and ROUND leave integers unchanged.
fn rounding_fn(args: &[Value]) -> (res: Evaluated)
    ensures
        evaluated_matches(res, rounding_outcome(list_model(args@))),
        res matches Evaluated::Error(e) ==> e.spec_detail() == "function requires numeric argument"@,
{
    match first_arg(args) {
        Some(Value::Int(i)) => Evaluated::Value(Value::Int(*i)),
        Some(Value::Null) => Evaluated::Value(Value::Null),
        _ => Evaluated::Error(invalid_operation("function requires numeric argument")),
    }
}

fn null_test_fn(args: &[Value], want_null: bool) -> (res: Evaluated)
    ensures
        evaluated_matches(
            res,
            null_test_outcome(list_model(args@), want_null),
        ),
        res matches Evaluated::Error(e) ==> e.spec_detail() == "function requires one argument"@,
{
    match first_arg(args) {
        Some(v) => {
            let n = v.is_null();
            Evaluated::Value(Value::Bool(if want_null { n } else { !n }))
        },
        None => Evaluated::Error(invalid_operation("function requires one argument")),
    }
}

fn coalesce_fn(args: &[Value]) -> (res: Evaluated)
    ensures
        evaluated_matches(res, Outcome::Val(coalesce(list_model(args@)))),
{
    proof {
        lemma_list_model_len(args@);
    }
    let ghost lm = list_model(args@);
    let mut i: usize = 0;
    assert(lm.skip(0) =~= lm);
    while i < args.len()
        invariant
            i <= args.len(),
            lm == list_model(args@),
            lm.len() == args.len(),
            coalesce(lm) == coalesce(lm.skip(i as int)),
        decreases args.len() - i,
    {
        proof {
            lemma_list_model_index(args@, i as int);
            assert(lm.skip(i as int).drop_first() =~= lm.skip(i + 1));
        }
        if !args[i].is_null() {
            return Evaluated::Value(args[i].duplicate());
        }
        i = i + 1;
    }
    assert(lm.skip(i as int) =~= Seq::<VModel>::empty());
    Evaluated::Value(Value::Null)
}

/// The detail of the error for an unknown function name.
pub open spec fn unknown_function_detail(name: Seq<char>) -> Seq<char> {
    "Unknown function: "@ + name
}

/// The detail of the error a scalar function fails with, given its
/// upper-cased name `u` and the name as written.
pub open spec fn scalar_error_detail(u: Seq<char>, name: Seq<char>) -> Seq<char> {
    if u == "LOWER"@ || u == "TOLOWER"@ {
        "LOWER requires string argument"@
    } else if u == "UPPER"@ || u == "TOUPPER"@ {
        "UPPER requires string argument"@
    } else if u == "LENGTH"@ || u == "SIZE"@ {
        "LENGTH requires string or list"@
    } else if u == "CONTAINS"@ || u == "STARTS_WITH"@ || u == "STARTSWITH"@ || u == "ENDS_WITH"@
        || u == "ENDSWITH"@ {
        "function requires two string arguments"@
    } else if u == "ABS"@ {
        "ABS requires numeric argument"@
    } else if u == "FLOOR"@ || u == "CEIL"@ || u == "ROUND"@ {
        "function requires numeric argument"@
    } else if u == "IS_NULL"@ || u == "ISNULL"@ || u == "IS_NOT_NULL"@ || u == "ISNOTNULL"@ {
        "function requires one argument"@
    } else if u == "COALESCE"@ {
        Seq::empty()
    } else {
        unknown_function_detail(name)
    }
}

/// Applies a scalar function, reporting integer overflow as `Overflow`.
pub fn scalar_checked(name: &str, args: &[Value]) -> (res: Evaluated)
    ensures
        evaluated_matches(res, scalar_outcome(uppercase_of(name@), list_model(args@))),
        !is_scalar_name(uppercase_of(name@)) ==> (res matches Evaluated::Error(e) && e
            == ExecutionError::InvalidOperation(e->InvalidOperation_0)
            && e->InvalidOperation_0@ == unknown_function_detail(name@)),
        res matches Evaluated::Error(e) ==> e.spec_detail() == scalar_error_detail(uppercase_of(name@), name@),
{
    let u = to_uppercase(name);
    if name_is(&u, "LOWER") || name_is(&u, "TOLOWER") {
        case_fn(args, true)
    } else if name_is(&u, "UPPER") || name_is(&u, "TOUPPER") {
        case_fn(args, false)
    } else if name_is(&u, "LENGTH") || name_is(&u, "SIZE") {
        length_fn(args)
    } else if name_is(&u, "CONTAINS") {
        two_string_fn(args, 0)
    } else if name_is(&u, "STARTS_WITH") || name_is(&u, "STARTSWITH") {
        two_string_fn(args, 2)
    } else if name_is(&u, "ENDS_WITH") || name_is(&u, "ENDSWITH") {
        two_string_fn(args, 3)
    } else if name_is(&u, "ABS") {
        abs_fn(args)
    } else if name_is(&u, "FLOOR") || name_is(&u, "CEIL") || name_is(&u, "ROUND") {
        rounding_fn(args)
    } else if name_is(&u, "IS_NULL") || name_is(&u, "ISNULL") {
        null_test_fn(args, true)
    } else if name_is(&u, "IS_NOT_NULL") || name_is(&u, "ISNOTNULL") {
        null_test_fn(args, false)
    } else if name_is(&u, "COALESCE") {
        coalesce_fn(args)
    } else {
        let detail = String::from_str("Unknown function: ").concat(name);
        Evaluated::Error(ExecutionError::InvalidOperation(detail))
    }
}

/// Property resolution of a context, as evaluation sees it.
pub open spec fn ctx_lookup(ctx: EvalContext) -> Lookup {
    |p: Seq<char>| spec_get_property(ctx, p)
}

/// Whether the class list bound to `__isa__` in `ctx` names class `t`.
fn isa_contains(ctx: &EvalContext, t: &String) -> (b: bool)
    ensures
        b == isa_member(ctx_lookup(*ctx), t@),
{
    let key = chars_of("__isa__");
    match ctx.get_property_chars(&key) {
        Some(Value::List(items)) => {
            proof {
                lemma_list_model_len(items@);
            }
            let ghost lm = list_model(items@);
            assert(spec_get_property(*ctx, "__isa__"@) == Some(VModel::List(lm)));
            let mut i: usize = 0;
            while i < items.len()
                invariant
                    i <= items.len(),
                    lm == list_model(items@),
                    lm.len() == items.len(),
                    spec_get_property(*ctx, "__isa__"@) == Some(VModel::List(lm)),
                    forall|j: int| 0 <= j < i ==> lm[j] != VModel::Str(t@),
                decreases items.len() - i,
            {
                proof {
                    lemma_list_model_index(items@, i as int);
                }
                match &items[i] {
                    Value::String(s) => {
                        if *s == *t {
                            assert(lm[i as int] == VModel::Str(t@));
                            return true;
                        }
                    },
                    _ => {},
                }
                i = i + 1;
            }
            false
        },
        _ => false,
    }
}

/// Calls function `name` on evaluated arguments.
fn eval_function(name: &String, args: Vec<Value>, ctx: &EvalContext) -> (res: Evaluated)
    ensures
        evaluated_matches(res, function_outcome(name@, list_model(args@), ctx_lookup(*ctx))),
{
    let u = to_uppercase(name.as_str());
    if name_is(&u, "IS_A") || name_is(&u, "ISA") {
        match first_arg(args.as_slice()) {
            Some(Value::String(t)) => Evaluated::Value(Value::Bool(isa_contains(ctx, t))),
            Some(Value::Null) => Evaluated::Value(Value::Null),
            _ => Evaluated::Error(
                invalid_operation("is_a requires a class-name string argument"),
            ),
        }
    } else {
        scalar_checked(name.as_str(), args.as_slice())
    }
}

/// Evaluation of several expressions, left to right.
pub enum ListEvaluated {
    Values(Vec<Value>),
    Error(ExecutionError),
    Overflow,
}

pub open spec fn list_evaluated_matches(r: ListEvaluated, o: ListOutcome) -> bool {
    match (r, o) {
        (ListEvaluated::Values(vs), ListOutcome::Vals(ms)) => list_model(vs@) == ms,
        (ListEvaluated::Error(e), ListOutcome::Fail(k)) => e.spec_kind() == k,
        (ListEvaluated::Overflow, ListOutcome::Overflow) => true,
        _ => false,
    }
}

/// Once a prefix fails or overflows, the whole sequence does the same.
proof fn lemma_eval_list_stuck(items: Seq<Expression>, lookup: Lookup, i: int)
    requires
        0 <= i <= items.len(),
        !(eval_list(items.take(i), lookup) is Vals),
    ensures
        eval_list(items, lookup) == eval_list(items.take(i), lookup),
    decreases items.len() - i,
{
    if i < items.len() {
        assert(items.take(i + 1).drop_last() =~= items.take(i));
        lemma_eval_list_stuck(items, lookup, i + 1);
    } else {
        assert(items.take(i) =~= items);
    }
}

proof fn lemma_eval_dict_stuck(entries: Seq<(String, Expression)>, lookup: Lookup, i: int)
    requires
        0 <= i <= entries.len(),
        !(eval_dict(entries.take(i), lookup) is Vals),
    ensures
        eval_dict(entries, lookup) == eval_dict(entries.take(i), lookup),
    decreases entries.len() - i,
{
    if i < entries.len() {
        assert(entries.take(i + 1).drop_last() =~= entries.take(i));
        lemma_eval_dict_stuck(entries, lookup, i + 1);
    } else {
        assert(entries.take(i) =~= entries);
    }
}

fn eval_items(items: &Vec<Expression>, ctx: &EvalContext) -> (res: ListEvaluated)
    ensures
        list_evaluated_matches(res, eval_list(items@, ctx_lookup(*ctx))),
    decreases items,
{
    let ghost lookup = ctx_lookup(*ctx);
    let mut out: Vec<Value> = Vec::new();
    let mut i: usize = 0;
    assert(items@.take(0) =~= Seq::<Expression>::empty());
    while i < items.len()
        invariant
            i <= items.len(),
            lookup == ctx_lookup(*ctx),
            eval_list(items@.take(i as int), lookup) == ListOutcome::Vals(list_model(out@)),
        decreases items.len() - i,
    {
        assert(decreases_to!(*items => items@));
        assert(decreases_to!(items@ => items@[i as int]));
        let r = evaluate_checked(&items[i], ctx);
        assert(items@.take(i + 1).drop_last() =~= items@.take(i as int));
        assert(items@.take(i + 1).last() == items@[i as int]);
        match r {
            Evaluated::Value(v) => {
                proof {
                    lemma_list_model_push(out@, v);
                }
                out.push(v);
            },
            Evaluated::Error(e) => {
                proof {
                    lemma_eval_list_stuck(items@, lookup, i + 1);
                }
                return ListEvaluated::Error(e);
            },
            Evaluated::Overflow => {
                proof {
                    lemma_eval_list_stuck(items@, lookup, i + 1);
                }
                return ListEvaluated::Overflow;
            },
        }
        i = i + 1;
    }
    assert(items@.take(items.len() as int) =~= items@);
    ListEvaluated::Values(out)
}

proof fn lemma_entries_model_len(items: Seq<(String, Value)>)
    ensures
        entries_model(items).len() == items.len(),
    decreases items.len(),
{
    if items.len() > 0 {
        lemma_entries_model_len(items.drop_last());
    }
}

proof fn lemma_entries_model_index(items: Seq<(String, Value)>, i: int)
    requires
        0 <= i < items.len(),
    ensures
        entries_model(items)[i] == (items[i].0@, value_model(items[i].1)),
    decreases items.len(),
{
    lemma_entries_model_len(items);
    if i < items.len() - 1 {
        lemma_entries_model_len(items.drop_last());
        lemma_entries_model_index(items.drop_last(), i);
    }
}

proof fn lemma_entries_model_update(items: Seq<(String, Value)>, i: int, x: (String, Value))
    requires
        0 <= i < items.len(),
    ensures
        entries_model(items.update(i, x)) == entries_model(items).update(i, (x.0@, value_model(x.1))),
{
    let a = entries_model(items.update(i, x));
    let b = entries_model(items).update(i, (x.0@, value_model(x.1)));
    lemma_entries_model_len(items);
    lemma_entries_model_len(items.update(i, x));
    assert forall|j: int| 0 <= j < a.len() implies a[j] == b[j] by {
        lemma_entries_model_index(items.update(i, x), j);
        lemma_entries_model_index(items, j);
    }
    assert(a =~= b);
}

proof fn lemma_dict_insert_at(d: Seq<(Seq<char>, VModel)>, k: Seq<char>, v: VModel, i: int)
    requires
        0 <= i < d.len(),
        d[i].0 == k,
        forall|j: int| 0 <= j < i ==> d[j].0 != k,
    ensures
        dict_insert(d, k, v) == d.update(i, (k, v)),
    decreases d.len(),
{
    if i > 0 {
        lemma_dict_insert_at(d.drop_first(), k, v, i - 1);
        assert(seq![d[0]] + d.drop_first().update(i - 1, (k, v)) =~= d.update(i, (k, v)));
    }
}

proof fn lemma_dict_insert_new(d: Seq<(Seq<char>, VModel)>, k: Seq<char>, v: VModel)
    requires
        forall|j: int| 0 <= j < d.len() ==> d[j].0 != k,
    ensures
        dict_insert(d, k, v) == d.push((k, v)),
    decreases d.len(),
{
    if d.len() > 0 {
        lemma_dict_insert_new(d.drop_first(), k, v);
        assert(seq![d[0]] + d.drop_first().push((k, v)) =~= d.push((k, v)));
    }
}

/// Inserts `key` into association list `entries`, replacing an existing entry.
fn dict_insert_exec(entries: &mut Vec<(String, Value)>, key: String, value: Value)
    ensures
        entries_model(final(entries)@) == dict_insert(
            entries_model(old(entries)@),
            key@,
            value_model(value),
        ),
{
    proof {
        lemma_entries_model_len(entries@);
    }
    let ghost before = entries@;
    let mut i: usize = 0;
    while i < entries.len()
        invariant
            entries@ == before,
            before == old(entries)@,
            i <= entries.len(),
            entries_model(before).len() == before.len(),
            forall|j: int| 0 <= j < i ==> entries_model(before)[j].0 != key@,
        decreases entries.len() - i,
    {
        proof {
            lemma_entries_model_index(before, i as int);
        }
        if entries[i].0 == key {
            proof {
                lemma_dict_insert_at(entries_model(before), key@, value_model(value), i as int);
                lemma_entries_model_update(before, i as int, (key, value));
            }
            entries.set(i, (key, value));
            return;
        }
        i = i + 1;
    }
    proof {
        lemma_dict_insert_new(entries_model(before), key@, value_model(value));
        lemma_entries_model_push(before, (key, value));
    }
    entries.push((key, value));
}

fn eval_entries(entries: &Vec<(String, Expression)>, ctx: &EvalContext) -> (res: Evaluated)
    ensures
        evaluated_matches(
            res,
            match eval_dict(entries@, ctx_lookup(*ctx)) {
                DictOutcome::Vals(d) => Outcome::Val(VModel::Dict(d)),
                DictOutcome::Fail(k) => Outcome::Fail(k),
                DictOutcome::Overflow => Outcome::Overflow,
            },
        ),
    decreases entries,
{
    let ghost lookup = ctx_lookup(*ctx);
    let mut out: Vec<(String, Value)> = Vec::new();
    let mut i: usize = 0;
    assert(entries@.take(0) =~= Seq::<(String, Expression)>::empty());
    while i < entries.len()
        invariant
            i <= entries.len(),
            lookup == ctx_lookup(*ctx),
            eval_dict(entries@.take(i as int), lookup) == DictOutcome::Vals(entries_model(out@)),
        decreases entries.len() - i,
    {
        assert(decreases_to!(*entries => entries@));
        assert(decreases_to!(entries@ => entries@[i as int]));
        assert(decreases_to!(entries@[i as int] => entries@[i as int].1));
        let r = evaluate_checked(&entries[i].1, ctx);
        assert(entries@.take(i + 1).drop_last() =~= entries@.take(i as int));
        assert(entries@.take(i + 1).last() == entries@[i as int]);
        match r {
            Evaluated::Value(v) => {
                dict_insert_exec(&mut out, entries[i].0.clone(), v);
            },
            Evaluated::Error(e) => {
                proof {
                    lemma_eval_dict_stuck(entries@, lookup, i + 1);
                }
                return Evaluated::Error(e);
            },
            Evaluated::Overflow => {
                proof {
                    lemma_eval_dict_stuck(entries@, lookup, i + 1);
                }
                return Evaluated::Overflow;
            },
        }
        i = i + 1;
    }
    assert(entries@.take(entries.len() as int) =~= entries@);
    Evaluated::Value(Value::Dict(out))
}

pub(crate) fn literal_value(lit: &Literal) -> (v: Value)
    ensures
        value_model(v) == literal_model(*lit),
{
    match lit {
        Literal::Bool(b) => Value::Bool(*b),
        Literal::Int(i) => Value::Int(*i),
        Literal::String(s) => Value::String(s.clone()),
        Literal::Null => Value::Null,
    }
}

/// Evaluates `expr` against `ctx`, reporting integer overflow as `Overflow`.
pub fn evaluate_checked(expr: &Expression, ctx: &EvalContext) -> (res: Evaluated)
    ensures
        evaluated_matches(res, eval_expr(*expr, ctx_lookup(*ctx))),
    decreases expr,
{
    match expr {
        Expression::Literal(lit) => Evaluated::Value(literal_value(lit)),
        Expression::Identifier(name) => match ctx.get_property(name.as_str()) {
            Some(v) => Evaluated::Value(v),
            None => Evaluated::Error(type_mismatch("Unknown identifier")),
        },
        Expression::BinaryOp { op, left, right } => {
            let l = match evaluate_checked(left, ctx) {
                Evaluated::Value(v) => v,
                Evaluated::Error(e) => return Evaluated::Error(e),
                Evaluated::Overflow => return Evaluated::Overflow,
            };
            let r = match evaluate_checked(right, ctx) {
                Evaluated::Value(v) => v,
                Evaluated::Error(e) => return Evaluated::Error(e),
                Evaluated::Overflow => return Evaluated::Overflow,
            };
            eval_binary_op(*op, l, r)
        },
        Expression::UnaryOp { op, operand } => match evaluate_checked(operand, ctx) {
            Evaluated::Value(v) => eval_unary_op(*op, v),
            Evaluated::Error(e) => Evaluated::Error(e),
            Evaluated::Overflow => Evaluated::Overflow,
        },
        Expression::FunctionCall { name, args } => match eval_items(args, ctx) {
            ListEvaluated::Values(vs) => eval_function(name, vs, ctx),
            ListEvaluated::Error(e) => Evaluated::Error(e),
            ListEvaluated::Overflow => Evaluated::Overflow,
        },
        Expression::List(items) => match eval_items(items, ctx) {
            ListEvaluated::Values(vs) => Evaluated::Value(Value::List(vs)),
            ListEvaluated::Error(e) => Evaluated::Error(e),
            ListEvaluated::Overflow => Evaluated::Overflow,
        },
        Expression::Dict(entries) => eval_entries(entries, ctx),
        Expression::PropRef { object, prop } => {
            let oc = chars_of(object.as_str());
            let pc = chars_of(prop.as_str());
            let key = crate::expr::join_dotted(&oc, &pc);
            match ctx.get_property_chars(&key) {
                Some(v) => Evaluated::Value(v),
                None => match ctx.get_property_chars(&pc) {
                    Some(v) => Evaluated::Value(v),
                    None => Evaluated::Error(type_mismatch("Unknown property reference")),
                },
            }
        },
        Expression::DstVertexProp { .. } => Evaluated::Error(
            invalid_operation("destination vertex properties require async context; use GO YIELD"),
        ),
    }
}

/// A context with no bindings resolves nothing.
proof fn lemma_new_context_lookup(ctx: EvalContext)
    requires
        forall|k: Seq<char>| #[trigger] ctx.current.spec_get(k) is None,
        forall|k: Seq<char>| #[trigger] ctx.source.spec_get(k) is None,
        forall|k: Seq<char>| #[trigger] ctx.destination.spec_get(k) is None,
        ctx.variables@.len() == 0,
    ensures
        ctx_lookup(ctx) == no_bindings(),
{
    assert forall|p: Seq<char>| #[trigger] spec_get_property(ctx, p) is None by {
        let parts = crate::text::split_on(p, '.');
        if parts.len() == 2 {
            assert(find_variable(ctx.variables@, parts[0]) is None);
        }
        if parts.len() == 1 {
            assert(find_in_variables(ctx.variables@, parts[0]) is None);
        }
    }
    assert(ctx_lookup(ctx) =~= no_bindings());
}

/// Whether evaluating `expr` in `ctx` stays within 64-bit integer arithmetic.
pub open spec fn evaluation_fits(expr: Expression, ctx: EvalContext) -> bool {
    !(eval_expr(expr, ctx_lookup(ctx)) is Overflow)
}

/// Whether applying scalar function `name` to `args` stays within 64-bit
/// integer arithmetic.
pub open spec fn scalar_fits(name: Seq<char>, args: Seq<Value>) -> bool {
    !(scalar_outcome(uppercase_of(name), list_model(args)) is Overflow)
}

/// The expression evaluator.
pub struct Evaluator;

impl Evaluator {
    /// Evaluates `expr` with nothing bound (literals and operators only).
    pub fn evaluate(expr: &Expression) -> (r: Result<Value, ExecutionError>)
        requires
            !(eval_expr(*expr, no_bindings()) is Overflow),
        ensures
            result_matches(r, eval_expr(*expr, no_bindings())),
    {
        let ctx = EvalContext::new();
        proof {
            lemma_new_context_lookup(ctx);
        }
        Self::evaluate_with_context(expr, &ctx)
    }

    /// Evaluates `expr` against the bindings of `ctx`.
    pub fn evaluate_with_context(expr: &Expression, ctx: &EvalContext) -> (r: Result<
        Value,
        ExecutionError,
    >)
        requires
            evaluation_fits(*expr, *ctx),
        ensures
            result_matches(r, eval_expr(*expr, ctx_lookup(*ctx))),
    {
        match evaluate_checked(expr, ctx) {
            Evaluated::Value(v) => Ok(v),
            Evaluated::Error(e) => Err(e),
            Evaluated::Overflow => {
                assert(false);
                Err(invalid_operation("integer overflow"))
            },
        }
    }

    /// Like [`Self::evaluate_with_context`], but returns `None` where the
    /// evaluation would overflow 64-bit integer arithmetic.
    pub fn try_evaluate_with_context(expr: &Expression, ctx: &EvalContext) -> (r: Option<
        Result<Value, ExecutionError>,
    >)
        ensures
            r is None <==> !evaluation_fits(*expr, *ctx),
            r matches Some(res) ==> result_matches(res, eval_expr(*expr, ctx_lookup(*ctx))),
    {
        match evaluate_checked(expr, ctx) {
            Evaluated::Overflow => None,
            _ => Some(Self::evaluate_with_context(expr, ctx)),
        }
    }

    /// Evaluates a WHERE condition: booleans as themselves, null as false,
    /// anything else is a type mismatch.
    pub fn evaluate_condition(expr: &Expression, ctx: &EvalContext) -> (r: Result<
        bool,
        ExecutionError,
    >)
        requires
            evaluation_fits(*expr, *ctx),
        ensures
            match (r, condition_outcome(*expr, ctx_lookup(*ctx))) {
                (Ok(b), Some(Ok(c))) => b == c,
                (Err(e), Some(Err(k))) => e.spec_kind() == k,
                _ => false,
            },
            (eval_expr(*expr, ctx_lookup(*ctx)) matches Outcome::Val(v) && !(v is Bool) && !(v is Null))
                ==> (r matches Err(e) && e.spec_detail() == "WHERE clause must evaluate to boolean"@),
    {
        Self::condition_from_result(Self::evaluate_with_context(expr, ctx))
    }

    /// A WHERE condition from the result of evaluating it: a boolean as
    /// itself, null as false, any other value a type mismatch, and an
    /// evaluation error handed on unchanged.
    pub fn condition_from_result(res: Result<Value, ExecutionError>) -> (r: Result<bool, ExecutionError>)
        ensures
            match res {
                Ok(Value::Bool(b)) => r == Ok::<bool, ExecutionError>(b),
                Ok(Value::Null) => r == Ok::<bool, ExecutionError>(false),
                Ok(_) => r matches Err(e) && e.spec_kind() == ErrorKind::TypeMismatch && e.spec_detail()
                    == "WHERE clause must evaluate to boolean"@,
                Err(e) => r == Err::<bool, ExecutionError>(e),
            },
    {
        match res {
            Ok(Value::Bool(b)) => Ok(b),
            Ok(Value::Null) => Ok(false),
            Ok(_) => Err(type_mismatch("WHERE clause must evaluate to boolean")),
            Err(e) => Err(e),
        }
    }

    /// Like [`Self::evaluate_condition`], but returns `None` where the
    /// evaluation would overflow 64-bit integer arithmetic.
    pub fn try_evaluate_condition(expr: &Expression, ctx: &EvalContext) -> (r: Option<
        Result<bool, ExecutionError>,
    >)
        ensures
            match (r, condition_outcome(*expr, ctx_lookup(*ctx))) {
                (None, None) => true,
                (Some(Ok(b)), Some(Ok(c))) => b == c,
                (Some(Err(e)), Some(Err(k))) => e.spec_kind() == k,
                _ => false,
            },
    {
        match evaluate_checked(expr, ctx) {
            Evaluated::Overflow => None,
            _ => Some(Self::evaluate_condition(expr, ctx)),
        }
    }

    /// Applies a function that depends only on its argument values.
    pub fn apply_scalar_function(name: &str, args: &[Value]) -> (r: Result<Value, ExecutionError>)
        requires
            scalar_fits(name@, args@),
        ensures
            result_matches(r, scalar_outcome(uppercase_of(name@), list_model(args@))),
            !is_scalar_name(uppercase_of(name@)) ==> (r matches Err(e) && e
                == ExecutionError::InvalidOperation(e->InvalidOperation_0)
                && e->InvalidOperation_0@ == unknown_function_detail(name@)),
            r matches Err(e) ==> e.spec_detail() == scalar_error_detail(uppercase_of(name@), name@),
    {
        match scalar_checked(name, args) {
            Evaluated::Value(v) => Ok(v),
            Evaluated::Error(e) => Err(e),
            Evaluated::Overflow => {
                assert(false);
                Err(invalid_operation("integer overflow"))
            },
        }
    }

    /// Like [`Self::apply_scalar_function`], but returns `None` where the
    /// function would overflow 64-bit integer arithmetic.
    pub fn try_apply_scalar_function(name: &str, args: &[Value]) -> (r: Option<
        Result<Value, ExecutionError>,
    >)
        ensures
            r is None <==> !scalar_fits(name@, args@),
            r matches Some(res) ==> result_matches(
                res,
                scalar_outcome(uppercase_of(name@), list_model(args@)),
            ),
    {
        match scalar_checked(name, args) {
            Evaluated::Overflow => None,
            _ => Some(Self::apply_scalar_function(name, args)),
        }
    }
}

/// Every scalar function name the dispatcher accepts.
pub fn scalar_function_names() -> (r: Vec<&'static str>)
    ensures
        r@.len() == 20,
        forall|i: int| 0 <= i < r@.len() ==> #[trigger] is_scalar_name(r@[i]@),
        forall|i: int| 0 <= i < r@.len() ==> crate::text::is_upper_word(#[trigger] r@[i]@),
{
    let r = vec![
        "LOWER",
        "TOLOWER",
        "UPPER",
        "TOUPPER",
        "LENGTH",
        "SIZE",
        "CONTAINS",
        "STARTS_WITH",
        "STARTSWITH",
        "ENDS_WITH",
        "ENDSWITH",
        "ABS",
        "FLOOR",
        "CEIL",
        "ROUND",
        "IS_NULL",
        "ISNULL",
        "IS_NOT_NULL",
        "ISNOTNULL",
        "COALESCE",
    ];
    proof {
        reveal_strlit("LOWER");
        reveal_strlit("TOLOWER");
        reveal_strlit("UPPER");
        reveal_strlit("TOUPPER");
        reveal_strlit("LENGTH");
        reveal_strlit("SIZE");
        reveal_strlit("CONTAINS");
        reveal_strlit("STARTS_WITH");
        reveal_strlit("STARTSWITH");
        reveal_strlit("ENDS_WITH");
        reveal_strlit("ENDSWITH");
        reveal_strlit("ABS");
        reveal_strlit("FLOOR");
        reveal_strlit("CEIL");
        reveal_strlit("ROUND");
        reveal_strlit("IS_NULL");
        reveal_strlit("ISNULL");
        reveal_strlit("IS_NOT_NULL");
        reveal_strlit("ISNOTNULL");
        reveal_strlit("COALESCE");
    }
    r
}

} // verus!
