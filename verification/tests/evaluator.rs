use byoridb_executor::eval::{scalar_function_names, Evaluator};
use byoridb_executor::expr::{BinaryOperator, EvalContext, Expression, Literal, UnaryOperator};
use byoridb_executor::value::{PropMap, Value};

fn is_bool(v: &Value, expected: bool) -> bool {
    matches!(v, Value::Bool(b) if *b == expected)
}

#[test]
fn test_literal_evaluation() {
    let v = Evaluator::evaluate(&Expression::Literal(Literal::Int(42))).unwrap();
    assert!(matches!(v, Value::Int(42)));
}

#[test]
fn test_comparison_operators() {
    // 10 < 20
    let expr = Expression::BinaryOp {
        op: BinaryOperator::Lt,
        left: Box::new(Expression::Literal(Literal::Int(10))),
        right: Box::new(Expression::Literal(Literal::Int(20))),
    };
    assert!(is_bool(&Evaluator::evaluate(&expr).unwrap(), true));
}

#[test]
fn test_logical_operators() {
    // true AND false
    let expr = Expression::BinaryOp {
        op: BinaryOperator::And,
        left: Box::new(Expression::Literal(Literal::Bool(true))),
        right: Box::new(Expression::Literal(Literal::Bool(false))),
    };
    assert!(is_bool(&Evaluator::evaluate(&expr).unwrap(), false));
}

#[test]
fn test_context_property_access() {
    let mut props = PropMap::new();
    props.insert("person.age".to_string(), Value::Int(30));
    let ctx = EvalContext::new().with_current(props);

    // person.age > 25
    let expr = Expression::BinaryOp {
        op: BinaryOperator::Gt,
        left: Box::new(Expression::Identifier("person.age".to_string())),
        right: Box::new(Expression::Literal(Literal::Int(25))),
    };
    assert!(is_bool(&Evaluator::evaluate_with_context(&expr, &ctx).unwrap(), true));
}

fn is_a(class: &str) -> Expression {
    Expression::FunctionCall {
        name: "is_a".to_string(),
        args: vec![Expression::Literal(Literal::String(class.to_string()))],
    }
}

fn ctx_with_isa(classes: &[&str]) -> EvalContext {
    let list = classes.iter().map(|c| Value::String(c.to_string())).collect::<Vec<_>>();
    let mut props = PropMap::new();
    props.insert("__isa__".to_string(), Value::List(list));
    EvalContext::new().with_current(props)
}

#[test]
fn is_a_true_when_class_in_isa_set() {
    let ctx = ctx_with_isa(&["dog", "animal"]);
    assert!(is_bool(&Evaluator::evaluate_with_context(&is_a("animal"), &ctx).unwrap(), true));
}

#[test]
fn is_a_false_when_class_absent() {
    let ctx = ctx_with_isa(&["dog", "animal"]);
    assert!(is_bool(&Evaluator::evaluate_with_context(&is_a("plant"), &ctx).unwrap(), false));
}

#[test]
fn is_a_false_when_no_isa_injected() {
    let ctx = EvalContext::new();
    assert!(is_bool(&Evaluator::evaluate_with_context(&is_a("animal"), &ctx).unwrap(), false));
}

#[test]
fn is_a_null_arg_yields_null() {
    let ctx = ctx_with_isa(&["dog"]);
    let expr = Expression::FunctionCall {
        name: "is_a".to_string(),
        args: vec![Expression::Literal(Literal::Null)],
    };
    assert!(matches!(Evaluator::evaluate_with_context(&expr, &ctx).unwrap(), Value::Null));
}

#[test]
fn is_a_non_string_arg_errors() {
    let ctx = ctx_with_isa(&["dog"]);
    let expr = Expression::FunctionCall {
        name: "is_a".to_string(),
        args: vec![Expression::Literal(Literal::Int(1))],
    };
    assert!(Evaluator::evaluate_with_context(&expr, &ctx).is_err());
}

/// `left <op> right` where both sides are literals or list literals.
fn eval_op(left: Literal, op: BinaryOperator, items: Vec<Literal>) -> Value {
    let expr = Expression::BinaryOp {
        op,
        left: Box::new(Expression::Literal(left)),
        right: Box::new(Expression::List(items.into_iter().map(Expression::Literal).collect())),
    };
    Evaluator::evaluate_with_context(&expr, &EvalContext::new()).unwrap()
}

#[test]
fn in_finds_a_matching_element() {
    assert!(is_bool(
        &eval_op(Literal::Int(2), BinaryOperator::In, vec![Literal::Int(1), Literal::Int(2)]),
        true
    ));
}

#[test]
fn in_is_false_when_no_element_matches() {
    assert!(is_bool(
        &eval_op(Literal::Int(9), BinaryOperator::In, vec![Literal::Int(1), Literal::Int(2)]),
        false
    ));
}

#[test]
fn in_an_empty_list_is_false() {
    assert!(is_bool(&eval_op(Literal::Int(1), BinaryOperator::In, vec![]), false));
}

#[test]
fn in_matches_strings() {
    assert!(is_bool(
        &eval_op(
            Literal::String("grace".into()),
            BinaryOperator::In,
            vec![Literal::String("ada".into()), Literal::String("grace".into())]
        ),
        true
    ));
}

#[test]
fn null_in_anything_is_unknown() {
    assert!(matches!(
        eval_op(Literal::Null, BinaryOperator::In, vec![Literal::Int(1)]),
        Value::Null
    ));
}

#[test]
fn a_null_element_makes_a_miss_unknown_but_not_a_hit() {
    // 2 IN [1, NULL] is unknown: the NULL might have been a 2.
    assert!(matches!(
        eval_op(Literal::Int(2), BinaryOperator::In, vec![Literal::Int(1), Literal::Null]),
        Value::Null
    ));
    // 1 IN [1, NULL] is true regardless: a match outranks the unknown.
    assert!(is_bool(
        &eval_op(Literal::Int(1), BinaryOperator::In, vec![Literal::Int(1), Literal::Null]),
        true
    ));
}

#[test]
fn not_in_negates_a_known_result_and_preserves_unknown() {
    assert!(is_bool(&eval_op(Literal::Int(9), BinaryOperator::NotIn, vec![Literal::Int(1)]), true));
    assert!(is_bool(&eval_op(Literal::Int(1), BinaryOperator::NotIn, vec![Literal::Int(1)]), false));
    assert!(matches!(
        eval_op(Literal::Int(2), BinaryOperator::NotIn, vec![Literal::Int(1), Literal::Null]),
        Value::Null
    ));
}

#[test]
fn in_a_non_list_is_false_like_other_type_mismatches() {
    let expr = Expression::BinaryOp {
        op: BinaryOperator::In,
        left: Box::new(Expression::Literal(Literal::Int(1))),
        right: Box::new(Expression::Literal(Literal::Int(1))),
    };
    assert!(is_bool(&Evaluator::evaluate_with_context(&expr, &EvalContext::new()).unwrap(), false));
}

#[test]
fn every_listed_scalar_function_is_dispatched() {
    for name in scalar_function_names() {
        let outcome = Evaluator::apply_scalar_function(
            name,
            &[Value::String("value".to_string()), Value::String("v".to_string())],
        );
        if let Err(error) = &outcome {
            assert!(
                !error.message().contains("Unknown function"),
                "{name} is listed in SCALAR_FUNCTIONS but the dispatcher does not know it"
            );
        }
    }
}

#[test]
fn an_unlisted_function_is_reported_as_unknown_by_name() {
    let error = Evaluator::apply_scalar_function("frobnicate", &[Value::Int(1)])
        .expect_err("an unimplemented function must not produce a value");
    assert!(error.message().contains("Unknown function"), "{}", error.message());
    assert!(error.message().contains("frobnicate"), "{}", error.message());
    assert!(!scalar_function_names().contains(&"FROBNICATE"));
}

// ----- further cases -----

fn bin(op: BinaryOperator, l: Expression, r: Expression) -> Expression {
    Expression::BinaryOp { op, left: Box::new(l), right: Box::new(r) }
}

fn lit_int(i: i64) -> Expression {
    Expression::Literal(Literal::Int(i))
}

fn string(s: &str) -> Expression {
    Expression::Literal(Literal::String(s.to_string()))
}

#[test]
fn arithmetic_gives_exact_results() {
    let v = Evaluator::evaluate(&bin(BinaryOperator::Add, lit_int(40), lit_int(2))).unwrap();
    assert!(matches!(v, Value::Int(42)));
    let v = Evaluator::evaluate(&bin(BinaryOperator::Sub, lit_int(2), lit_int(40))).unwrap();
    assert!(matches!(v, Value::Int(-38)));
    let v = Evaluator::evaluate(&bin(BinaryOperator::Mul, lit_int(6), lit_int(7))).unwrap();
    assert!(matches!(v, Value::Int(42)));
    let v = Evaluator::evaluate(&bin(BinaryOperator::Div, lit_int(-7), lit_int(2))).unwrap();
    assert!(matches!(v, Value::Int(-3)));
    let v = Evaluator::evaluate(&bin(BinaryOperator::Mod, lit_int(-7), lit_int(2))).unwrap();
    assert!(matches!(v, Value::Int(-1)));
}

#[test]
fn division_by_zero_is_an_error() {
    let e = Evaluator::evaluate(&bin(BinaryOperator::Div, lit_int(1), lit_int(0))).unwrap_err();
    assert!(e.message().starts_with("Invalid operation: "));
}

#[test]
fn string_concatenation_and_tests() {
    let v = Evaluator::evaluate(&bin(BinaryOperator::Add, string("ab"), string("cd"))).unwrap();
    assert!(matches!(v, Value::String(ref s) if s == "abcd"));
    let v = Evaluator::evaluate(&bin(BinaryOperator::StartsWith, string("graph"), string("gr"))).unwrap();
    assert!(is_bool(&v, true));
    let v = Evaluator::evaluate(&bin(BinaryOperator::EndsWith, string("graph"), string("gr"))).unwrap();
    assert!(is_bool(&v, false));
    let v = Evaluator::evaluate(&bin(BinaryOperator::Contains, string("graph"), string("rap"))).unwrap();
    assert!(is_bool(&v, true));
}

#[test]
fn regex_operator_uses_the_pattern_on_the_right() {
    let v = Evaluator::evaluate(&bin(BinaryOperator::Regex, string("abc123"), string("^[a-z]+[0-9]+$"))).unwrap();
    assert!(is_bool(&v, true));
    let v = Evaluator::evaluate(&bin(BinaryOperator::Regex, string("abc"), string("^[0-9]+$"))).unwrap();
    assert!(is_bool(&v, false));
}

#[test]
fn comparison_with_null_is_unknown() {
    let v = Evaluator::evaluate(&bin(BinaryOperator::Lt, Expression::Literal(Literal::Null), lit_int(1))).unwrap();
    assert!(matches!(v, Value::Null));
}

#[test]
fn three_valued_and_or() {
    let null = || Expression::Literal(Literal::Null);
    let t = || Expression::Literal(Literal::Bool(true));
    let f = || Expression::Literal(Literal::Bool(false));
    assert!(is_bool(&Evaluator::evaluate(&bin(BinaryOperator::And, null(), f())).unwrap(), false));
    assert!(matches!(Evaluator::evaluate(&bin(BinaryOperator::And, null(), t())).unwrap(), Value::Null));
    assert!(is_bool(&Evaluator::evaluate(&bin(BinaryOperator::Or, null(), t())).unwrap(), true));
    assert!(matches!(Evaluator::evaluate(&bin(BinaryOperator::Or, f(), null())).unwrap(), Value::Null));
}

#[test]
fn negation_and_not() {
    let neg = Expression::UnaryOp { op: UnaryOperator::Neg, operand: Box::new(lit_int(5)) };
    assert!(matches!(Evaluator::evaluate(&neg).unwrap(), Value::Int(-5)));
    let not = Expression::UnaryOp {
        op: UnaryOperator::Not,
        operand: Box::new(Expression::Literal(Literal::Bool(false))),
    };
    assert!(is_bool(&Evaluator::evaluate(&not).unwrap(), true));
}

#[test]
fn scalar_functions_compute_values() {
    let v = Evaluator::apply_scalar_function("upper", &[Value::String("abc".to_string())]).unwrap();
    assert!(matches!(v, Value::String(ref s) if s == "ABC"));
    let v = Evaluator::apply_scalar_function("LOWER", &[Value::String("AbC".to_string())]).unwrap();
    assert!(matches!(v, Value::String(ref s) if s == "abc"));
    // LENGTH counts UTF-8 bytes.
    let v = Evaluator::apply_scalar_function("length", &[Value::String("héllo".to_string())]).unwrap();
    assert!(matches!(v, Value::Int(6)));
    let v = Evaluator::apply_scalar_function("abs", &[Value::Int(-4)]).unwrap();
    assert!(matches!(v, Value::Int(4)));
    let v = Evaluator::apply_scalar_function("coalesce", &[Value::Null, Value::Int(3)]).unwrap();
    assert!(matches!(v, Value::Int(3)));
    let v = Evaluator::apply_scalar_function("is_null", &[Value::Null]).unwrap();
    assert!(is_bool(&v, true));
}

#[test]
fn unknown_identifier_is_an_error() {
    let e = Evaluator::evaluate_with_context(&Expression::Identifier("nope".to_string()), &EvalContext::new());
    assert!(e.is_err());
}

#[test]
fn where_condition_treats_null_as_false() {
    let cond = bin(BinaryOperator::Eq, Expression::Literal(Literal::Null), lit_int(1));
    assert!(!Evaluator::evaluate_condition(&cond, &EvalContext::new()).unwrap());
    let e = Evaluator::evaluate_condition(&lit_int(1), &EvalContext::new());
    assert!(e.is_err());
}

#[test]
fn overflow_is_reported_as_none() {
    let expr = bin(BinaryOperator::Add, lit_int(i64::MAX), lit_int(1));
    assert!(Evaluator::try_evaluate_with_context(&expr, &EvalContext::new()).is_none());
    let ok = bin(BinaryOperator::Add, lit_int(1), lit_int(1));
    assert!(Evaluator::try_evaluate_with_context(&ok, &EvalContext::new()).is_some());
}
