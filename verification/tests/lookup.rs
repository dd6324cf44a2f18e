use byoridb_executor::config::ExecutionConfig;
use byoridb_executor::expr::{BinaryOperator, Expression, Literal, UnaryOperator};
use byoridb_executor::lookup::{
    distributed_lookup_fetch_selection, ensure_index_window_satisfied, expr_to_value,
    extract_eq_condition, extract_range_condition, field_name_of, lookup_window,
    stable_dedupe_vids, covering_index, lookup_columns, lookup_route, gather_partition_candidates, IndexDef, LookupWindow,
    RangeOperator,
};
use byoridb_executor::value::Value;

fn config(max_scan_limit: usize) -> ExecutionConfig {
    ExecutionConfig { max_scan_limit, ..ExecutionConfig::default() }
}

#[test]
fn window_with_explicit_limit() {
    let w = lookup_window(&config(100), Some(5), Some(10)).unwrap();
    assert_eq!(w.offset, 5);
    assert_eq!(w.limit, Some(10));
    assert_eq!(w.fetch_limit, Some(15));
    assert_eq!(w.index_limit, Some(100));
}

#[test]
fn window_defaults_to_scan_cap() {
    let w = lookup_window(&config(100), None, None).unwrap();
    assert_eq!(w.offset, 0);
    assert_eq!(w.limit, Some(100));
    assert_eq!(w.fetch_limit, Some(100));
    assert_eq!(w.index_limit, Some(100));
    let w = lookup_window(&config(100), Some(500), Some(10)).unwrap();
    assert_eq!(w.index_limit, Some(510));
}

#[test]
fn window_without_any_cap() {
    let w = lookup_window(&config(0), Some(3), None).unwrap();
    assert_eq!(w.limit, None);
    assert_eq!(w.fetch_limit, None);
    assert_eq!(w.index_limit, None);
}

#[test]
fn window_overflow_is_rejected() {
    let e = lookup_window(&config(0), Some(usize::MAX), Some(1)).unwrap_err();
    assert_eq!(e.message(), "Invalid operation: LOOKUP OFFSET + LIMIT exceeds the platform size");
}

#[test]
fn apply_skips_and_takes() {
    let w = LookupWindow { offset: 1, limit: Some(2), fetch_limit: Some(3), index_limit: None };
    assert_eq!(w.apply(vec![10, 20, 30, 40]), vec![20, 30]);
    let w = LookupWindow { offset: 5, limit: None, fetch_limit: None, index_limit: None };
    assert_eq!(w.apply(vec![1, 2]), Vec::<i32>::new());
    let w = LookupWindow { offset: 0, limit: None, fetch_limit: None, index_limit: None };
    assert_eq!(w.apply(vec![1, 2]), vec![1, 2]);
}

#[test]
fn satisfied_once_enough_rows_are_decoded() {
    let w = LookupWindow { offset: 0, limit: Some(2), fetch_limit: Some(2), index_limit: None };
    assert!(!w.is_satisfied(1));
    assert!(w.is_satisfied(2));
    let open = LookupWindow { offset: 0, limit: None, fetch_limit: None, index_limit: None };
    assert!(!open.is_satisfied(1000));
}

#[test]
fn index_limit_must_fit_in_u32() {
    let w = LookupWindow { offset: 0, limit: None, fetch_limit: None, index_limit: Some(7) };
    assert_eq!(w.index_limit_u32().unwrap(), 7);
    let none = LookupWindow { offset: 0, limit: None, fetch_limit: None, index_limit: None };
    assert_eq!(none.index_limit_u32().unwrap(), u32::MAX);
    let big = LookupWindow { offset: 0, limit: None, fetch_limit: None, index_limit: Some(5_000_000_000) };
    assert_eq!(
        big.index_limit_u32().unwrap_err().message(),
        "Invalid operation: LOOKUP OFFSET + LIMIT exceeds the distributed query limit: 5000000000"
    );
}

#[test]
fn capped_scan_that_cannot_fill_the_window_fails() {
    let w = LookupWindow { offset: 0, limit: Some(5), fetch_limit: Some(5), index_limit: Some(5) };
    assert!(ensure_index_window_satisfied(w, false, 1).is_ok());
    assert!(ensure_index_window_satisfied(w, true, 5).is_ok());
    let e = ensure_index_window_satisfied(w, true, 3).unwrap_err();
    assert_eq!(
        e.message(),
        "Resource exhausted: LOOKUP index candidate scan reached its safety cap after decoding 3 rows"
    );
}

#[test]
fn dedupe_keeps_first_occurrences_in_order() {
    assert_eq!(stable_dedupe_vids(vec![3, 1, 3, 2, 1, 4]), vec![3, 1, 2, 4]);
    assert_eq!(stable_dedupe_vids(vec![]), Vec::<i64>::new());
}

#[test]
fn fetch_selection_asks_for_everything() {
    let (tags, props) = distributed_lookup_fetch_selection();
    assert!(tags.is_empty() && props.is_empty());
}

fn ident(s: &str) -> Expression {
    Expression::Identifier(s.to_string())
}

fn prop(o: &str, p: &str) -> Expression {
    Expression::PropRef { object: o.to_string(), prop: p.to_string() }
}

fn lit_int(i: i64) -> Expression {
    Expression::Literal(Literal::Int(i))
}

fn bin(op: BinaryOperator, l: Expression, r: Expression) -> Expression {
    Expression::BinaryOp { op, left: Box::new(l), right: Box::new(r) }
}

#[test]
fn field_names_of_identifiers_and_property_references() {
    assert_eq!(field_name_of(&ident("name")).as_deref(), Some("name"));
    assert_eq!(field_name_of(&prop("person", "age")).as_deref(), Some("age"));
    assert_eq!(field_name_of(&lit_int(1)), None);
}

#[test]
fn constants_include_negated_integers() {
    assert!(matches!(expr_to_value(&lit_int(5)), Some(Value::Int(5))));
    let neg = Expression::UnaryOp { op: UnaryOperator::Neg, operand: Box::new(lit_int(5)) };
    assert!(matches!(expr_to_value(&neg), Some(Value::Int(-5))));
    let not = Expression::UnaryOp { op: UnaryOperator::Not, operand: Box::new(lit_int(5)) };
    assert!(expr_to_value(&not).is_none());
    assert!(expr_to_value(&ident("x")).is_none());
}

#[test]
fn equality_condition_either_way_round() {
    let (f, v) = extract_eq_condition(&bin(BinaryOperator::Eq, prop("person", "name"), Expression::Literal(Literal::String("Ann".to_string())))).unwrap();
    assert_eq!(f, "name");
    assert!(matches!(v, Value::String(ref s) if s == "Ann"));
    let (f, v) = extract_eq_condition(&bin(BinaryOperator::Eq, lit_int(3), ident("age"))).unwrap();
    assert_eq!(f, "age");
    assert!(matches!(v, Value::Int(3)));
    assert!(extract_eq_condition(&bin(BinaryOperator::Lt, ident("age"), lit_int(3))).is_none());
}

#[test]
fn range_condition_puts_the_field_on_the_left() {
    let (f, v, op) = extract_range_condition(&bin(BinaryOperator::Lt, lit_int(30), prop("person", "age"))).unwrap();
    assert_eq!(f, "age");
    assert!(matches!(v, Value::Int(30)));
    assert_eq!(op, RangeOperator::GreaterThan);
    let (_, _, op) = extract_range_condition(&bin(BinaryOperator::Gte, ident("age"), lit_int(1))).unwrap();
    assert_eq!(op, RangeOperator::GreaterThanOrEqual);
    assert!(extract_range_condition(&bin(BinaryOperator::Eq, ident("age"), lit_int(1))).is_none());
    assert!(extract_range_condition(&bin(BinaryOperator::Lt, ident("a"), ident("b"))).is_none());
}

#[test]
fn covering_index_picks_first_single_field_index_on_tag() {
    let indexes = vec![
        IndexDef { index_name: "multi".to_string(), schema_name: "person".to_string(), fields: vec!["name".to_string(), "age".to_string()] },
        IndexDef { index_name: "other".to_string(), schema_name: "city".to_string(), fields: vec!["name".to_string()] },
        IndexDef { index_name: "by_name".to_string(), schema_name: "PERSON".to_string(), fields: vec!["name".to_string()] },
        IndexDef { index_name: "later".to_string(), schema_name: "person".to_string(), fields: vec!["name".to_string()] },
    ];
    assert_eq!(covering_index(&indexes, "person", "name"), Some(2));
    assert_eq!(covering_index(&indexes, "person", "age"), None);
}

#[test]
fn gather_partition_candidates_dedupes_and_flags_cap() {
    let parts = vec![Some(vec![3, 1]), Some(vec![1, 4, 5])];
    assert_eq!(gather_partition_candidates(&parts, Some(3)), Some((vec![3, 1, 4, 5], true)));
    assert_eq!(gather_partition_candidates(&parts, Some(4)), Some((vec![3, 1, 4, 5], false)));
    assert_eq!(gather_partition_candidates(&parts, None), Some((vec![3, 1, 4, 5], false)));
}

#[test]
fn gather_partition_candidates_discards_partial_results() {
    let parts = vec![Some(vec![3, 1]), None, Some(vec![9])];
    assert_eq!(gather_partition_candidates(&parts, None), None);
}

#[test]
fn lookup_route_prefers_range_then_equality_indexes() {
    let cfg = config(1000);
    let idx = vec![IndexDef { index_name: "i".to_string(), schema_name: "person".to_string(), fields: vec!["age".to_string()] }];
    let gt = Expression::BinaryOp {
        op: BinaryOperator::Gt,
        left: Box::new(Expression::Identifier("age".to_string())),
        right: Box::new(Expression::Literal(Literal::Int(3))),
    };
    let route = lookup_route("person", true, false, &cfg, None, Some(5), Some(&gt), Some(&idx)).unwrap().unwrap();
    assert!(matches!(route.range, Some((0, _, _, RangeOperator::GreaterThan))));
    assert!(route.eq.is_none());
    assert_eq!(route.window.limit, Some(5));
    let eq = Expression::BinaryOp {
        op: BinaryOperator::Eq,
        left: Box::new(Expression::Identifier("age".to_string())),
        right: Box::new(Expression::Literal(Literal::Int(3))),
    };
    let route = lookup_route("person", true, false, &cfg, None, None, Some(&eq), Some(&idx)).unwrap().unwrap();
    assert!(route.range.is_none());
    assert!(matches!(route.eq, Some((0, _, Value::Int(3)))));
    assert!(lookup_route("person", true, false, &cfg, None, Some(0), None, None).unwrap().is_none());
    match lookup_route("knows", false, true, &cfg, None, None, None, None) {
        Err(e) => assert_eq!(
            e.message(),
            "Invalid operation: LOOKUP ON edge type 'knows' is not supported yet \u{2014} only tag LOOKUP is implemented"
        ),
        Ok(_) => panic!("edge lookup must be refused"),
    }
    assert_eq!(lookup_columns("person"), vec!["person.vid", "person.*"]);
}
