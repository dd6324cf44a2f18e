use byoridb_executor::dml::delete_plan;
use byoridb_executor::dml::{apply_update, condition_applies, delete_guard};
use byoridb_executor::error::ErrorKind;
use byoridb_executor::expr::{BinaryOperator, Expression, Literal};
use byoridb_executor::records::TagRecord;
use byoridb_executor::value::{PropMap, Value};

fn props(kv: Vec<(&str, Value)>) -> PropMap {
    let mut m = PropMap::new();
    for (k, v) in kv {
        m.insert(k.to_string(), v);
    }
    m
}

fn tag(name: &str, kv: Vec<(&str, Value)>) -> TagRecord {
    TagRecord { name: name.to_string(), properties: props(kv) }
}

fn gt(field: &str, n: i64) -> Expression {
    Expression::BinaryOp {
        op: BinaryOperator::Gt,
        left: Box::new(Expression::Identifier(field.to_string())),
        right: Box::new(Expression::Literal(Literal::Int(n))),
    }
}

#[test]
fn unconditional_statements_always_apply() {
    assert!(condition_applies(None, None).unwrap().unwrap());
    let v = vec![tag("player", vec![("age", Value::Int(30))])];
    assert!(condition_applies(Some(&v), None).unwrap().unwrap());
}

#[test]
fn conditions_read_the_stored_vertex() {
    let v = vec![tag("player", vec![("age", Value::Int(30))])];
    assert!(condition_applies(Some(&v), Some(&gt("age", 20))).unwrap().unwrap());
    assert!(!condition_applies(Some(&v), Some(&gt("player.age", 40))).unwrap().unwrap());
    // A vertex that is not there never satisfies a condition.
    assert!(!condition_applies(None, Some(&gt("age", 20))).unwrap().unwrap());
    // DELETE VERTEX 1 WHERE false deletes nothing.
    let f = Expression::Literal(Literal::Bool(false));
    assert!(!condition_applies(Some(&v), Some(&f)).unwrap().unwrap());
    let bad = Expression::Literal(Literal::Int(1));
    let err = condition_applies(Some(&v), Some(&bad)).unwrap().unwrap_err();
    assert_eq!(err.kind(), ErrorKind::TypeMismatch);
}

#[test]
fn update_sets_values_in_the_named_tag() {
    let v = vec![
        tag("player", vec![("age", Value::Int(30)), ("name", Value::String("a".to_string()))]),
        tag("coach", vec![("age", Value::Int(50))]),
    ];
    let out = apply_update(v, "player", &props(vec![("age", Value::Int(31))]));
    assert_eq!(out.len(), 2);
    assert!(matches!(out[0].properties.get("age"), Some(Value::Int(31))));
    assert!(matches!(out[0].properties.get("name"), Some(Value::String(s)) if s == "a"));
    assert!(matches!(out[1].properties.get("age"), Some(Value::Int(50))));
}

#[test]
fn update_adds_a_missing_tag() {
    let v = vec![tag("player", vec![("age", Value::Int(30))])];
    let out = apply_update(v, "fan", &props(vec![("team", Value::String("x".to_string()))]));
    assert_eq!(out.len(), 2);
    assert_eq!(out[1].name, "fan");
    assert!(matches!(out[1].properties.get("team"), Some(Value::String(s)) if s == "x"));
    assert_eq!(out[1].properties.len(), 1);
}

#[test]
fn delete_refuses_vertices_in_sameas_merges() {
    assert!(delete_guard(5, 5, false).is_ok());
    let err = delete_guard(7, 5, false).unwrap_err();
    assert_eq!(
        err.message(),
        "Invalid operation: vertex 7 was merged into representative 5 via owl:sameAs; deletion is unsupported (insertion-only)"
    );
    let err = delete_guard(5, 5, true).unwrap_err();
    assert_eq!(
        err.message(),
        "Invalid operation: vertex 5 is a sameAs representative with merged members; deletion is unsupported (insertion-only)"
    );
}

use byoridb_executor::dml::{validate_props, SchemaField, SchemaKind};

fn fields() -> Vec<SchemaField> {
    vec![
        SchemaField { name: "name".to_string(), data_type: Some("String".to_string()) },
        SchemaField { name: "age".to_string(), data_type: Some("Int64".to_string()) },
        SchemaField { name: "loc".to_string(), data_type: None },
    ]
}

#[test]
fn declared_props_of_fitting_types_pass() {
    let p = props(vec![
        ("name", Value::String("a".to_string())),
        ("age", Value::Int(3)),
        ("loc", Value::Bool(true)),
        ("name", Value::Null),
    ]);
    assert!(validate_props(SchemaKind::Tag, "player", &fields(), &p).is_ok());
}

#[test]
fn undeclared_props_are_refused() {
    let p = props(vec![("height", Value::Int(2))]);
    let err = validate_props(SchemaKind::Tag, "player", &fields(), &p).unwrap_err();
    assert_eq!(err.message(), "Invalid operation: Tag 'player' has no field 'height'");
    let err = validate_props(SchemaKind::Edge, "follow", &fields(), &p).unwrap_err();
    assert_eq!(err.message(), "Invalid operation: Edge type 'follow' has no field 'height'");
}

#[test]
fn misfit_values_are_type_mismatches() {
    let p = props(vec![("age", Value::String("old".to_string()))]);
    let err = validate_props(SchemaKind::Tag, "player", &fields(), &p).unwrap_err();
    assert_eq!(err.kind(), ErrorKind::TypeMismatch);
    assert!(err
        .message()
        .starts_with("Type mismatch: field 'age' of tag 'player' expects type \"Int64\", got "));
    assert_eq!(err.message(), "Type mismatch: field 'age' of tag 'player' expects type \"Int64\", got String(\"old\")");
}

#[test]
fn delete_plan_guards_then_filters_stored_vertices() {
    let old = vec![tag("player", vec![("age", Value::Int(30))])];
    let young = vec![tag("player", vec![("age", Value::Int(10))])];
    let vids = vec![1, 2, 3, 4];
    let reps = vec![1, 2, 3, 4];
    let members = vec![false, false, false, false];
    let stored = vec![Some(Some(old)), Some(Some(young)), None, Some(None)];
    let kept = delete_plan(&vids, &reps, &members, &stored, Some(&gt("age", 20))).unwrap().unwrap();
    assert_eq!(kept, vec![0]);
    let all = delete_plan(&vids, &reps, &members, &stored, None).unwrap().unwrap();
    assert_eq!(all, vec![0, 1, 3]);
    let merged = delete_plan(&vec![5, 6], &vec![5, 1], &vec![false, false], &vec![None, None], None);
    match merged {
        Some(Err(byoridb_executor::error::ExecutionError::InvalidOperation(m))) => assert_eq!(
            m,
            "vertex 6 was merged into representative 1 via owl:sameAs; deletion is unsupported (insertion-only)"
        ),
        other => panic!("unexpected {:?}", other),
    }
}
