use byoridb_executor::expr::{BinaryOperator, EvalContext, Expression, Literal};
use byoridb_executor::shape::{
    convert_ast_type_to_meta, data_type_name, format_data_type, format_vid_type,
    shape_violations, try_shape_violations, value_assignable, value_matches_type, DataType,
    ShapeConstraint, ShapeConstraintKind, ShapeDef, VidType,
};
use byoridb_executor::value::{PropMap, Value};

fn shape(constraints: Vec<ShapeConstraint>) -> ShapeDef {
    ShapeDef { name: "s".to_string(), target_class: "person".to_string(), constraints }
}

fn ctx(props: Vec<(&str, Value)>) -> EvalContext {
    let mut m = PropMap::new();
    for (k, v) in props {
        m.insert(k.to_string(), v);
    }
    EvalContext::new().with_current(m)
}

#[test]
fn required_constraint_rejects_missing_property() {
    let s = shape(vec![ShapeConstraint { property: "email".to_string(), kind: ShapeConstraintKind::Required }]);
    assert!(shape_violations(&s, &ctx(vec![("email", Value::String("a@b.com".to_string()))])).is_empty());
    let v = shape_violations(&s, &ctx(vec![("age", Value::Int(30))]));
    assert_eq!(v, vec![("email".to_string(), "required property is missing".to_string())]);
    let v = shape_violations(&s, &ctx(vec![("email", Value::Null)]));
    assert_eq!(v.len(), 1);
}

#[test]
fn datatype_constraint_rejects_wrong_type() {
    let s = shape(vec![ShapeConstraint {
        property: "age".to_string(),
        kind: ShapeConstraintKind::DataType(DataType::Int64),
    }]);
    let v = shape_violations(&s, &ctx(vec![("age", Value::String("notanint".to_string()))]));
    assert_eq!(v, vec![("age".to_string(), "expected type Int64".to_string())]);
    assert!(shape_violations(&s, &ctx(vec![("age", Value::Int(3))])).is_empty());
    assert!(shape_violations(&s, &ctx(vec![])).is_empty());
}

#[test]
fn predicate_constraint_enforces_value_range() {
    let check = Expression::BinaryOp {
        op: BinaryOperator::Gte,
        left: Box::new(Expression::Identifier("age".to_string())),
        right: Box::new(Expression::Literal(Literal::Int(0))),
    };
    let s = shape(vec![ShapeConstraint { property: "age".to_string(), kind: ShapeConstraintKind::Predicate(check) }]);
    assert!(shape_violations(&s, &ctx(vec![("age", Value::Int(30))])).is_empty());
    let v = shape_violations(&s, &ctx(vec![("age", Value::Int(-1))]));
    assert_eq!(v, vec![("age".to_string(), "value predicate not satisfied".to_string())]);
    // A missing property makes the predicate fail to evaluate: a violation.
    assert_eq!(shape_violations(&s, &ctx(vec![])).len(), 1);
    assert_eq!(try_shape_violations(&s, &ctx(vec![("age", Value::Int(-1))])).unwrap().len(), 1);
}

#[test]
fn no_constraints_is_a_noop() {
    assert!(shape_violations(&shape(vec![]), &ctx(vec![])).is_empty());
}

#[test]
fn type_compatibility() {
    assert!(value_matches_type(&Value::Int(1), &DataType::Double));
    assert!(!value_matches_type(&Value::Int(1), &DataType::String));
    assert!(value_matches_type(&Value::String("x".to_string()), &DataType::FixedString(8)));
    assert!(value_matches_type(&Value::Null, &DataType::Bool));
    assert!(!value_matches_type(&Value::Bool(true), &DataType::Int8));
    assert_eq!(data_type_name(&DataType::FixedString(10)), "FixedString(10)");
}

#[test]
fn formats_column_types_for_listings() {
    assert_eq!(format_data_type(&DataType::Int64), "INT64");
    assert_eq!(format_data_type(&DataType::DateTime), "DATETIME");
    assert_eq!(format_data_type(&DataType::FixedString(32)), "FIXED_STRING(32)");
    assert_eq!(format_data_type(&DataType::Geography), "GEOGRAPHY");
}

#[test]
fn formats_vid_types() {
    assert_eq!(format_vid_type(&VidType::Int64), "INT64");
    assert_eq!(format_vid_type(&VidType::FixedString(8)), "FIXED_STRING(8)");
    assert_eq!(format_vid_type(&VidType::FixedString(0)), "FIXED_STRING(0)");
}

#[test]
fn unsupported_declared_types_are_stored_as_string() {
    assert_eq!(convert_ast_type_to_meta(DataType::Int64), DataType::Int64);
    assert_eq!(convert_ast_type_to_meta(DataType::Float), DataType::Float);
    assert_eq!(convert_ast_type_to_meta(DataType::Int8), DataType::String);
    assert_eq!(convert_ast_type_to_meta(DataType::Geography), DataType::String);
    assert_eq!(convert_ast_type_to_meta(DataType::FixedString(4)), DataType::String);
}

#[test]
fn assignability_of_values_to_column_types() {
    assert!(value_assignable(&Value::Null, Some("Int64")));
    assert!(value_assignable(&Value::Int(3), Some("Int64")));
    assert!(value_assignable(&Value::Int(3), Some("Timestamp")));
    assert!(!value_assignable(&Value::Int(3), Some("String")));
    assert!(value_assignable(&Value::String("x".to_string()), Some("Date")));
    assert!(!value_assignable(&Value::String("x".to_string()), Some("Bool")));
    assert!(value_assignable(&Value::Bool(true), Some("Bool")));
    assert!(!value_assignable(&Value::Bool(true), Some("Int8")));
    assert!(value_assignable(&Value::Int(3), None));
}
