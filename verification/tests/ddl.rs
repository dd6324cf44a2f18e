use byoridb_executor::ddl::{drop_decision, space_purge_keys, DropKind};
use byoridb_executor::error::ExecutionError;
use byoridb_executor::ddl::{
    apply_alter_operations, convert_expr_to_string, validate_add_column, AlterColumnOp,
    AlterOpType, PropertyDef, SchemaColumn,
};
use byoridb_executor::dml::SchemaKind;
use byoridb_executor::expr::{Expression, Literal};
use byoridb_executor::shape::DataType;

fn prop(name: &str, data_type: DataType, nullable: bool, default_value: Option<Expression>) -> PropertyDef {
    PropertyDef { name: name.to_string(), data_type, nullable, default_value }
}

#[test]
fn added_column_needs_null_or_default() {
    let p = prop("age", DataType::Int64, false, None);
    let e = validate_add_column(&p).unwrap_err();
    assert_eq!(
        e.message(),
        "Invalid operation: Column 'age' must be nullable or have a default value for ADD COLUMN"
    );
    let p = prop("age", DataType::Int64, true, None);
    assert!(validate_add_column(&p).is_ok());
    let p = prop("age", DataType::Int64, false, Some(Expression::Literal(Literal::Int(0))));
    assert!(validate_add_column(&p).is_ok());
}

#[test]
fn defaults_render_as_text() {
    let s = |l: Literal| convert_expr_to_string(&Expression::Literal(l)).unwrap();
    assert_eq!(s(Literal::Int(-15)), "-15");
    assert_eq!(s(Literal::Bool(true)), "true");
    assert_eq!(s(Literal::Null), "null");
    assert_eq!(s(Literal::String("x".to_string())), "x");
    let e = convert_expr_to_string(&Expression::Identifier("a".to_string())).unwrap_err();
    assert_eq!(e.message(), "Invalid operation: Default value must be a literal");
}

fn column(name: &str, data_type: &str, nullable: bool) -> SchemaColumn {
    SchemaColumn { name: name.to_string(), data_type: data_type.to_string(), nullable, default_value: None }
}

fn op(op_type: AlterOpType, p: PropertyDef) -> AlterColumnOp {
    AlterColumnOp { op_type, prop: p }
}

#[test]
fn test_alter_tag_success() {
    let cols = vec![column("id", "Int64", false)];
    let ops = vec![op(AlterOpType::AddColumn, prop("age", DataType::Int32, true, None))];
    let out = apply_alter_operations(cols, ops, SchemaKind::Tag, "player").unwrap();
    assert_eq!(out.len(), 2);
    assert_eq!(out[1].name, "age");
    assert_eq!(out[1].data_type, "Int32");
    assert!(out[1].nullable);
}

#[test]
fn test_alter_tag_duplicate_column() {
    let cols = vec![column("age", "Int32", true)];
    let ops = vec![op(AlterOpType::AddColumn, prop("age", DataType::Int32, true, None))];
    let err = apply_alter_operations(cols, ops, SchemaKind::Tag, "player_dup").unwrap_err();
    let msg = err.message();
    assert!(msg.contains("already exists"));
    assert_eq!(msg, "Invalid operation: Column 'age' already exists in tag 'player_dup'");
}

#[test]
fn test_alter_tag_validation_non_null_no_default() {
    let ops = vec![op(AlterOpType::AddColumn, prop("score", DataType::Int64, false, None))];
    let err = apply_alter_operations(vec![], ops, SchemaKind::Tag, "player_val").unwrap_err();
    assert!(err.message().contains("must be nullable or have a default"));
}

#[test]
fn drop_and_change_need_an_existing_column() {
    let cols = vec![column("a", "Int64", false), column("b", "String", true)];
    let ops = vec![
        op(AlterOpType::ChangeColumn, prop("b", DataType::FixedString(8), false, None)),
        op(AlterOpType::DropColumn, prop("a", DataType::Int64, true, None)),
    ];
    let out = apply_alter_operations(cols, ops, SchemaKind::Edge, "follow").unwrap();
    assert_eq!(out.len(), 1);
    assert_eq!(out[0].name, "b");
    assert_eq!(out[0].data_type, "FixedString(8)");
    assert!(!out[0].nullable);

    let cols = vec![column("a", "Int64", false)];
    let ops = vec![op(AlterOpType::DropColumn, prop("z", DataType::Int64, true, None))];
    let err = apply_alter_operations(cols, ops, SchemaKind::Edge, "follow").unwrap_err();
    assert_eq!(err.message(), "Invalid operation: Column 'z' does not exist in edge 'follow'");

    let ops = vec![op(AlterOpType::ChangeColumn, prop("z", DataType::Int64, true, None))];
    let err = apply_alter_operations(vec![], ops, SchemaKind::Tag, "t").unwrap_err();
    assert_eq!(err.message(), "Invalid operation: Column 'z' does not exist in tag 't'");
}

#[test]
fn the_first_failing_operation_stops_the_rest() {
    let cols = vec![column("a", "Int64", false)];
    let ops = vec![
        op(AlterOpType::DropColumn, prop("a", DataType::Int64, true, None)),
        op(AlterOpType::DropColumn, prop("a", DataType::Int64, true, None)),
        op(AlterOpType::AddColumn, prop("a", DataType::Int64, true, None)),
    ];
    let err = apply_alter_operations(cols, ops, SchemaKind::Tag, "t").unwrap_err();
    assert_eq!(err.message(), "Invalid operation: Column 'a' does not exist in tag 't'");
}

use byoridb_executor::ddl::{schema_json_to_create_ddl, DdlField};

#[test]
fn show_create_renders_the_schema() {
    let fields = vec![
        DdlField { name: "name".to_string(), data_type: Some("String".to_string()), nullable: Some(false), default_text: None },
        DdlField { name: "age".to_string(), data_type: Some("Int64".to_string()), nullable: None, default_text: Some("3".to_string()) },
        DdlField { name: "x".to_string(), data_type: None, nullable: Some(true), default_text: None },
    ];
    assert_eq!(
        schema_json_to_create_ddl("player", "TAG", &fields),
        "CREATE TAG player (name STRING NOT NULL, age INT64 DEFAULT 3, x STRING)"
    );
    assert_eq!(schema_json_to_create_ddl("follow", "EDGE", &vec![]), "CREATE EDGE follow ()");
}

#[test]
fn drop_decisions() {
    assert!(matches!(drop_decision(DropKind::Edge, "sameAs", true, false, true), Err(ExecutionError::InvalidOperation(_))));
    assert!(matches!(drop_decision(DropKind::Space, "g", false, false, true), Ok(false)));
    match drop_decision(DropKind::Tag, "t", false, false, false) {
        Err(ExecutionError::TagNotFound(n)) => assert_eq!(n, "t"),
        other => panic!("unexpected {:?}", other),
    }
    match drop_decision(DropKind::Tag, "person", true, true, false) {
        Err(ExecutionError::InvalidOperation(m)) => assert_eq!(m, "person is a class; use DROP CLASS"),
        other => panic!("unexpected {:?}", other),
    }
    assert!(matches!(drop_decision(DropKind::Edge, "knows", true, false, false), Ok(true)));
    assert_eq!(space_purge_keys("g"), ("g:".to_string(), "space:g:".to_string(), "space:g".to_string()));
}
