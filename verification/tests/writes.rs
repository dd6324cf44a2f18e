use byoridb_executor::expr::{BinaryOperator, Expression, Literal};
use byoridb_executor::writes::update_writes;
use byoridb_executor::dml::SchemaField;
use byoridb_executor::error::ExecutionError;
use byoridb_executor::records::TagRecord;
use byoridb_executor::shape::{ShapeConstraint, ShapeConstraintKind, ShapeDef};
use byoridb_executor::value::{PropMap, Value};
use byoridb_executor::writes::{insert_writes, KvWrite, VertexInsert};

fn person(vid: i64, props: Vec<(&str, Value)>) -> VertexInsert {
    let mut m = PropMap::new();
    for (k, v) in props {
        m.insert(k.to_string(), v);
    }
    VertexInsert {
        vid,
        vid_text: vid.to_string(),
        tags: vec![TagRecord { name: "person".to_string(), properties: m }],
        schemas: vec![Some(vec![
            SchemaField { name: "name".to_string(), data_type: Some("String".to_string()) },
            SchemaField { name: "age".to_string(), data_type: Some("Int64".to_string()) },
        ])],
        ancestors: vec!["agent".to_string()],
    }
}

fn keys(ws: &[KvWrite]) -> Vec<String> {
    ws.iter()
        .map(|w| match w {
            KvWrite::Current { key, vertex } => format!("cur {} #{}", key, vertex),
            KvWrite::History { key, vertex } => format!("hist {} #{}", key, vertex),
            KvWrite::Marker { key } => format!("mark {}", key),
        })
        .collect()
}

#[test]
fn insert_writes_current_history_and_markers() {
    let vs = vec![person(1, vec![("name", Value::String("a".to_string()))]), person(2, vec![])];
    let ws = insert_writes("g", &vs, &vec![]).unwrap().unwrap();
    assert_eq!(
        keys(&ws),
        vec![
            "cur g:vertex:1 #0",
            "hist g:vertex:1 #0",
            "mark g:tagvid:person:1",
            "cur g:vertex:2 #1",
            "hist g:vertex:2 #1",
            "mark g:tagvid:person:2",
        ]
    );
}

#[test]
fn insert_writes_nothing_when_a_vertex_fails() {
    let mut bad = person(2, vec![]);
    bad.schemas = vec![None];
    let vs = vec![person(1, vec![]), bad];
    match insert_writes("g", &vs, &vec![]) {
        Some(Err(ExecutionError::TagNotFound(n))) => assert_eq!(n, "person"),
        other => panic!("unexpected {:?}", other.map(|r| r.map(|w| w.len()))),
    }
    let vs = vec![person(1, vec![("age", Value::String("x".to_string()))])];
    assert!(matches!(insert_writes("g", &vs, &vec![]), Some(Err(ExecutionError::TypeMismatch(_)))));
}

#[test]
fn insert_writes_checks_shapes_on_ancestor_classes() {
    let shape = ShapeDef {
        name: "needs_name".to_string(),
        target_class: "agent".to_string(),
        constraints: vec![ShapeConstraint { property: "name".to_string(), kind: ShapeConstraintKind::Required }],
    };
    let vs = vec![person(1, vec![("age", Value::Int(3))])];
    match insert_writes("g", &vs, &vec![shape]) {
        Some(Err(ExecutionError::InvalidOperation(m))) => {
            assert_eq!(m, "shape needs_name violated on property name: required property is missing")
        }
        other => panic!("unexpected {:?}", other.map(|r| r.map(|w| w.len()))),
    }
}

#[test]
fn update_writes_current_and_history_or_nothing() {
    let fields = vec![SchemaField { name: "age".to_string(), data_type: Some("Int64".to_string()) }];
    let mut updates = PropMap::new();
    updates.insert("age".to_string(), Value::Int(31));
    let stored = vec![TagRecord { name: "person".to_string(), properties: PropMap::new() }];
    let (tags, ws) = update_writes("g", 7, "person", &updates, Some(&fields), Some(stored), None, &vec![], &vec![])
        .unwrap()
        .unwrap()
        .unwrap();
    assert!(matches!(tags[0].properties.get("age"), Some(Value::Int(31))));
    assert_eq!(keys(&ws), vec!["cur g:vertex:7 #0", "hist g:vertex:7 #0"]);
    let cond = Expression::Literal(Literal::Bool(true));
    let _ = BinaryOperator::Gt;
    // A conditional update of a vertex that is not stored does nothing.
    assert!(matches!(
        update_writes("g", 7, "person", &updates, Some(&fields), None, Some(&cond), &vec![], &vec![]),
        Some(Ok(None))
    ));
    assert!(matches!(
        update_writes("g", 7, "person", &updates, None, None, None, &vec![], &vec![]),
        Some(Err(ExecutionError::TagNotFound(_)))
    ));
}
