use byoridb_executor::provenance::ExplainRow;
use byoridb_executor::tables::{consistency_result, explain_result, users_result};
use byoridb_executor::value::Value;

#[test]
fn explain_table_headers_and_not_found_row() {
    let rows = vec![ExplainRow {
        depth: 0,
        fact: "1 -knows-> 2".to_string(),
        status: "not found".to_string(),
        rule: "\u{2014}".to_string(),
        premises: "\u{2014}".to_string(),
    }];
    let r = explain_result(rows);
    assert_eq!(r.columns, vec!["depth", "fact", "status", "rule", "premises"]);
    assert!(matches!(r.rows[0][0], Value::Int(0)));
    assert!(matches!(&r.rows[0][2], Value::String(s) if s == "not found"));
}

#[test]
fn users_table_headers() {
    let r = users_result(vec![("alice".to_string(), "".to_string()), ("root".to_string(), "GOD".to_string())]);
    assert_eq!(r.columns, vec!["Name", "Role"]);
    assert!(matches!(&r.rows[1][1], Value::String(s) if s == "GOD"));
}

#[test]
fn consistency_table_lists_each_violation_with_its_vertex() {
    let r = consistency_result(&vec![
        (Value::Int(2), vec![("city".to_string(), "person".to_string())]),
        (Value::Int(3), vec![]),
    ]);
    assert_eq!(r.columns, vec!["vid", "class_a", "class_b"]);
    assert_eq!(r.rows.len(), 1);
    assert!(matches!(r.rows[0][0], Value::Int(2)));
    assert!(matches!(&r.rows[0][1], Value::String(s) if s == "city"));
    assert!(matches!(&r.rows[0][2], Value::String(s) if s == "person"));
}
