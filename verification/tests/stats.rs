use byoridb_executor::stats::{stats_counts, stats_result, VertexScan};
use byoridb_executor::value::Value;

fn cell(v: &Value) -> String {
    match v {
        Value::String(s) => s.clone(),
        Value::Int(i) => i.to_string(),
        other => panic!("unexpected cell {:?}", other),
    }
}

#[test]
fn show_stats_counts_by_first_tag_and_edge_type_with_declared_zeros() {
    let tags = vec!["person".to_string(), "city".to_string()];
    let vertices = vec![
        VertexScan::Tagged("person".to_string()),
        VertexScan::Tagged("person".to_string()),
        VertexScan::Untagged,
        VertexScan::Unreadable,
    ];
    let edge_types = vec!["knows".to_string(), "likes".to_string()];
    let keys = vec![
        Some("g:edge:1:knows:2:0".to_string()),
        Some("g:edge:2:knows:3:0".to_string()),
        Some("g:edge:1:rel:2:0".to_string()),
        None,
        Some("short:key".to_string()),
    ];
    let counts = stats_counts(&tags, &vertices, &edge_types, &keys);
    assert_eq!(counts.vertices, 4);
    assert_eq!(counts.edges, 5);
    let r = stats_result(&counts);
    assert_eq!(r.columns, vec!["Type", "Name", "Count"]);
    let rows: Vec<Vec<String>> = r.rows.iter().map(|row| row.iter().map(cell).collect()).collect();
    let expected: Vec<Vec<&str>> = vec![
        vec!["Edge", "_unknown", "1"],
        vec!["Edge", "knows", "2"],
        vec!["Edge", "likes", "0"],
        vec!["Edge", "rel", "1"],
        vec!["Tag", "_unknown", "1"],
        vec!["Tag", "city", "0"],
        vec!["Tag", "person", "2"],
        vec!["Total", "vertices", "4"],
        vec!["Total", "edges", "5"],
    ];
    assert_eq!(rows, expected);
}

#[test]
fn show_stats_of_empty_space_lists_declared_types() {
    let counts = stats_counts(&vec!["t".to_string()], &vec![], &vec![], &vec![]);
    let r = stats_result(&counts);
    let rows: Vec<Vec<String>> = r.rows.iter().map(|row| row.iter().map(cell).collect()).collect();
    assert_eq!(rows, vec![vec!["Tag", "t", "0"], vec!["Total", "vertices", "0"], vec!["Total", "edges", "0"]]);
}
