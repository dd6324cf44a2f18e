use byoridb_executor::fetch::fetch_vertex_rows;
use byoridb_executor::fetch::fetch_edge_rows;
use byoridb_executor::context::ExecutionContext;
use byoridb_executor::error::ErrorKind;
use byoridb_executor::fetch::{fetch_tag_selection, vids_from_variable};
use byoridb_executor::find::Vid;
use byoridb_executor::keys::edge_scan_prefix;
use byoridb_executor::records::TagRecord;
use byoridb_executor::result::ExecutorResult;
use byoridb_executor::value::{PropMap, Value};

fn go_result() -> ExecutorResult {
    ExecutorResult {
        columns: vec!["src".to_string(), "dst".to_string()],
        rows: vec![
            vec![Value::Int(1), Value::Int(2)],
            vec![Value::Int(1), Value::String("x".to_string())],
            vec![Value::Int(1), Value::Bool(true)],
            vec![Value::Int(1)],
        ],
        latency_ms: 0,
    }
}

fn ints(v: &[Vid]) -> Vec<String> {
    v.iter()
        .map(|x| match x {
            Vid::Int(i) => i.to_string(),
            Vid::String(s) => format!("'{}'", s),
        })
        .collect()
}

#[test]
fn variable_columns_supply_vertex_ids() {
    let mut ctx = ExecutionContext::new();
    ctx.bind_var("v".to_string(), go_result());
    let dst = vids_from_variable(&ctx, "v.dst").ok().unwrap();
    assert_eq!(ints(&dst), vec!["2", "'x'"]);
    let src = vids_from_variable(&ctx, "v").ok().unwrap();
    assert_eq!(ints(&src), vec!["1", "1", "1", "1"]);
    // An unknown column reads the first one.
    let unknown = vids_from_variable(&ctx, "v.nope").ok().unwrap();
    assert_eq!(unknown.len(), 4);
}

#[test]
fn an_undefined_variable_is_an_error() {
    let ctx = ExecutionContext::new();
    let err = vids_from_variable(&ctx, "w.dst").err().unwrap();
    assert_eq!(err.kind(), ErrorKind::InvalidOperation);
    assert_eq!(err.message(), "Invalid operation: Variable 'w' is not defined");
}

fn tag(name: &str) -> TagRecord {
    TagRecord { name: name.to_string(), properties: PropMap::new() }
}

#[test]
fn fetch_prop_respects_tag_membership() {
    // Vertex 1 carries `product`, vertex 2 only `sku`; FETCH PROP ON product.
    let requested = vec!["product".to_string()];
    let v1 = vec![tag("product")];
    let v2 = vec![tag("sku")];
    assert_eq!(fetch_tag_selection(&requested, &v1), Some(vec![0]));
    assert_eq!(fetch_tag_selection(&requested, &v2), None);
}

#[test]
fn fetch_returns_only_requested_tags() {
    let tags = vec![tag("sku"), tag("product")];
    assert_eq!(fetch_tag_selection(&vec![], &tags), Some(vec![0, 1]));
    assert_eq!(fetch_tag_selection(&vec!["product".to_string()], &tags), Some(vec![1]));
}

#[test]
fn edge_scan_prefixes() {
    assert_eq!(edge_scan_prefix("g", 5, "*"), "g:edge:5:");
    assert_eq!(edge_scan_prefix("g", -5, "follow"), "g:edge:-5:follow:");
}

#[test]
fn fetch_vertex_rows_keep_request_order_and_omit_missing() {
    let vids = vec![Value::Int(3), Value::Int(1), Value::Int(2)];
    let records = vec![
        Some(vec![("person".to_string(), "{p3}".to_string()), ("sku".to_string(), "{s3}".to_string())]),
        None,
        Some(vec![("sku".to_string(), "{s2}".to_string())]),
    ];
    let rows = fetch_vertex_rows(&vids, &records, &vec!["person".to_string()]);
    assert_eq!(rows.len(), 1);
    assert!(matches!(rows[0][0], Value::Int(3)));
    assert!(matches!(&rows[0][1], Value::String(s) if s == "{p3}"));
    assert_eq!(rows[0].len(), 2);
    let all = fetch_vertex_rows(&vids, &records, &vec![]);
    assert_eq!(all.len(), 2);
    assert_eq!(all[0].len(), 3);
    assert!(matches!(all[1][0], Value::Int(2)));
}

#[test]
fn fetch_edge_rows_filter_by_destination() {
    let refs = vec![(2, Value::Int(1), Value::Int(2)), (9, Value::Int(4), Value::Int(9))];
    let scanned = vec![
        vec![(2, "{e12a}".to_string()), (3, "{e13}".to_string()), (2, "{e12b}".to_string())],
        vec![(5, "{e45}".to_string())],
    ];
    let rows = fetch_edge_rows(&refs, &scanned);
    assert_eq!(rows.len(), 2);
    assert!(matches!(&rows[0][2], Value::String(s) if s == "{e12a}"));
    assert!(matches!(&rows[1][2], Value::String(s) if s == "{e12b}"));
    assert!(matches!(rows[1][0], Value::Int(1)));
}
