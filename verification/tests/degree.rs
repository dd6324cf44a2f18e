use byoridb_executor::degree::{degree_counted, degree_deltas, delete_edge_guard, EdgeRef};
use byoridb_executor::error::ExecutionError;

fn e(src: i64, ty: &str, dst: i64) -> EdgeRef {
    EdgeRef { src, edge_type: ty.to_string(), dst, ranking: 0 }
}

#[test]
fn insert_counts_each_new_edge_once() {
    let batch = vec![e(1, "knows", 2), e(1, "knows", 2), e(3, "knows", 2), e(1, "likes", 4)];
    let stored = vec![false, false, false, true];
    let counted = degree_counted(&batch, &stored, true);
    assert_eq!(counted, vec![0, 2]);
    let incoming = degree_deltas(&batch, &counted, true, true);
    assert_eq!(incoming, vec![("knows".to_string(), 2, 2)]);
    let outgoing = degree_deltas(&batch, &counted, true, false);
    assert_eq!(outgoing, vec![("knows".to_string(), 1, 1), ("knows".to_string(), 3, 1)]);
}

#[test]
fn delete_counts_each_stored_edge_once() {
    let batch = vec![e(1, "knows", 2), e(1, "knows", 2), e(5, "knows", 6)];
    let stored = vec![true, true, false];
    let counted = degree_counted(&batch, &stored, false);
    assert_eq!(counted, vec![0]);
    assert_eq!(degree_deltas(&batch, &counted, false, true), vec![("knows".to_string(), 2, -1)]);
}

#[test]
fn deleting_sameas_edge_is_refused() {
    assert!(matches!(delete_edge_guard("sameAs"), Err(ExecutionError::InvalidOperation(_))));
    assert!(delete_edge_guard("knows").is_ok());
}
