use byoridb_executor::collapse::collapse_edges;
use byoridb_executor::records::EdgeRecord;
use byoridb_executor::value::{PropMap, Value};

fn edge(src: i64, ty: &str, dst: i64, w: i64) -> EdgeRecord {
    let mut properties = PropMap::new();
    properties.insert("w".to_string(), Value::Int(w));
    EdgeRecord { src_vid: src, dst_vid: dst, edge_type: ty.to_string(), ranking: 0, properties }
}

fn weight_of(edges: &[EdgeRecord], src: i64, ty: &str, dst: i64) -> Option<i64> {
    let found: Vec<&EdgeRecord> = edges
        .iter()
        .filter(|e| e.src_vid == src && e.edge_type == ty && e.dst_vid == dst && e.ranking == 0)
        .collect();
    assert!(found.len() <= 1, "a key is stored once");
    found.first().map(|e| match e.properties.get("w") {
        Some(Value::Int(w)) => *w,
        other => panic!("unexpected weight {:?}", other),
    })
}

#[test]
fn collapse_moves_out_and_in_edges_onto_winner() {
    let store = vec![
        edge(1, "knows", 2, 1),
        edge(2, "knows", 3, 2),
        edge(3, "likes", 2, 3),
        edge(2, "knows", 2, 4),
        edge(4, "likes", 5, 5),
        edge(1, "knows", 3, 6),
    ];
    let out = collapse_edges(&store, 1, 2);
    assert_eq!(out.len(), 4);
    assert!(out.iter().all(|e| e.src_vid != 2 && e.dst_vid != 2));
    assert_eq!(weight_of(&out, 4, "likes", 5), Some(5));
    // loser's outgoing edge replaces the winner's edge under the same key
    assert_eq!(weight_of(&out, 1, "knows", 3), Some(2));
    // the self-loop moves first, then the incoming edge from the winner replaces it
    assert_eq!(weight_of(&out, 1, "knows", 1), Some(1));
    assert_eq!(weight_of(&out, 3, "likes", 1), Some(3));
}

#[test]
fn collapse_without_loser_edges_keeps_store() {
    let store = vec![edge(1, "knows", 3, 1), edge(3, "knows", 4, 2)];
    let out = collapse_edges(&store, 1, 2);
    assert_eq!(out.len(), 2);
    assert_eq!(weight_of(&out, 1, "knows", 3), Some(1));
    assert_eq!(weight_of(&out, 3, "knows", 4), Some(2));
}

#[test]
fn collapse_self_loop_becomes_winner_self_loop() {
    let store = vec![edge(7, "same", 7, 9)];
    let out = collapse_edges(&store, 3, 7);
    assert_eq!(out.len(), 1);
    assert_eq!(weight_of(&out, 3, "same", 3), Some(9));
}
