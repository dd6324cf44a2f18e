use byoridb_executor::traversal::{reconstruct_path, SearchStep, ShortestPathSearch, TraversalMetrics};
use std::collections::HashMap;

/// Drives a search over an in-memory adjacency list.
fn run(
    adj: &HashMap<i64, Vec<i64>>,
    start: i64,
    target: i64,
    max_steps: usize,
    max_nodes: usize,
) -> (Option<Vec<i64>>, TraversalMetrics) {
    let (mut search, mut step) = ShortestPathSearch::begin(start, target, max_steps, max_nodes);
    loop {
        match step {
            SearchStep::Expand(v) => {
                let neighbors = adj.get(&v).cloned().unwrap_or_default();
                step = search.feed(&neighbors);
            }
            SearchStep::Done(path) => return (path, search.metrics()),
        }
    }
}

fn graph(edges: &[(i64, i64)]) -> HashMap<i64, Vec<i64>> {
    let mut adj: HashMap<i64, Vec<i64>> = HashMap::new();
    for (s, d) in edges {
        adj.entry(*s).or_default().push(*d);
    }
    adj
}

#[test]
fn search_handles_cycles() {
    let adj = graph(&[(1, 2), (2, 1), (2, 3)]);
    let (path, metrics) = run(&adj, 1, 3, 10, 100_000);
    assert_eq!(path, Some(vec![1, 2, 3]));
    assert!(metrics.visited_vertices >= 2);
    assert!(!metrics.cap_reached);
}

#[test]
fn search_without_a_route_finds_nothing() {
    let adj = graph(&[(1, 3)]);
    let (path, _) = run(&adj, 1, 2, 10, 100_000);
    assert_eq!(path, None);
}

#[test]
fn search_respects_the_node_cap() {
    let adj = graph(&[(1, 2), (2, 3)]);
    let (path, metrics) = run(&adj, 1, 3, 10, 1);
    assert_eq!(path, None);
    assert!(metrics.cap_reached);
}

#[test]
fn search_respects_the_step_limit() {
    let adj = graph(&[(1, 2), (2, 3)]);
    let (path, _) = run(&adj, 1, 3, 1, 100_000);
    assert_eq!(path, None);
    let (path, _) = run(&adj, 1, 3, 2, 100_000);
    assert_eq!(path, Some(vec![1, 2, 3]));
}

#[test]
fn search_from_the_target_is_the_trivial_path() {
    let adj = graph(&[]);
    let (path, metrics) = run(&adj, 10, 10, 5, 100_000);
    assert_eq!(path, Some(vec![10]));
    assert_eq!(metrics.visited_vertices, 1);
}

#[test]
fn search_prefers_fewest_hops() {
    let adj = graph(&[(1, 2), (2, 3), (3, 4), (1, 4)]);
    let (path, _) = run(&adj, 1, 4, 10, 100_000);
    assert_eq!(path, Some(vec![1, 4]));
}

#[test]
fn reconstruct_path_follows_parents() {
    let mut parent = HashMap::new();
    parent.insert(2, 1);
    parent.insert(3, 2);
    assert_eq!(reconstruct_path(&parent, 1, 3), vec![1, 2, 3]);
}

#[test]
fn record_frontier_keeps_the_maximum() {
    let mut m = TraversalMetrics::new();
    m.record_frontier(3);
    m.record_frontier(2);
    assert_eq!(m.max_frontier_size, 3);
    m.record_frontier(5);
    assert_eq!(m.max_frontier_size, 5);
}

#[test]
fn reconstruct_path_ignores_unrelated_cycles() {
    let mut parent = std::collections::HashMap::new();
    parent.insert(3, 2);
    parent.insert(2, 1);
    parent.insert(5, 6);
    parent.insert(6, 5);
    assert_eq!(reconstruct_path(&parent, 1, 3), vec![1, 2, 3]);
}
