use byoridb_executor::all_paths::{AllPathsSearch, PathsStep};
use byoridb_executor::lookup::stable_dedupe_vids;
use byoridb_executor::traversal::TraversalMetrics;

/// Neighbors of `v` in `edges`: destinations of its out-edges, then (when
/// `bidirect`) sources of its in-edges, each once.
fn neighbors(edges: &[(i64, i64)], v: i64, bidirect: bool) -> Vec<i64> {
    let mut out: Vec<i64> = edges.iter().filter(|e| e.0 == v).map(|e| e.1).collect();
    if bidirect {
        out.extend(edges.iter().filter(|e| e.1 == v).map(|e| e.0));
    }
    stable_dedupe_vids(out)
}

fn all_paths(
    edges: &[(i64, i64)],
    start: i64,
    target: i64,
    max_steps: usize,
    bidirect: bool,
    max_paths: usize,
    max_nodes: usize,
) -> (Vec<Vec<i64>>, TraversalMetrics) {
    let (mut search, mut step) = AllPathsSearch::begin(start, target, max_steps, max_nodes, max_paths);
    loop {
        match step {
            PathsStep::Expand(v) => step = search.feed(&neighbors(edges, v, bidirect)),
            PathsStep::Done(paths) => return (paths, search.metrics()),
        }
    }
}

#[test]
fn all_shortest_paths_enumerates_diamond() {
    let edges = [(1, 2), (1, 3), (2, 4), (3, 4), (1, 5), (5, 6), (6, 4)];
    let (mut paths, _) = all_paths(&edges, 1, 4, 10, false, 0, 100_000);
    paths.sort();
    assert_eq!(paths, vec![vec![1, 2, 4], vec![1, 3, 4]]);
}

#[test]
fn all_shortest_paths_bidirect_single_stored_direction() {
    let edges = [(2, 1), (2, 4), (1, 3), (4, 3)];
    let (mut paths, _) = all_paths(&edges, 1, 4, 10, true, 0, 100_000);
    paths.sort();
    assert_eq!(paths, vec![vec![1, 2, 4], vec![1, 3, 4]]);
}

#[test]
fn all_shortest_paths_unreachable_returns_empty() {
    let (paths, _) = all_paths(&[(1, 2)], 1, 99, 10, true, 0, 100_000);
    assert!(paths.is_empty());
}

#[test]
fn all_shortest_paths_respects_max_steps() {
    let edges = [(1, 2), (2, 3), (3, 4)];
    let (paths, _) = all_paths(&edges, 1, 4, 2, false, 0, 100_000);
    assert!(paths.is_empty());
    let (paths, _) = all_paths(&edges, 1, 4, 3, false, 0, 100_000);
    assert_eq!(paths, vec![vec![1, 2, 3, 4]]);
}

#[test]
fn all_shortest_paths_caps_path_count() {
    let edges = [(1, 2), (2, 4), (1, 3), (3, 4), (1, 5), (5, 4)];
    let (paths, _) = all_paths(&edges, 1, 4, 10, false, 2, 100_000);
    assert_eq!(paths.len(), 2);
    let (paths, _) = all_paths(&edges, 1, 4, 10, false, 0, 100_000);
    assert_eq!(paths.len(), 3);
}

#[test]
fn all_shortest_paths_traversal_cap_returns_no_partial_answer() {
    let (paths, metrics) = all_paths(&[(1, 2), (2, 3)], 1, 3, 10, false, 0, 1);
    assert!(paths.is_empty());
    assert!(metrics.cap_reached);
}

#[test]
fn all_shortest_paths_handles_cycles() {
    let (paths, _) = all_paths(&[(1, 2), (2, 1), (2, 3)], 1, 3, 10, true, 0, 100_000);
    assert_eq!(paths, vec![vec![1, 2, 3]]);
}

#[test]
fn all_shortest_paths_from_target_to_itself() {
    let (paths, metrics) = all_paths(&[], 7, 7, 10, true, 0, 100_000);
    assert_eq!(paths, vec![vec![7]]);
    assert_eq!(metrics.visited_vertices, 1);
}

#[test]
fn all_shortest_paths_enumerates_latest_predecessor_first() {
    // Both middles are found at depth one; the later-found one is explored first.
    let edges = [(1, 2), (1, 3), (2, 4), (3, 4)];
    let (paths, metrics) = all_paths(&edges, 1, 4, 10, false, 0, 100_000);
    assert_eq!(paths, vec![vec![1, 3, 4], vec![1, 2, 4]]);
    assert_eq!(metrics.max_frontier_size, 2);
}
