use byoridb_executor::inference::{RelMeta, SemanticFlags};
use byoridb_executor::materialize::{MaterializeStep, Materializer};

type Triple = (i64, String, i64);

fn flags() -> SemanticFlags {
    SemanticFlags {
        transitive: false,
        symmetric: false,
        inverse_of: None,
        subproperty_of: None,
        domain: None,
        range: None,
    }
}

fn t(s: i64, p: &str, d: i64) -> Triple {
    (s, p.to_string(), d)
}

/// Runs a materialization against an in-memory graph; returns the edges
/// written and the vertex types recorded.
fn run(meta: RelMeta, graph: &mut Vec<Triple>, seeds: Vec<Triple>, cap: usize) -> (Vec<Triple>, Vec<(i64, String)>) {
    let mut written = Vec::new();
    let mut types: Vec<(i64, String)> = Vec::new();
    let (mut m, mut step) = Materializer::begin(meta, seeds, cap);
    loop {
        step = match step {
            MaterializeStep::Done => return (written, types),
            MaterializeStep::TransitiveNeighbors { s, p, d } => {
                let outs: Vec<i64> = graph.iter().filter(|e| e.0 == d && e.1 == p).map(|e| e.2).collect();
                let ins: Vec<i64> = graph.iter().filter(|e| e.2 == s && e.1 == p).map(|e| e.0).collect();
                m.neighbors(&outs, &ins)
            }
            MaterializeStep::AssertType { vid, class } => {
                let new = !types.contains(&(vid, class.clone()));
                if new {
                    types.push((vid, class));
                }
                m.type_recorded(new)
            }
            MaterializeStep::Check { s, p, d } => {
                let exists = graph.contains(&(s, p, d));
                m.checked(exists)
            }
            MaterializeStep::Write { s, p, d } => {
                graph.push((s, p.clone(), d));
                written.push((s, p, d));
                m.wrote()
            }
        };
    }
}

#[test]
fn symmetric_edge_gets_its_twin() {
    let mut meta = RelMeta::new();
    meta.register(&"knows".to_string(), &SemanticFlags { symmetric: true, ..flags() });
    let mut graph = vec![t(1, "knows", 2)];
    let (written, _) = run(meta, &mut graph, vec![t(1, "knows", 2)], 100_000);
    assert_eq!(written, vec![t(2, "knows", 1)]);
}

#[test]
fn transitive_closure_over_existing_edges() {
    let mut meta = RelMeta::new();
    meta.register(&"p".to_string(), &SemanticFlags { transitive: true, ..flags() });
    let mut graph = vec![t(1, "p", 2), t(2, "p", 3)];
    let (written, _) = run(meta, &mut graph, vec![t(2, "p", 3)], 100_000);
    assert_eq!(written, vec![t(1, "p", 3)]);
}

#[test]
fn existing_consequences_are_not_written_again() {
    let mut meta = RelMeta::new();
    meta.register(&"knows".to_string(), &SemanticFlags { symmetric: true, ..flags() });
    let mut graph = vec![t(1, "knows", 2), t(2, "knows", 1)];
    let (written, _) = run(meta, &mut graph, vec![t(1, "knows", 2)], 100_000);
    assert!(written.is_empty());
}

#[test]
fn domain_and_range_record_types() {
    let mut meta = RelMeta::new();
    meta.register(
        &"bornIn".to_string(),
        &SemanticFlags { domain: Some("person".to_string()), range: Some("city".to_string()), ..flags() },
    );
    let mut graph = vec![t(1, "bornIn", 2)];
    let (written, types) = run(meta, &mut graph, vec![t(1, "bornIn", 2)], 100_000);
    assert!(written.is_empty());
    assert_eq!(types, vec![(1, "person".to_string()), (2, "city".to_string())]);
}

#[test]
fn materialization_stops_at_the_cap() {
    let mut meta = RelMeta::new();
    meta.register(&"k".to_string(), &SemanticFlags { symmetric: true, ..flags() });
    let mut graph = vec![t(1, "k", 2), t(3, "k", 4)];
    let (written, _) = run(meta, &mut graph, vec![t(1, "k", 2), t(3, "k", 4)], 1);
    assert_eq!(written, vec![t(2, "k", 1)]);
}

#[test]
fn inverse_and_superproperty_chain() {
    let mut meta = RelMeta::new();
    meta.register(&"parentOf".to_string(), &SemanticFlags { inverse_of: Some("childOf".to_string()), ..flags() });
    meta.register(&"childOf".to_string(), &SemanticFlags { subproperty_of: Some("related".to_string()), ..flags() });
    let mut graph = vec![t(1, "parentOf", 2)];
    let (written, _) = run(meta, &mut graph, vec![t(1, "parentOf", 2)], 100_000);
    assert_eq!(written, vec![t(2, "childOf", 1), t(2, "related", 1)]);
}
