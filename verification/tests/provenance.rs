use byoridb_executor::provenance::{
    add_justification, fact_to_string, rule_to_string, Fact, Justification, RuleKind,
};

#[test]
fn facts_render_for_why() {
    let e = Fact::Edge { s: 1, p: "knows".to_string(), d: -3 };
    assert_eq!(fact_to_string(&e), "1 -knows-> -3");
    let t = Fact::Vtype { vid: 42, class: "person".to_string() };
    assert_eq!(fact_to_string(&t), "42 is-a person");
}

#[test]
fn rule_names() {
    assert_eq!(rule_to_string(&RuleKind::Symmetric), "symmetric");
    assert_eq!(rule_to_string(&RuleKind::InverseOf), "inverseOf");
    assert_eq!(rule_to_string(&RuleKind::SubPropertyOf), "subPropertyOf");
    assert_eq!(rule_to_string(&RuleKind::Transitive), "transitive");
    assert_eq!(rule_to_string(&RuleKind::Domain), "domain");
    assert_eq!(rule_to_string(&RuleKind::Range), "range");
}

fn just(rule: RuleKind, d: i64) -> Justification {
    Justification { rule, premises: vec![Fact::Edge { s: 1, p: "p".to_string(), d }] }
}

#[test]
fn justifications_accumulate_without_duplicates() {
    let mut justs = Vec::new();
    assert!(add_justification(&mut justs, just(RuleKind::Transitive, 2)));
    assert!(!add_justification(&mut justs, just(RuleKind::Transitive, 2)));
    assert!(add_justification(&mut justs, just(RuleKind::Transitive, 3)));
    assert!(add_justification(&mut justs, just(RuleKind::Symmetric, 2)));
    assert_eq!(justs.len(), 3);
}

use byoridb_executor::provenance::{fact_eq, ExplainRow, ExplainStep, ExplainWalk};

fn edge(s: i64, d: i64) -> Fact {
    Fact::Edge { s, p: "p".to_string(), d }
}

/// Runs a WHY walk against `store`: each entry is a fact and its justifications.
fn explain(store: &[(Fact, Vec<(RuleKind, Vec<Fact>)>)], s: i64, d: i64, exists: bool) -> Vec<ExplainRow> {
    let mut walk = ExplainWalk::begin(s, "p".to_string(), d, exists);
    loop {
        match walk.next() {
            ExplainStep::Done => return walk.into_rows(),
            ExplainStep::Provenance(f) => {
                let justs = store
                    .iter()
                    .find(|(g, _)| fact_eq(g, &f))
                    .map(|(_, js)| {
                        js.iter()
                            .map(|(r, ps)| Justification {
                                rule: *r,
                                premises: ps.iter().map(byoridb_executor::provenance::fact_clone).collect(),
                            })
                            .collect()
                    })
                    .unwrap_or_default();
                walk.record(justs);
            }
        }
    }
}

fn row(r: &ExplainRow) -> (i64, &str, &str, &str, &str) {
    (r.depth, r.fact.as_str(), r.status.as_str(), r.rule.as_str(), r.premises.as_str())
}

#[test]
fn why_walks_the_justification_tree() {
    let store = vec![(edge(1, 3), vec![(RuleKind::Transitive, vec![edge(1, 2), edge(2, 3)])])];
    let rows = explain(&store, 1, 3, true);
    let rows: Vec<_> = rows.iter().map(row).collect();
    assert_eq!(
        rows,
        vec![
            (0, "1 -p-> 3", "inferred", "transitive", "1 -p-> 2, 2 -p-> 3"),
            (1, "1 -p-> 2", "asserted", "\u{2014}", "\u{2014}"),
            (1, "2 -p-> 3", "asserted", "\u{2014}", "\u{2014}"),
        ]
    );
}

#[test]
fn why_on_a_missing_edge_says_not_found() {
    let rows = explain(&[], 4, 5, false);
    let rows: Vec<_> = rows.iter().map(row).collect();
    assert_eq!(rows, vec![(0, "4 -p-> 5", "not found", "\u{2014}", "\u{2014}")]);
}

#[test]
fn why_shows_a_shared_premise_once() {
    // Both justifications rest on 1->2; it is expanded once.
    let store = vec![
        (
            edge(2, 1),
            vec![
                (RuleKind::Symmetric, vec![edge(1, 2)]),
                (RuleKind::InverseOf, vec![edge(1, 2)]),
            ],
        ),
        (edge(1, 2), vec![(RuleKind::Symmetric, vec![edge(2, 1)])]),
    ];
    let rows = explain(&store, 2, 1, true);
    let rows: Vec<_> = rows.iter().map(row).collect();
    assert_eq!(
        rows,
        vec![
            (0, "2 -p-> 1", "inferred", "symmetric", "1 -p-> 2"),
            (0, "2 -p-> 1", "inferred", "inverseOf", "1 -p-> 2"),
            (1, "1 -p-> 2", "inferred", "symmetric", "2 -p-> 1"),
            (2, "2 -p-> 1", "(already explained above)", "\u{2014}", "\u{2014}"),
            (1, "1 -p-> 2", "(already explained above)", "\u{2014}", "\u{2014}"),
        ]
    );
}
