use byoridb_executor::error::ErrorKind;
use byoridb_executor::expr::{BinaryOperator, Expression, Literal};
use byoridb_executor::go::{
    go_expr_needs_dst_vertex, go_row_matches_where, go_step_range, go_yield_column_name,
    go_yield_value, GoRow, GoSearch, GoStep, GoYield, GraphNeighbor, StepClause, YieldColumn,
};
use byoridb_executor::records::{
    edge_props_flat, flatten_vertex_props, vertex_props_flat, EdgeRecord, TagRecord,
};
use byoridb_executor::value::{PropMap, Value};

fn edge(src: i64, dst: i64, ty: &str, rank: i64) -> EdgeRecord {
    EdgeRecord {
        src_vid: src,
        dst_vid: dst,
        edge_type: ty.to_string(),
        ranking: rank,
        properties: PropMap::new(),
    }
}

/// Neighbors of `v` in storage order: over outgoing edges, the edge's
/// destination; over incoming ones, its source.
fn neighbors(edges: &[(i64, i64, &str, i64)], v: i64, incoming: bool) -> Vec<GraphNeighbor> {
    let mut out = Vec::new();
    for &(s, d, ty, r) in edges {
        if !incoming && s == v {
            out.push(GraphNeighbor { dst: d, edge: edge(s, d, ty, r) });
        }
        if incoming && d == v {
            out.push(GraphNeighbor { dst: s, edge: edge(s, d, ty, r) });
        }
    }
    out
}

fn walk(
    edges: &[(i64, i64, &str, i64)],
    from: i64,
    incoming: bool,
    min: usize,
    max: usize,
) -> Vec<GoRow> {
    let mut search = GoSearch::begin(from, min, max);
    loop {
        match search.next_step() {
            GoStep::Expand(v) => search.feed(neighbors(edges, v, incoming)),
            GoStep::Done => break,
        }
    }
    search.into_rows()
}

fn pairs(rows: &[GoRow]) -> Vec<(i64, i64)> {
    rows.iter().map(|r| (r.src, r.dst)).collect()
}

#[test]
fn test_go_traversal() {
    let edges = [(400, 401, "follow", 0), (400, 402, "follow", 1)];
    let rows = walk(&edges, 400, false, 1, 1);
    let mut destinations: Vec<i64> = rows.iter().map(|r| r.dst).collect();
    destinations.sort_unstable();
    assert_eq!(destinations, vec![401, 402]);
}

#[test]
fn test_go_reversely_traversal() {
    let edges = [(431, 430, "follow", 0), (432, 430, "follow", 1), (430, 433, "follow", 0)];
    let rows = walk(&edges, 430, true, 1, 1);
    let mut sources: Vec<i64> = rows.iter().map(|r| r.dst).collect();
    sources.sort_unstable();
    assert_eq!(sources, vec![431, 432]);
}

#[test]
fn test_go_traversal_exactly_two_steps_uses_next_frontier() {
    let edges = [(410, 411, "follow", 0), (411, 412, "follow", 0), (410, 413, "follow", 1)];
    let rows = walk(&edges, 410, false, 2, 2);
    assert_eq!(pairs(&rows), vec![(410, 412)]);
}

#[test]
fn test_go_traversal_deduplicates_destinations_per_source() {
    let edges = [
        (420, 421, "follow", 0),
        (420, 422, "follow", 1),
        (421, 423, "follow", 0),
        (422, 423, "follow", 0),
    ];
    let rows = walk(&edges, 420, false, 2, 2);
    assert_eq!(pairs(&rows), vec![(420, 423)]);
}

#[test]
fn zero_steps_yields_the_source_row_without_an_edge() {
    let edges = [(1, 2, "e", 0)];
    let rows = walk(&edges, 1, false, 0, 1);
    assert_eq!(pairs(&rows), vec![(1, 1), (1, 2)]);
    assert!(rows[0].edge.is_none());
    assert!(rows[1].edge.is_some());
    let only_source = walk(&edges, 1, false, 0, 0);
    assert_eq!(pairs(&only_source), vec![(1, 1)]);
}

#[test]
fn a_range_keeps_each_vertex_at_its_shortest_hop() {
    // 1 -> 2 -> 3 -> 1 (cycle) and 1 -> 3 directly.
    let edges = [(1, 2, "e", 0), (2, 3, "e", 0), (3, 1, "e", 0), (1, 3, "e", 1)];
    let rows = walk(&edges, 1, false, 1, 3);
    assert_eq!(pairs(&rows), vec![(1, 2), (1, 3)]);
    // 3 was reached over the direct edge, first in storage order.
    assert_eq!(rows[1].edge.as_ref().unwrap().ranking, 1);
    // From hop 2 on nothing new is reached.
    assert!(walk(&edges, 1, false, 2, 3).is_empty());
}

#[test]
fn the_walk_stops_when_nothing_new_is_reached() {
    let edges = [(1, 2, "e", 0)];
    let mut search = GoSearch::begin(1, 1, 10);
    let mut expanded = Vec::new();
    loop {
        match search.next_step() {
            GoStep::Expand(v) => {
                expanded.push(v);
                search.feed(neighbors(&edges, v, false));
            }
            GoStep::Done => break,
        }
    }
    assert_eq!(expanded, vec![1, 2]);
    assert_eq!(search.scanned_neighbors(), 1);
}

#[test]
fn step_ranges_respect_the_configured_cap() {
    assert_eq!(go_step_range(StepClause::Exactly(3), 20).unwrap(), (3, 3));
    assert_eq!(go_step_range(StepClause::Range(1, 5), 0).unwrap(), (1, 5));
    let err = go_step_range(StepClause::Range(1, 30), 20).unwrap_err();
    assert_eq!(err.kind(), ErrorKind::InvalidOperation);
    assert_eq!(
        err.message(),
        "Invalid operation: GO step count 30 exceeds maximum allowed 20"
    );
}

fn ident(s: &str) -> Expression {
    Expression::Identifier(s.to_string())
}

fn col(e: Expression, alias: Option<&str>) -> YieldColumn {
    YieldColumn { expression: e, alias: alias.map(|a| a.to_string()) }
}

#[test]
fn yield_column_headers() {
    assert_eq!(go_yield_column_name(&col(ident("dst"), None)).unwrap(), "dst");
    assert_eq!(go_yield_column_name(&col(ident("dst"), Some("d"))).unwrap(), "d");
    let p = Expression::PropRef { object: "follow".to_string(), prop: "degree".to_string() };
    assert_eq!(go_yield_column_name(&col(p, None)).unwrap(), "follow.degree");
    let d = Expression::DstVertexProp { tag: "player".to_string(), prop: "age".to_string() };
    assert_eq!(go_yield_column_name(&col(d, None)).unwrap(), "player.age");
    let f = Expression::FunctionCall { name: "type".to_string(), args: vec![ident("edge")] };
    assert_eq!(go_yield_column_name(&col(f, None)).unwrap(), "type(edge)");
    let g = Expression::FunctionCall { name: "rand".to_string(), args: vec![] };
    assert_eq!(go_yield_column_name(&col(g, None)).unwrap(), "rand");
    assert!(go_yield_column_name(&col(Expression::Literal(Literal::Int(1)), None)).is_none());
}

#[test]
fn only_destination_reads_need_the_vertex() {
    assert!(go_expr_needs_dst_vertex(&ident("vertex")));
    let d = Expression::DstVertexProp { tag: "t".to_string(), prop: "p".to_string() };
    assert!(go_expr_needs_dst_vertex(&d));
    assert!(!go_expr_needs_dst_vertex(&ident("dst")));
}

fn tag(name: &str, props: Vec<(&str, Value)>) -> TagRecord {
    let mut m = PropMap::new();
    for (k, v) in props {
        m.insert(k.to_string(), v);
    }
    TagRecord { name: name.to_string(), properties: m }
}

fn weighted(src: i64, dst: i64) -> EdgeRecord {
    let mut e = edge(src, dst, "follow", 7);
    e.properties.insert("degree".to_string(), Value::Int(90));
    e
}

#[test]
fn go_over_all_binds_edge_accessors() {
    // INSERT EDGE rel() VALUES 1->2; GO FROM 1 OVER * YIELD type(edge), dst(edge), src(edge)
    let rows = walk(&[(1, 2, "rel", 0)], 1, false, 1, 1);
    assert_eq!(rows.len(), 1);
    let e = rows[0].edge.as_ref().unwrap();
    let f = |name: &str| Expression::FunctionCall { name: name.to_string(), args: vec![ident("edge")] };
    assert!(matches!(go_yield_value(&f("type"), 1, 2, Some(e), None), GoYield::Value(Value::String(s)) if s == "rel"));
    assert!(matches!(go_yield_value(&f("dst"), 1, 2, Some(e), None), GoYield::Vid(2)));
    assert!(matches!(go_yield_value(&f("src"), 1, 2, Some(e), None), GoYield::Vid(1)));
}

#[test]
fn edge_accessor_functions() {
    let e = weighted(1, 2);
    let f = |name: &str| Expression::FunctionCall { name: name.to_string(), args: vec![ident("edge")] };
    assert!(matches!(go_yield_value(&f("TYPE"), 1, 2, Some(&e), None), GoYield::Value(Value::String(s)) if s == "follow"));
    assert!(matches!(go_yield_value(&f("rank"), 1, 2, Some(&e), None), GoYield::Value(Value::Int(7))));
    assert!(matches!(go_yield_value(&f("ranking"), 1, 2, Some(&e), None), GoYield::Value(Value::Int(7))));
    assert!(matches!(go_yield_value(&f("other"), 1, 2, Some(&e), None), GoYield::Value(Value::Null)));
    assert!(matches!(go_yield_value(&f("type"), 1, 1, None, None), GoYield::Value(Value::Null)));
}

#[test]
fn yield_values_of_a_row() {
    let e = weighted(1, 2);
    let tags = vec![tag("player", vec![("age", Value::Int(30))])];
    assert!(matches!(go_yield_value(&ident("src"), 1, 2, Some(&e), None), GoYield::Vid(1)));
    assert!(matches!(go_yield_value(&ident("_dst_vid"), 1, 2, Some(&e), None), GoYield::Vid(2)));
    assert!(matches!(go_yield_value(&ident("vertex"), 1, 2, Some(&e), Some(&tags)), GoYield::VertexJson));
    assert!(matches!(go_yield_value(&ident("vertex"), 1, 2, Some(&e), None), GoYield::Value(Value::Null)));
    assert!(matches!(go_yield_value(&ident("edge"), 1, 2, Some(&e), None), GoYield::EdgeJson));
    let p = |prop: &str| Expression::PropRef { object: "follow".to_string(), prop: prop.to_string() };
    assert!(matches!(go_yield_value(&p("degree"), 1, 2, Some(&e), None), GoYield::Value(Value::Int(90))));
    assert!(matches!(go_yield_value(&p("_dst"), 1, 2, Some(&e), None), GoYield::Vid(2)));
    assert!(matches!(go_yield_value(&p("_rank"), 1, 2, Some(&e), None), GoYield::Value(Value::Int(7))));
    assert!(matches!(go_yield_value(&p("missing"), 1, 2, Some(&e), None), GoYield::Value(Value::Null)));
    let d = Expression::DstVertexProp { tag: "PLAYER".to_string(), prop: "age".to_string() };
    assert!(matches!(go_yield_value(&d, 1, 2, Some(&e), Some(&tags)), GoYield::Value(Value::Int(30))));
    let lit = Expression::Literal(Literal::String("x".to_string()));
    assert!(matches!(go_yield_value(&lit, 1, 2, None, None), GoYield::Value(Value::String(s)) if s == "x"));
}

#[test]
fn flat_property_maps_key_both_ways() {
    let tags = vec![
        tag("a", vec![("x", Value::Int(1))]),
        tag("b", vec![("x", Value::Int(2)), ("y", Value::Int(3))]),
    ];
    let first = vertex_props_flat(&tags);
    assert!(matches!(first.get("x"), Some(Value::Int(1))));
    assert!(matches!(first.get("a.x"), Some(Value::Int(1))));
    assert!(matches!(first.get("b.x"), Some(Value::Int(2))));
    assert!(matches!(first.get("y"), Some(Value::Int(3))));
    let last = flatten_vertex_props(&tags);
    assert!(matches!(last.get("x"), Some(Value::Int(2))));
    let e = weighted(1, 2);
    let flat = edge_props_flat(&e);
    assert!(matches!(flat.get("follow.degree"), Some(Value::Int(90))));
    assert!(matches!(flat.get("degree"), Some(Value::Int(90))));
}

#[test]
fn where_sees_edge_source_and_destination_properties() {
    let e = weighted(1, 2);
    let src = vec![tag("player", vec![("age", Value::Int(40))])];
    let dst = vec![tag("player", vec![("age", Value::Int(20))])];
    let cond = Expression::BinaryOp {
        op: BinaryOperator::Gt,
        left: Box::new(Expression::PropRef { object: "follow".to_string(), prop: "degree".to_string() }),
        right: Box::new(Expression::Literal(Literal::Int(50))),
    };
    assert!(go_row_matches_where(Some(&e), &src, &dst, &cond).unwrap().unwrap());
    let younger = Expression::BinaryOp {
        op: BinaryOperator::Lt,
        left: Box::new(ident("$$.player.age")),
        right: Box::new(ident("$^.player.age")),
    };
    assert!(go_row_matches_where(Some(&e), &src, &dst, &younger).unwrap().unwrap());
    let not_bool = Expression::Literal(Literal::Int(1));
    let err = go_row_matches_where(Some(&e), &src, &dst, &not_bool).unwrap().unwrap_err();
    assert_eq!(err.kind(), ErrorKind::TypeMismatch);
}
