use byoridb_executor::sameas::SameAsIndex;

fn same(a: i64, b: i64) -> (i64, String, i64) {
    (a, "sameAs".to_string(), b)
}

#[test]
fn merge_picks_min_id_representative() {
    let mut index = SameAsIndex::new();
    assert_eq!(index.merge_triples(&[same(5, 2)], 100_000), vec![(2, 5)]);
    assert_eq!(index.representative_of(5), 2);
    assert_eq!(index.representative_of(2), 2);
}

#[test]
fn merge_is_idempotent_and_unions_classes() {
    let mut index = SameAsIndex::new();
    index.merge_triples(&[same(7, 4), same(4, 1)], 100_000);
    assert_eq!(index.representative_of(7), 1);
    assert_eq!(index.representative_of(4), 1);
    assert!(index.merge_triples(&[same(7, 1)], 100_000).is_empty());
    assert_eq!(index.representative_of(7), 1);
}

#[test]
fn self_sameas_is_noop() {
    let mut index = SameAsIndex::new();
    assert!(index.merge_triples(&[same(3, 3)], 100_000).is_empty());
    assert_eq!(index.representative_of(3), 3);
}

#[test]
fn other_edge_types_are_ignored() {
    let mut index = SameAsIndex::new();
    assert!(index.merge_triples(&[(5, "knows".to_string(), 2)], 100_000).is_empty());
    assert_eq!(index.representative_of(5), 5);
}

#[test]
fn merging_classes_moves_every_member() {
    let mut index = SameAsIndex::new();
    index.merge_triples(&[same(9, 6), same(8, 6), same(3, 9)], 100_000);
    for v in [9, 8, 6, 3] {
        assert_eq!(index.representative_of(v), 3);
    }
    assert_eq!(index.merge(8, 2), Some((2, 3)));
    for v in [9, 8, 6, 3, 2] {
        assert_eq!(index.representative_of(v), 2);
    }
}

#[test]
fn merge_stops_at_the_cap() {
    let mut index = SameAsIndex::new();
    let merged = index.merge_triples(&[same(2, 1), same(4, 3), same(6, 5)], 2);
    assert_eq!(merged, vec![(1, 2), (3, 4)]);
    assert_eq!(index.representative_of(6), 6);
}

use byoridb_executor::records::TagRecord;
use byoridb_executor::sameas::merge_vertex_tags;
use byoridb_executor::value::{PropMap, Value};

fn tag(name: &str, kv: Vec<(&str, &str)>) -> TagRecord {
    let mut m = PropMap::new();
    for (k, v) in kv {
        m.insert(k.to_string(), Value::String(v.to_string()));
    }
    TagRecord { name: name.to_string(), properties: m }
}

#[test]
fn merge_folds_vertex_props_winner_wins() {
    // Winner 2: product(name "A", sku "win"); loser 5: product(name "B", sku "lose").
    let winner = vec![tag("product", vec![("name", "A"), ("sku", "win")])];
    let loser = vec![tag("product", vec![("name", "B"), ("sku", "lose")])];
    let merged = merge_vertex_tags(winner, &loser);
    let product = merged.iter().find(|t| t.name == "product").unwrap();
    assert!(matches!(product.properties.get("sku"), Some(Value::String(s)) if s == "win"));
    assert!(matches!(product.properties.get("name"), Some(Value::String(s)) if s == "A"));
}

#[test]
fn merge_takes_missing_props_and_tags() {
    let winner = vec![tag("product", vec![("name", "A")])];
    let loser = vec![
        tag("product", vec![("name", "B"), ("sku", "S")]),
        tag("brand", vec![("label", "L")]),
    ];
    let merged = merge_vertex_tags(winner, &loser);
    assert_eq!(merged.len(), 2);
    assert!(matches!(merged[0].properties.get("sku"), Some(Value::String(s)) if s == "S"));
    assert!(matches!(merged[0].properties.get("name"), Some(Value::String(s)) if s == "A"));
    assert_eq!(merged[1].name, "brand");
    assert!(matches!(merged[1].properties.get("label"), Some(Value::String(s)) if s == "L"));
}
