use byoridb_executor::error::ErrorKind;
use byoridb_executor::inference::SemanticFlags;
use byoridb_executor::schema::{
    create_class_decision, create_edge_decision, dedup_parents, drop_class_decision, ClassDef,
    EdgeTargets, ParentFacts,
};

fn class_fact() -> ParentFacts {
    ParentFacts { is_class: true, has_child_as_ancestor: false }
}

#[test]
fn duplicate_create_errors_unless_if_not_exists() {
    let err = create_class_decision("animal", false, true, true, &vec![], &vec![]).unwrap_err();
    assert!(err.message().contains("already exists"));
    assert_eq!(err.message(), "Invalid operation: Class animal already exists");
    assert_eq!(create_class_decision("animal", true, true, true, &vec![], &vec![]).ok(), Some(false));
    assert_eq!(create_class_decision("animal", false, false, false, &vec![], &vec![]).ok(), Some(true));
}

#[test]
fn multi_parent_superclasses_are_recorded() {
    let parents = dedup_parents(vec!["animal".to_string(), "pet".to_string(), "animal".to_string()]);
    assert_eq!(parents, vec!["animal".to_string(), "pet".to_string()]);
    let facts = vec![class_fact(), class_fact()];
    assert_eq!(create_class_decision("dog", false, false, false, &parents, &facts).ok(), Some(true));
}

#[test]
fn self_subclass_is_rejected() {
    let parents = vec!["dog".to_string()];
    let facts = vec![ParentFacts { is_class: false, has_child_as_ancestor: false }];
    let err = create_class_decision("dog", false, false, false, &parents, &facts).unwrap_err();
    assert!(err.message().contains("subclass of itself"));
}

#[test]
fn parent_must_exist_as_class_not_tag() {
    let parents = vec!["animal".to_string()];
    let facts = vec![ParentFacts { is_class: false, has_child_as_ancestor: false }];
    let err = create_class_decision("cat", false, false, false, &parents, &facts).unwrap_err();
    assert!(err.message().contains("does not exist as a class"));
    assert_eq!(err.message(), "Invalid operation: Superclass animal does not exist as a class");
}

#[test]
fn cycles_through_the_new_class_are_refused() {
    let parents = vec!["a".to_string(), "b".to_string()];
    let facts = vec![class_fact(), ParentFacts { is_class: true, has_child_as_ancestor: true }];
    let err = create_class_decision("c", false, false, false, &parents, &facts).unwrap_err();
    assert_eq!(err.message(), "Invalid operation: SUBCLASS OF b would create a cycle through c");
}

#[test]
fn tag_name_collision_blocks_class_creation() {
    let err = create_class_decision("dog", false, false, true, &vec![], &vec![]).unwrap_err();
    assert!(err.message().contains("Tag dog already exists"));
}

fn class(name: &str, parents: &[&str]) -> ClassDef {
    ClassDef { name: name.to_string(), superclasses: parents.iter().map(|p| p.to_string()).collect() }
}

#[test]
fn drop_class_restricts_while_children_exist() {
    let defs = vec![class("animal", &[]), class("dog", &["animal"]), class("cat", &["pet", "animal"])];
    let err = drop_class_decision("animal", false, true, &defs).unwrap_err();
    assert!(err.message().contains("has subclasses"));
    assert_eq!(
        err.message(),
        "Invalid operation: Class animal has subclasses (dog, cat); drop them first"
    );
    assert_eq!(drop_class_decision("dog", false, true, &defs).ok(), Some(true));
    assert_eq!(drop_class_decision("animal", true, false, &vec![]).ok(), Some(false));
    let err = drop_class_decision("animal", false, false, &vec![]).unwrap_err();
    assert_eq!(err.message(), "Invalid operation: Class animal not found");
}

fn flags(inverse: Option<&str>, sub: Option<&str>, domain: Option<&str>, range: Option<&str>) -> SemanticFlags {
    SemanticFlags {
        transitive: false,
        symmetric: false,
        inverse_of: inverse.map(|s| s.to_string()),
        subproperty_of: sub.map(|s| s.to_string()),
        domain: domain.map(|s| s.to_string()),
        range: range.map(|s| s.to_string()),
    }
}

fn targets(all: bool) -> EdgeTargets {
    EdgeTargets { inverse_exists: all, subproperty_exists: all, domain_exists: all, range_exists: all }
}

#[test]
fn create_edge_rejects_unknown_and_self_reference() {
    let err = create_edge_decision("bad", false, false, &flags(Some("nonexistent"), None, None, None), &targets(false))
        .unwrap_err();
    assert_eq!(
        err.message(),
        "Invalid operation: INVERSE OF target edge type 'nonexistent' does not exist"
    );
    let err = create_edge_decision("foo", false, false, &flags(Some("foo"), None, None, None), &targets(true))
        .unwrap_err();
    assert_eq!(err.message(), "Invalid operation: Edge foo cannot be INVERSE OF itself");
}

#[test]
fn create_edge_rejects_unknown_domain_class() {
    let err = create_edge_decision("bad", false, false, &flags(None, None, Some("nonexistent_class"), None), &targets(false))
        .unwrap_err();
    assert_eq!(err.kind(), ErrorKind::InvalidOperation);
    assert_eq!(
        err.message(),
        "Invalid operation: DOMAIN target class 'nonexistent_class' does not exist"
    );
}

#[test]
fn create_edge_with_known_targets() {
    let f = flags(Some("knows"), Some("related"), Some("person"), Some("person"));
    assert_eq!(create_edge_decision("friend", false, false, &f, &targets(true)).ok(), Some(true));
    assert_eq!(create_edge_decision("friend", true, true, &f, &targets(true)).ok(), Some(false));
    let err = create_edge_decision("friend", false, true, &f, &targets(true)).unwrap_err();
    assert_eq!(err.message(), "Invalid operation: Edge friend already exists");
    let err = create_edge_decision("r", false, false, &flags(None, Some("r"), None, None), &targets(true)).unwrap_err();
    assert_eq!(err.message(), "Invalid operation: Edge r cannot be SUBPROPERTY OF itself");
}

use byoridb_executor::schema::{disjoint_violations, ClassDisjoint};

fn names(v: &[&str]) -> Vec<String> {
    v.iter().map(|s| s.to_string()).collect()
}

fn disjoint(name: &str, with: &[&str]) -> ClassDisjoint {
    ClassDisjoint { name: name.to_string(), disjoint: names(with) }
}

#[test]
fn detects_disjoint_violation_via_inferred_type() {
    // Vertex 2 is a person (declared) and a city (inferred by RANGE).
    let decl = vec![disjoint("person", &[]), disjoint("city", &["person"])];
    let v = disjoint_violations(&names(&["person", "city"]), &decl);
    assert_eq!(v, vec![("city".to_string(), "person".to_string())]);
}

#[test]
fn detects_violation_through_subclass_ancestors() {
    let decl = vec![
        disjoint("animal", &[]),
        disjoint("vehicle", &["animal"]),
        disjoint("dog", &[]),
        disjoint("car", &[]),
    ];
    let v = disjoint_violations(&names(&["dog", "animal", "car", "vehicle"]), &decl);
    assert_eq!(v, vec![("animal".to_string(), "vehicle".to_string())]);
}

#[test]
fn clean_when_no_disjoint_declared() {
    let decl = vec![disjoint("person", &[])];
    assert!(disjoint_violations(&names(&["person"]), &decl).is_empty());
    // Disjoint classes the vertex does not both carry are no violation.
    let decl = vec![disjoint("city", &["person"])];
    assert!(disjoint_violations(&names(&["person", "dog"]), &decl).is_empty());
}

#[test]
fn each_violated_pair_is_reported_once() {
    let decl = vec![disjoint("a", &["b"]), disjoint("b", &["a"])];
    let v = disjoint_violations(&names(&["b", "a", "b"]), &decl);
    assert_eq!(v, vec![("a".to_string(), "b".to_string())]);
}
