use byoridb_executor::inference::{RelMeta, SemanticFlags};

fn flags() -> SemanticFlags {
    SemanticFlags {
        transitive: false,
        symmetric: false,
        inverse_of: None,
        subproperty_of: None,
        domain: None,
        range: None,
    }
}

#[test]
fn empty_until_something_is_declared() {
    let mut m = RelMeta::new();
    assert!(m.is_empty());
    m.register(&"plain".to_string(), &flags());
    assert!(m.is_empty());
    m.register(&"knows".to_string(), &SemanticFlags { symmetric: true, ..flags() });
    assert!(!m.is_empty());
}

#[test]
fn local_rules_derive_in_order() {
    let mut m = RelMeta::new();
    m.register(&"knows".to_string(), &SemanticFlags { symmetric: true, ..flags() });
    m.register(
        &"parentOf".to_string(),
        &SemanticFlags { inverse_of: Some("childOf".to_string()), ..flags() },
    );
    m.register(
        &"knows".to_string(),
        &SemanticFlags { subproperty_of: Some("related".to_string()), ..flags() },
    );
    let d = m.derive_local(1, &"knows".to_string(), 2);
    assert_eq!(d, vec![(2, "knows".to_string(), 1), (1, "related".to_string(), 2)]);
    let d = m.derive_local(1, &"childOf".to_string(), 2);
    assert_eq!(d, vec![(2, "parentOf".to_string(), 1)]);
    let d = m.derive_local(1, &"parentOf".to_string(), 2);
    assert_eq!(d, vec![(2, "childOf".to_string(), 1)]);
    assert!(m.derive_local(1, &"other".to_string(), 2).is_empty());
}

#[test]
fn transitivity_domain_and_range_lookups() {
    let mut m = RelMeta::new();
    m.register(
        &"bornIn".to_string(),
        &SemanticFlags {
            transitive: true,
            domain: Some("person".to_string()),
            range: Some("city".to_string()),
            ..flags()
        },
    );
    m.register(&"bornIn".to_string(), &SemanticFlags { range: Some("place".to_string()), ..flags() });
    assert!(m.is_transitive(&"bornIn".to_string()));
    assert!(!m.is_transitive(&"knows".to_string()));
    assert_eq!(m.domain_of(&"bornIn".to_string()).as_deref(), Some("person"));
    assert_eq!(m.range_of(&"bornIn".to_string()).as_deref(), Some("place"));
    assert_eq!(m.domain_of(&"knows".to_string()), None);
}
