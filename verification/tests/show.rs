use byoridb_executor::show::{describe_class_rows, index_rows, local_index_rows, IndexListing};
use byoridb_executor::schema::ClassDef;
use byoridb_executor::show::{check_stored_username, show_classes_rows, user_key_name, user_listing};
use byoridb_executor::sorting::{sort_by_name, sorted_unique};

fn s(x: &str) -> String {
    x.to_string()
}

#[test]
fn show_users_lists_root_and_persisted_users_in_stable_order() {
    let prefix = "__user__:";
    let stored = vec![
        (format!("{prefix}zoe"), vec!["USER", "ADMIN", "USER"]),
        (format!("{prefix}alice"), vec![]),
        (format!("{prefix}RoOt"), vec!["GUEST"]),
    ];
    let mut users = Vec::new();
    for (key, roles) in stored {
        // A legacy root record neither duplicates nor overrides built-in root.
        if let Some(name) = user_key_name(&key, prefix).unwrap() {
            check_stored_username(&name, Some(&name)).unwrap();
            users.push((name, roles.into_iter().map(s).collect::<Vec<_>>()));
        }
    }
    let rows = user_listing(true, users).unwrap();
    assert_eq!(
        rows,
        vec![(s("alice"), s("")), (s("root"), s("GOD")), (s("zoe"), s("ADMIN, USER"))]
    );
}

#[test]
fn show_users_requires_admin_role() {
    let err = user_listing(false, vec![]).unwrap_err();
    assert_eq!(err.message(), "Invalid operation: SHOW USERS requires GOD or ADMIN role");
}

#[test]
fn stored_user_keys_are_checked() {
    let err = user_key_name("other:x", "user:").unwrap_err();
    assert_eq!(err.message(), "Invalid operation: Stored user metadata has an invalid key: other:x");
    let err = user_key_name("user:", "user:").unwrap_err();
    assert_eq!(err.message(), "Invalid operation: Stored user metadata has an empty username");
    assert_eq!(user_key_name("user:ROOT", "user:").unwrap(), None);
    assert_eq!(user_key_name("user:bob", "user:").unwrap(), Some(s("bob")));
    let err = check_stored_username("bob", None).unwrap_err();
    assert_eq!(err.message(), "Invalid operation: Stored user metadata for bob is missing username");
    let err = check_stored_username("bob", Some("rob")).unwrap_err();
    assert_eq!(
        err.message(),
        "Invalid operation: Stored user metadata key bob does not match username rob"
    );
}

#[test]
fn show_classes_sorts_by_name() {
    let defs = vec![
        ClassDef { name: s("dog"), superclasses: vec![s("animal"), s("pet")] },
        ClassDef { name: s("animal"), superclasses: vec![] },
    ];
    assert_eq!(
        show_classes_rows(defs),
        vec![(s("animal"), s("")), (s("dog"), s("animal, pet"))]
    );
}

#[test]
fn sorting_is_by_code_point_and_stable() {
    let v = vec![(s("b"), 1), (s("B"), 2), (s("a"), 3), (s("b"), 4), (s(""), 5)];
    let sorted = sort_by_name(v);
    let keys: Vec<(String, i32)> = sorted;
    assert_eq!(keys, vec![(s(""), 5), (s("B"), 2), (s("a"), 3), (s("b"), 1), (s("b"), 4)]);
    assert_eq!(sorted_unique(vec![s("USER"), s("ADMIN"), s("USER")]), vec![s("ADMIN"), s("USER")]);
}

use byoridb_executor::shape::DataType;
use byoridb_executor::show::{schema_fields_to_result, schema_name_from_key, FieldInfo};
use byoridb_executor::value::Value;

#[test]
fn schema_names_come_after_the_last_marker() {
    assert_eq!(schema_name_from_key(b"space:nba:tag:player", ":tag:"), Some(s("player")));
    // Index entries below the same prefix are skipped.
    assert_eq!(schema_name_from_key(b"space:nba:tag:tag_index:3", ":tag:"), None);
    assert_eq!(schema_name_from_key(b"space:nba:tag:", ":tag:"), None);
    assert_eq!(schema_name_from_key(b"space:nba:edge:follow", ":tag:"), None);
    assert_eq!(schema_name_from_key(b"a:tag:b:tag:c", ":tag:"), Some(s("c")));
    assert_eq!(schema_name_from_key(&[0xff, 0xfe], ":tag:"), None);
}

#[test]
fn describe_rows_show_each_field() {
    let fields = vec![
        FieldInfo { name: s("name"), data_type: DataType::String, nullable: false, default: None },
        FieldInfo { name: s("age"), data_type: DataType::Int64, nullable: true, default: Some(s("0")) },
    ];
    let r = schema_fields_to_result(&fields);
    assert_eq!(r.columns, vec![s("Field"), s("Type"), s("Null"), s("Default")]);
    assert!(matches!(&r.rows[0][1], Value::String(t) if t == "STRING"));
    assert!(matches!(&r.rows[0][2], Value::String(t) if t == "NO"));
    assert!(matches!(&r.rows[0][3], Value::Null));
    assert!(matches!(&r.rows[1][1], Value::String(t) if t == "INT64"));
    assert!(matches!(&r.rows[1][3], Value::String(t) if t == "0"));
}

#[test]
fn index_rows_label_known_and_unknown_schemas() {
    let indexes = vec![
        IndexListing { index_name: "idx_name".to_string(), schema_id: 3, fields: vec!["name".to_string(), "age".to_string()] },
        IndexListing { index_name: "idx_orphan".to_string(), schema_id: 42, fields: vec![] },
    ];
    let names = vec![(3u32, "person".to_string())];
    let tag_rows = index_rows(&indexes, &names, false);
    assert_eq!(tag_rows[0], ("idx_name".to_string(), "person".to_string(), "name, age".to_string()));
    assert_eq!(tag_rows[1], ("idx_orphan".to_string(), "<tag_id=42>".to_string(), "".to_string()));
    let edge_rows = index_rows(&indexes, &vec![], true);
    assert_eq!(edge_rows[0].1, "<edge_id=3>");
    let local = local_index_rows(&vec![("i".to_string(), "knows".to_string(), vec!["since".to_string()])]);
    assert_eq!(local, vec![("i".to_string(), "knows".to_string(), "since".to_string())]);
}

#[test]
fn describe_class_lists_superclasses_then_indirect_ancestors() {
    let fields = vec![vec![Value::String("name".to_string())]];
    let rows = describe_class_rows(
        fields,
        &vec!["Agent".to_string()],
        &vec!["Agent".to_string(), "Thing".to_string()],
    );
    assert_eq!(rows.len(), 3);
    assert!(matches!(&rows[1][0], Value::String(s) if s == "(superclass)"));
    assert!(matches!(&rows[1][1], Value::String(s) if s == "Agent"));
    assert!(matches!(&rows[2][0], Value::String(s) if s == "(ancestor)"));
    assert!(matches!(&rows[2][1], Value::String(s) if s == "Thing"));
    assert!(matches!(&rows[2][3], Value::Null));
}
