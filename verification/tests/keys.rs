use byoridb_executor::keys::{edge_key, edge_type_from_key, vertex_key, vid_from_vertex_key};

#[test]
fn vid_is_the_last_field_of_a_vertex_key() {
    assert_eq!(vid_from_vertex_key(b"demo:vertex:42"), Some(42));
    assert_eq!(vid_from_vertex_key(b"demo:vertex:-7"), Some(-7));
    assert_eq!(vid_from_vertex_key(b"demo:vertex:+7"), Some(7));
    assert_eq!(vid_from_vertex_key(b"demo:vertex:x"), None);
    assert_eq!(vid_from_vertex_key(b"demo:vertex:"), None);
    assert_eq!(vid_from_vertex_key(b"demo:vertex:-"), None);
    assert_eq!(vid_from_vertex_key(b"demo:vertex:9223372036854775807"), Some(i64::MAX));
    assert_eq!(vid_from_vertex_key(b"demo:vertex:-9223372036854775808"), Some(i64::MIN));
    assert_eq!(vid_from_vertex_key(b"demo:vertex:9223372036854775808"), None);
    assert_eq!(vid_from_vertex_key(b"123"), Some(123));
    assert_eq!(vid_from_vertex_key(&[0xff, 0x3a, 0x31]), None);
}

#[test]
fn edge_type_is_the_fourth_field() {
    assert_eq!(edge_type_from_key(b"social:edge:1:follows:2:0").as_deref(), Some("follows"));
    assert_eq!(edge_type_from_key(b"social:edge:1"), None);
    assert_eq!(edge_type_from_key(&[0xc3]), None);
}

#[test]
fn built_keys_read_back() {
    let key = vertex_key("demo", -12);
    assert_eq!(key, "demo:vertex:-12");
    assert_eq!(vid_from_vertex_key(key.as_bytes()), Some(-12));
    let key = edge_key("social", 1, "follows", 2, 0);
    assert_eq!(key, "social:edge:1:follows:2:0");
    assert_eq!(edge_type_from_key(key.as_bytes()).as_deref(), Some("follows"));
}
