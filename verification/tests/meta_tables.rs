use byoridb_executor::error::ExecutionError;
use byoridb_executor::lookup::IndexDef;
use byoridb_executor::meta_tables::{
    describe_index_result, describe_space_result, index_status_result, host_info_to_row, hosts_result, parts_result,
    listed_space_row, space_name_from_key, stored_space_row, HostInfo, SpaceDescription, SpaceInfo,
    SpaceRecord,
};
use byoridb_executor::config::PartAlloc;
use byoridb_executor::shape::VidType;
use byoridb_executor::value::Value;

fn text(rows: &[Vec<Value>]) -> Vec<Vec<String>> {
    rows.iter()
        .map(|row| {
            row.iter()
                .map(|v| match v {
                    Value::String(s) => s.clone(),
                    Value::Int(i) => i.to_string(),
                    other => panic!("unexpected cell {:?}", other),
                })
                .collect()
        })
        .collect()
}

#[test]
fn describe_space_lists_properties() {
    let d = SpaceDescription {
        id: 7,
        name: "g".to_string(),
        partition_num: 10,
        replica_factor: 3,
        layout: Some((VidType::FixedString(32), "Hash".to_string())),
    };
    let r = describe_space_result(&d);
    assert_eq!(r.columns, vec!["Property", "Value"]);
    assert_eq!(
        text(&r.rows),
        vec![
            vec!["ID", "7"],
            vec!["Name", "g"],
            vec!["Partition Num", "10"],
            vec!["Replica Factor", "3"],
            vec!["Vid Type", "FIXED_STRING(32)"],
            vec!["Partition Strategy", "Hash"],
        ]
    );
    let local = SpaceDescription { id: 0, name: "l".to_string(), partition_num: 0, replica_factor: 1, layout: None };
    assert_eq!(describe_space_result(&local).rows.len(), 4);
}

#[test]
fn show_parts_names_first_host_leader() {
    let allocs = vec![
        PartAlloc { part_id: 1, hosts: vec![("a".to_string(), 9779), ("b".to_string(), 9780)] },
        PartAlloc { part_id: 2, hosts: vec![] },
    ];
    let r = parts_result(&allocs);
    assert_eq!(r.columns, vec!["Part ID", "Leader", "Hosts"]);
    assert_eq!(text(&r.rows), vec![vec!["1", "a:9779", "a:9779, b:9780"], vec!["2", "N/A", ""]]);
}

#[test]
fn show_hosts_rows() {
    let h = HostInfo { host: "s1".to_string(), port: 9779, online: false, leader_count: 2, part_count: 5 };
    assert_eq!(text(&[host_info_to_row(&h)]), vec![vec!["s1", "9779", "OFFLINE", "2", "5"]]);
    let r = hosts_result(&vec![]);
    assert_eq!(r.columns, vec!["Host", "Port", "Status", "Leader Count", "Part Count"]);
    assert!(r.rows.is_empty());
}

#[test]
fn describe_index_finds_by_name_ignoring_case() {
    let indexes = vec![IndexDef {
        index_name: "Idx_Name".to_string(),
        schema_name: "person".to_string(),
        fields: vec!["name".to_string(), "age".to_string()],
    }];
    let r = describe_index_result(&indexes, "idx_name").unwrap();
    assert_eq!(r.columns, vec!["Field", "Type"]);
    assert_eq!(text(&r.rows), vec![vec!["name", "STRING"], vec!["age", "STRING"]]);
    match describe_index_result(&indexes, "missing") {
        Err(ExecutionError::IndexNotFound(m)) => assert_eq!(m, "Index 'missing' not found"),
        other => panic!("unexpected {:?}", other),
    }
}

#[test]
fn space_registry_keys_name_top_level_spaces_only() {
    assert_eq!(space_name_from_key(b"space:graph"), Some("graph".to_string()));
    assert_eq!(space_name_from_key(b"space:graph:tag:person"), None);
    assert_eq!(space_name_from_key(b"spaces:graph"), None);
    assert_eq!(space_name_from_key(&[0xff, 0xfe]), None);
}

#[test]
fn show_spaces_rows_from_registry_and_meta() {
    let rec = SpaceRecord { id: Some(4), partition_num: None, replica_factor: Some(1), vid_type: None };
    assert_eq!(text(&[stored_space_row("g".to_string(), &rec)]), vec![vec!["4", "g", "0", "1", "INT64"]]);
    let info = SpaceInfo {
        id: 2,
        name: "m".to_string(),
        partition_num: 8,
        replica_factor: 3,
        vid_type: VidType::FixedString(16),
    };
    assert_eq!(text(&[listed_space_row(&info)]), vec![vec!["2", "m", "8", "3", "FIXED_STRING(16)"]]);
}

#[test]
fn index_status_reports_every_index_done() {
    let indexes = vec![IndexDef {
        index_name: "i".to_string(),
        schema_name: "person".to_string(),
        fields: vec!["a".to_string(), "b".to_string()],
    }];
    let r = index_status_result(&indexes);
    assert_eq!(r.columns, vec!["Name", "Tag/Edge", "Fields", "Status"]);
    assert_eq!(text(&r.rows), vec![vec!["i", "person", "a, b", "DONE"]]);
}
