use byoridb_executor::config::{
    group_vids_by_partition, merge_bloom_replies, partition_host, DistributedQueryConfig,
    DistributedQueryError, ExecutionConfig, PartAlloc,
};

#[test]
fn test_default_config() {
    let config = DistributedQueryConfig::default();
    assert_eq!(config.max_parallel_requests, 100);
    assert_eq!(config.retry_count, 2);
    assert!(!config.read_from_followers);
}

#[test]
fn execution_config_defaults() {
    let c = ExecutionConfig::default();
    assert_eq!(c.timeout_ms, 30000);
    assert_eq!(c.max_memory_mb, 1024);
    assert!(c.enable_optimization);
    assert_eq!(c.max_traversal_nodes, 100_000);
    assert_eq!(c.max_scan_limit, 100_000);
    assert_eq!(c.max_go_steps, 20);
}

#[test]
fn grouping_keeps_each_vid_once_in_input_order() {
    let vids = vec![1, 2, 3, 4, 5, 6];
    let parts = vec![2, 1, 2, 3, 1, 2];
    let groups = group_vids_by_partition(&vids, &parts);
    assert_eq!(groups, vec![(2, vec![1, 3, 6]), (1, vec![2, 5]), (3, vec![4])]);
    let total: usize = groups.iter().map(|g| g.1.len()).sum();
    assert_eq!(total, vids.len());
}

#[test]
fn grouping_nothing_gives_no_groups() {
    assert!(group_vids_by_partition(&[], &[]).is_empty());
}

#[test]
fn distributed_error_messages() {
    assert_eq!(
        DistributedQueryError::NoPartitionHosts { part_id: 7 }.message(),
        "No partition hosts found for partition 7"
    );
    assert_eq!(
        DistributedQueryError::AllReplicasFailed { part_id: 12 }.message(),
        "All replicas failed for partition 12"
    );
    assert_eq!(
        DistributedQueryError::MetaError("down".to_string()).message(),
        "Meta client error: down"
    );
    assert_eq!(
        DistributedQueryError::InvalidConfig("x".to_string()).message(),
        "Invalid configuration: x"
    );
}

#[test]
fn partition_host_takes_first_host_of_matching_allocation() {
    let allocs = vec![
        PartAlloc { part_id: 1, hosts: vec![("a".to_string(), 1)] },
        PartAlloc { part_id: 2, hosts: vec![] },
        PartAlloc { part_id: 2, hosts: vec![("b".to_string(), 2), ("c".to_string(), 3)] },
    ];
    let (host, port) = partition_host(&allocs, 2).unwrap();
    assert_eq!((host.as_str(), port), ("b", 2));
    match partition_host(&allocs, 9) {
        Err(DistributedQueryError::NoPartitionHosts { part_id }) => assert_eq!(part_id, 9),
        other => panic!("expected NoPartitionHosts, got {other:?}"),
    }
}

#[test]
fn bloom_replies_mark_every_position_of_a_present_key() {
    let keys = vec![5, 6, 5, 7];
    let replies = vec![(vec![5, 7], Some(vec![true, false])), (vec![6], Some(vec![false]))];
    assert_eq!(merge_bloom_replies(&keys, &replies), vec![true, false, true, false]);
}

#[test]
fn bloom_replies_fall_back_to_all_present_when_nothing_is_known() {
    let keys = vec![5, 6];
    let replies = vec![(vec![5], None), (vec![6], Some(vec![false]))];
    assert_eq!(merge_bloom_replies(&keys, &replies), vec![true, true]);
    // A key whose partition did not answer is never reported definitely absent.
    let replies = vec![(vec![5], None), (vec![6], Some(vec![true]))];
    assert_eq!(merge_bloom_replies(&keys, &replies), vec![true, true]);
    let keys = vec![5, 6, 7];
    let replies = vec![(vec![5], None), (vec![6, 7], Some(vec![true, false]))];
    assert_eq!(merge_bloom_replies(&keys, &replies), vec![true, true, false]);
}

#[test]
fn test_group_vids_by_partition() {
    let vids = vec![1, 2, 3, 4, 5, 6, 7, 8, 9, 10];
    let partition_num = 3u32;
    // The partition of each id, as the partition hash assigns it.
    let parts: Vec<u32> = vids.iter().map(|v| (*v as u32 % partition_num) + 1).collect();
    let groups = group_vids_by_partition(&vids, &parts);
    let mut total_vids = 0;
    for (part_id, part_vids) in &groups {
        assert!(*part_id >= 1 && *part_id <= partition_num);
        assert!(!part_vids.is_empty());
        total_vids += part_vids.len();
        for vid in part_vids {
            let i = vids.iter().position(|v| v == vid).unwrap();
            assert_eq!(parts[i], *part_id);
        }
    }
    assert_eq!(total_vids, vids.len());
}
