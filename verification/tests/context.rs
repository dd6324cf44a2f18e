use byoridb_executor::config::ExecutionConfig;
use byoridb_executor::context::{ExecutionContext, ProfileOp};
use byoridb_executor::result::ExecutorResult;
use byoridb_executor::value::Value;

#[test]
fn a_new_context_is_local_and_quiet() {
    let c = ExecutionContext::new();
    assert!(c.space.is_none());
    assert!(!c.is_distributed());
    assert!(!c.has_meta_client());
    assert!(!c.profiling());
    assert!(!c.took_full_scan());
    assert_eq!(c.get_partition_num(), None);
    assert_eq!(c.config.max_go_steps, 20);
}

#[test]
fn distributed_mode_needs_both_clients_and_partitions() {
    let c = ExecutionContext::new().with_distributed_mode(8);
    assert!(!c.is_distributed());
    assert_eq!(c.get_partition_num(), Some(8));
    let c = c.with_meta_client();
    assert!(c.has_meta_client());
    assert!(c.is_distributed());
}

#[test]
fn admin_roles() {
    let c = ExecutionContext::new().with_caller_roles(vec!["USER".to_string(), "ADMIN".to_string()]);
    assert!(c.is_admin());
    let c = ExecutionContext::new().with_caller_roles(vec!["GUEST".to_string()]);
    assert!(!c.is_admin());
    assert!(ExecutionContext::new().with_caller_roles(vec!["GOD".to_string()]).is_admin());
}

#[test]
fn variables_read_back_their_latest_binding() {
    let mut c = ExecutionContext::new();
    assert!(c.lookup_var("v").is_none());
    c.bind_var("v".to_string(), ExecutorResult::success_message("first".to_string()));
    c.bind_var("w".to_string(), ExecutorResult::empty());
    c.bind_var("v".to_string(), ExecutorResult::success_message("second".to_string()));
    let v = c.lookup_var("v").unwrap();
    assert!(matches!(&v.rows[0][0], Value::String(s) if s == "second"));
    assert!(c.lookup_var("w").unwrap().rows.is_empty());
    assert!(c.lookup_var("x").is_none());
}

#[test]
fn profiles_collect_only_while_enabled() {
    let mut c = ExecutionContext::new();
    c.record_profile(ProfileOp::Project, "ignored".to_string(), 1, 1, false);
    c.enable_profile();
    assert!(c.profiling());
    c.record_profile(ProfileOp::GetNeighbors, "over [follow]".to_string(), 3, 10, false);
    c.record_profile(ProfileOp::FullScan, "scan".to_string(), 9, 20, true);
    let records = c.disable_profile().unwrap();
    assert_eq!(records.len(), 2);
    assert_eq!(records[0].op, ProfileOp::GetNeighbors);
    assert_eq!(records[1].rows, 9);
    assert!(records[1].full_scan);
    assert!(!c.profiling());
    assert!(c.disable_profile().is_none());
}

#[test]
fn full_scans_are_remembered() {
    let mut c = ExecutionContext::new();
    c.mark_full_scan();
    assert!(c.took_full_scan());
    assert!(ExecutionContext::new().with_full_scan_flag(true).took_full_scan());
}

#[test]
fn builders_set_their_field() {
    let mut cfg = ExecutionConfig::default();
    cfg.max_go_steps = 3;
    let c = ExecutionContext::new()
        .with_space("nba".to_string())
        .with_space_id(4)
        .with_config(cfg)
        .with_index_manager();
    assert_eq!(c.space.as_deref(), Some("nba"));
    assert_eq!(c.space_id, Some(4));
    assert_eq!(c.config.max_go_steps, 3);
    assert!(c.index_manager_attached);
}

use byoridb_executor::context::resolve_local_partition_num;

#[test]
fn test_resolve_local_partition_num_uses_ctx_value() {
    let mut ctx = ExecutionContext::new().with_space("default".to_string());
    ctx.partition_num = Some(7);
    assert_eq!(resolve_local_partition_num(&ctx, None), 7);
}

#[test]
fn test_resolve_local_partition_num_falls_back_to_one() {
    let ctx = ExecutionContext::new();
    assert_eq!(resolve_local_partition_num(&ctx, None), 1);
}

#[test]
fn test_resolve_local_partition_num_clamps_zero_to_one() {
    let mut ctx = ExecutionContext::new().with_space("default".to_string());
    ctx.partition_num = Some(0);
    assert_eq!(resolve_local_partition_num(&ctx, None), 1, "partition_num must never resolve to 0");
}

#[test]
fn partition_count_from_the_metadata_service() {
    let ctx = ExecutionContext::new();
    assert_eq!(resolve_local_partition_num(&ctx, Some(12)), 12);
    assert_eq!(resolve_local_partition_num(&ctx, Some(0)), 1);
    let mut with_ctx = ExecutionContext::new();
    with_ctx.partition_num = Some(3);
    assert_eq!(resolve_local_partition_num(&with_ctx, Some(12)), 3);
}
