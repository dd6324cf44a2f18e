use byoridb_executor::result::ExecutorResult;
use byoridb_executor::value::Value;

#[test]
fn empty_results_have_no_columns_or_rows() {
    let r = ExecutorResult::empty();
    assert!(r.columns.is_empty());
    assert!(r.rows.is_empty());
    assert_eq!(r.latency_ms, 0);
}

#[test]
fn success_messages_fill_one_cell() {
    let r = ExecutorResult::success_message("done".to_string());
    assert_eq!(r.columns, vec!["Altered".to_string()]);
    assert_eq!(r.rows.len(), 1);
    assert!(matches!(&r.rows[0][0], Value::String(s) if s == "done"));
}
