//! The table a statement returns.
use vstd::prelude::*;
use crate::value::{Value, VModel, value_model};

verus! {

/// Result of executing a statement: column headers, rows of values, and the
/// time taken.
#[derive(Debug)]
pub struct ExecutorResult {
    pub columns: Vec<String>,
    pub rows: Vec<Vec<Value>>,
    pub latency_ms: u64,
}

impl ExecutorResult {
    /// A result with no columns and no rows (DDL statements).
    pub fn empty() -> (r: ExecutorResult)
        ensures
            r.columns@.len() == 0,
            r.rows@.len() == 0,
            r.latency_ms == 0,
    {
        ExecutorResult { columns: Vec::new(), rows: Vec::new(), latency_ms: 0 }
    }

    /// A one-cell result under the header `Altered` holding `message`.
    pub fn success_message(message: String) -> (r: ExecutorResult)
        ensures
            r.columns@.len() == 1,
            r.columns@[0]@ == "Altered"@,
            r.rows@.len() == 1,
            r.rows@[0]@.len() == 1,
            value_model(r.rows@[0]@[0]) == VModel::Str(message@),
            r.latency_ms == 0,
    {
        let mut columns: Vec<String> = Vec::new();
        columns.push(String::from_str("Altered"));
        let mut row: Vec<Value> = Vec::new();
        row.push(Value::String(message));
        let mut rows: Vec<Vec<Value>> = Vec::new();
        rows.push(row);
        ExecutorResult { columns, rows, latency_ms: 0 }
    }
}

} // verus!
