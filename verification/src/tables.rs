//! The result tables of WHY, SHOW USERS and CHECK CONSISTENCY, built from
//! the rows the library computes.
use vstd::prelude::*;
use crate::provenance::ExplainRow;
use crate::result::ExecutorResult;
use crate::value::{Value, VModel, value_model};

verus! {

/// A WHY row as a table row: depth, fact, status, rule, premises.
pub open spec fn explain_row_ok(row: Seq<Value>, e: ExplainRow) -> bool {
    &&& row.len() == 5
    &&& value_model(row[0]) == VModel::Int(e.depth)
    &&& value_model(row[1]) == VModel::Str(e.fact@)
    &&& value_model(row[2]) == VModel::Str(e.status@)
    &&& value_model(row[3]) == VModel::Str(e.rule@)
    &&& value_model(row[4]) == VModel::Str(e.premises@)
}

/// The WHY table under `depth`, `fact`, `status`, `rule` and `premises`:
/// one row per explanation row, in order.
pub fn explain_result(rows: Vec<ExplainRow>) -> (r: ExecutorResult)
    ensures
        r.columns@.len() == 5,
        r.columns@[0]@ == "depth"@,
        r.columns@[1]@ == "fact"@,
        r.columns@[2]@ == "status"@,
        r.columns@[3]@ == "rule"@,
        r.columns@[4]@ == "premises"@,
        r.rows@.len() == rows@.len(),
        forall|i: int| 0 <= i < rows@.len() ==> explain_row_ok((#[trigger] r.rows@[i])@, rows@[i]),
        r.latency_ms == 0,
{
    let mut out: Vec<Vec<Value>> = Vec::new();
    let mut i: usize = 0;
    while i < rows.len()
        invariant
            i <= rows@.len(),
            out@.len() == i,
            forall|k: int| 0 <= k < i ==> explain_row_ok((#[trigger] out@[k])@, rows@[k]),
        decreases rows.len() - i,
    {
        let e = &rows[i];
        let mut row: Vec<Value> = Vec::new();
        row.push(Value::Int(e.depth));
        row.push(Value::String(e.fact.clone()));
        row.push(Value::String(e.status.clone()));
        row.push(Value::String(e.rule.clone()));
        row.push(Value::String(e.premises.clone()));
        out.push(row);
        i = i + 1;
    }
    let mut columns: Vec<String> = Vec::new();
    columns.push(String::from_str("depth"));
    columns.push(String::from_str("fact"));
    columns.push(String::from_str("status"));
    columns.push(String::from_str("rule"));
    columns.push(String::from_str("premises"));
    ExecutorResult { columns, rows: out, latency_ms: 0 }
}

/// A row of two text cells.
pub open spec fn text_pair_row_ok(row: Seq<Value>, a: Seq<char>, b: Seq<char>) -> bool {
    &&& row.len() == 2
    &&& value_model(row[0]) == VModel::Str(a)
    &&& value_model(row[1]) == VModel::Str(b)
}

/// The SHOW USERS table under `Name` and `Role`: one row per listed user,
/// in order.
pub fn users_result(rows: Vec<(String, String)>) -> (r: ExecutorResult)
    ensures
        r.columns@.len() == 2,
        r.columns@[0]@ == "Name"@,
        r.columns@[1]@ == "Role"@,
        r.rows@.len() == rows@.len(),
        forall|i: int| 0 <= i < rows@.len() ==> text_pair_row_ok((#[trigger] r.rows@[i])@, rows@[i].0@, rows@[i].1@),
        r.latency_ms == 0,
{
    let mut out: Vec<Vec<Value>> = Vec::new();
    let mut i: usize = 0;
    while i < rows.len()
        invariant
            i <= rows@.len(),
            out@.len() == i,
            forall|k: int| 0 <= k < i ==> text_pair_row_ok((#[trigger] out@[k])@, rows@[k].0@, rows@[k].1@),
        decreases rows.len() - i,
    {
        let mut row: Vec<Value> = Vec::new();
        row.push(Value::String(rows[i].0.clone()));
        row.push(Value::String(rows[i].1.clone()));
        out.push(row);
        i = i + 1;
    }
    let mut columns: Vec<String> = Vec::new();
    columns.push(String::from_str("Name"));
    columns.push(String::from_str("Role"));
    ExecutorResult { columns, rows: out, latency_ms: 0 }
}

/// A CHECK CONSISTENCY row: the vertex as displayed, then the two classes.
pub open spec fn violation_row_ok(row: Seq<Value>, vid: VModel, a: Seq<char>, b: Seq<char>) -> bool {
    &&& row.len() == 3
    &&& value_model(row[0]) == vid
    &&& value_model(row[1]) == VModel::Str(a)
    &&& value_model(row[2]) == VModel::Str(b)
}

/// The CHECK CONSISTENCY table under `vid`, `class_a` and `class_b`: for
/// each checked vertex, as displayed, one row per disjointness violation it
/// has, in order. An empty table means the space is consistent.
pub fn consistency_result(vertices: &Vec<(Value, Vec<(String, String)>)>) -> (r: ExecutorResult)
    ensures
        r.columns@.len() == 3,
        r.columns@[0]@ == "vid"@,
        r.columns@[1]@ == "class_a"@,
        r.columns@[2]@ == "class_b"@,
        r.rows@.len() == violation_count(vertices@),
        forall|v: int, j: int|
            0 <= v < vertices@.len() && 0 <= j < vertices@[v].1@.len() ==> violation_row_ok(
                #[trigger] r.rows@[violation_count(vertices@.take(v)) + j]@,
                value_model(vertices@[v].0),
                vertices@[v].1@[j].0@,
                vertices@[v].1@[j].1@,
            ),
        r.latency_ms == 0,
{
    let mut out: Vec<Vec<Value>> = Vec::new();
    let mut v: usize = 0;
    while v < vertices.len()
        invariant
            v <= vertices@.len(),
            out@.len() == violation_count(vertices@.take(v as int)),
            forall|a: int, j: int|
                0 <= a < v && 0 <= j < vertices@[a].1@.len() ==> violation_row_ok(
                    #[trigger] out@[violation_count(vertices@.take(a)) + j]@,
                    value_model(vertices@[a].0),
                    vertices@[a].1@[j].0@,
                    vertices@[a].1@[j].1@,
                ),
        decreases vertices.len() - v,
    {
        let ghost base = out@.len();
        let ghost before = out@;
        let pairs = &vertices[v].1;
        let mut j: usize = 0;
        while j < pairs.len()
            invariant
                v < vertices@.len(),
                j <= pairs@.len(),
                pairs@ == vertices@[v as int].1@,
                out@.len() == base + j,
                before.len() == base,
                forall|k: int| 0 <= k < base ==> out@[k] == before[k],
                forall|k: int|
                    0 <= k < j ==> violation_row_ok(
                        #[trigger] out@[base + k]@,
                        value_model(vertices@[v as int].0),
                        pairs@[k].0@,
                        pairs@[k].1@,
                    ),
            decreases pairs.len() - j,
        {
            let mut row: Vec<Value> = Vec::new();
            row.push(vertices[v].0.duplicate());
            row.push(Value::String(pairs[j].0.clone()));
            row.push(Value::String(pairs[j].1.clone()));
            out.push(row);
            j = j + 1;
        }
        proof {
            assert(vertices@.take(v + 1).drop_last() =~= vertices@.take(v as int));
            assert forall|a: int, k: int|
                0 <= a < v + 1 && 0 <= k < vertices@[a].1@.len() implies violation_row_ok(
                    #[trigger] out@[violation_count(vertices@.take(a)) + k]@,
                    value_model(vertices@[a].0),
                    vertices@[a].1@[k].0@,
                    vertices@[a].1@[k].1@,
                ) by {
                if a < v {
                    lemma_violation_count_prefix(vertices@, a, v as int);
                    lemma_violation_count_nonneg(vertices@.take(a));
                    assert(out@[violation_count(vertices@.take(a)) + k] == before[violation_count(
                        vertices@.take(a),
                    ) + k]);
                }
            }
        }
        v = v + 1;
    }
    assert(vertices@.take(vertices@.len() as int) =~= vertices@);
    let mut columns: Vec<String> = Vec::new();
    columns.push(String::from_str("vid"));
    columns.push(String::from_str("class_a"));
    columns.push(String::from_str("class_b"));
    ExecutorResult { columns, rows: out, latency_ms: 0 }
}

/// How many violations the vertices have together.
pub open spec fn violation_count(vertices: Seq<(Value, Vec<(String, String)>)>) -> int
    decreases vertices.len(),
{
    if vertices.len() == 0 {
        0
    } else {
        violation_count(vertices.drop_last()) + vertices.last().1@.len()
    }
}

proof fn lemma_violation_count_prefix(vertices: Seq<(Value, Vec<(String, String)>)>, a: int, v: int)
    requires
        0 <= a < v < vertices.len(),
    ensures
        violation_count(vertices.take(a)) + vertices[a].1@.len() <= violation_count(vertices.take(v)),
    decreases v - a,
{
    assert(vertices.take(a + 1).drop_last() =~= vertices.take(a));
    if a + 1 < v {
        lemma_violation_count_prefix(vertices, a + 1, v);
        lemma_violation_count_nonneg(vertices.take(a + 1));
    }
    assert(vertices.take(a + 1).last() == vertices[a]);
    assert(vertices.take(v).take(a + 1) =~= vertices.take(a + 1));
    lemma_violation_count_mono(vertices.take(v), a + 1);
}

proof fn lemma_violation_count_nonneg(vertices: Seq<(Value, Vec<(String, String)>)>)
    ensures
        violation_count(vertices) >= 0,
    decreases vertices.len(),
{
    if vertices.len() > 0 {
        lemma_violation_count_nonneg(vertices.drop_last());
    }
}

proof fn lemma_violation_count_mono(vertices: Seq<(Value, Vec<(String, String)>)>, n: int)
    requires
        0 <= n <= vertices.len(),
    ensures
        violation_count(vertices.take(n)) <= violation_count(vertices),
    decreases vertices.len() - n,
{
    if n < vertices.len() {
        let t = vertices.drop_last();
        assert(t.take(n) =~= vertices.take(n));
        lemma_violation_count_mono(t, n);
        assert(vertices.drop_last() == t);
    } else {
        assert(vertices.take(n) =~= vertices);
    }
}

} // verus!
