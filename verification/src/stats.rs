//! SHOW STATS: how many vertices carry each tag first and how many edges
//! there are of each type, with every type declared in the schema listed
//! even when nothing is stored under it.
use vstd::prelude::*;
use crate::result::ExecutorResult;
use crate::sorting::{lemma_push_contains, names_strictly_sorted, sorted_unique, views_of};
use crate::text::{chars_of, split_chars, split_on, string_of_chars};
use crate::value::{Value, VModel, value_model};

verus! {

/// What a stored vertex record shows of its tags.
pub enum VertexScan {
    /// The record decodes; this is the name of its first tag.
    Tagged(String),
    /// The record decodes but has no tag.
    Untagged,
    /// The record does not decode.
    Unreadable,
}

/// The name a vertex is counted under: its first tag, `_unknown` when it
/// has none; a record that does not decode is counted under no name.
pub open spec fn vertex_count_name(v: VertexScan) -> Option<Seq<char>> {
    match v {
        VertexScan::Tagged(n) => Some(n@),
        VertexScan::Untagged => Some("_unknown"@),
        VertexScan::Unreadable => None,
    }
}

/// The name an edge is counted under, from its key as text: the fourth
/// `:`-separated part, `_unknown` when there are fewer parts; a key that is
/// not text is counted under no name.
pub open spec fn edge_count_name(key: Option<String>) -> Option<Seq<char>> {
    match key {
        Some(t) => if split_on(t@, ':').len() > 3 {
            Some(split_on(t@, ':')[3])
        } else {
            Some("_unknown"@)
        },
        None => None,
    }
}

/// How many of `names` are `name`.
pub open spec fn tally(names: Seq<Option<Seq<char>>>, name: Seq<char>) -> nat
    decreases names.len(),
{
    if names.len() == 0 {
        0
    } else {
        tally(names.drop_last(), name) + if names.last() == Some(name) {
            1nat
        } else {
            0nat
        }
    }
}

/// The names of counted rows.
pub open spec fn row_names(rows: Seq<(String, i64)>) -> Seq<Seq<char>> {
    rows.map_values(|r: (String, i64)| r.0@)
}

/// `rows` counts `observed` by name: one row per name that is declared in
/// `declared` or observed, in name order, with the number of times it was
/// observed.
pub open spec fn counted(rows: Seq<(String, i64)>, declared: Seq<String>, observed: Seq<
    Option<Seq<char>>,
>) -> bool {
    &&& names_strictly_sorted(row_names(rows))
    &&& forall|x: Seq<char>|
        #[trigger] row_names(rows).contains(x) <==> (views_of(declared).contains(x)
            || observed.contains(Some(x)))
    &&& forall|i: int| 0 <= i < rows.len() ==> (#[trigger] rows[i]).1 == tally(observed, rows[i].0@)
}

/// The views of optional names.
pub open spec fn opt_views(v: Seq<Option<String>>) -> Seq<Option<Seq<char>>> {
    v.map_values(|o: Option<String>| match o {
        Some(s) => Some(s@),
        None => None,
    })
}

fn count_of(observed: &Vec<Option<String>>, name: &String) -> (c: i64)
    requires
        observed@.len() <= i64::MAX,
    ensures
        c == tally(opt_views(observed@), name@),
{
    let mut c: i64 = 0;
    let mut j: usize = 0;
    while j < observed.len()
        invariant
            j <= observed@.len(),
            observed@.len() <= i64::MAX,
            c <= j,
            c == tally(opt_views(observed@).take(j as int), name@),
        decreases observed.len() - j,
    {
        assert(opt_views(observed@).take(j + 1).drop_last() =~= opt_views(observed@).take(j as int));
        let same = match &observed[j] {
            Some(n) => *n == *name,
            None => false,
        };
        if same {
            c = c + 1;
        }
        j = j + 1;
    }
    assert(opt_views(observed@).take(observed@.len() as int) =~= opt_views(observed@));
    c
}

/// One row per name declared or observed, in name order, each with the
/// number of times it was observed.
fn count_names(declared: &Vec<String>, observed: &Vec<Option<String>>) -> (r: Vec<(String, i64)>)
    requires
        observed@.len() <= i64::MAX,
    ensures
        counted(r@, declared@, opt_views(observed@)),
{
    let mut all: Vec<String> = Vec::new();
    let mut i: usize = 0;
    while i < declared.len()
        invariant
            i <= declared@.len(),
            views_of(all@) =~= views_of(declared@.take(i as int)),
        decreases declared.len() - i,
    {
        let ghost before = all@;
        all.push(declared[i].clone());
        proof {
            assert(views_of(all@) =~= views_of(before).push(declared@[i as int]@));
            assert(views_of(declared@.take(i + 1)) =~= views_of(declared@.take(i as int)).push(declared@[i as int]@));
        }
        i = i + 1;
    }
    assert(declared@.take(declared@.len() as int) =~= declared@);
    let mut j: usize = 0;
    while j < observed.len()
        invariant
            j <= observed@.len(),
            forall|x: Seq<char>| #[trigger] views_of(all@).contains(x) <==> (views_of(declared@).contains(x)
                || opt_views(observed@).take(j as int).contains(Some(x))),
        decreases observed.len() - j,
    {
        let ghost before = all@;
        assert(opt_views(observed@).take(j + 1) =~= opt_views(observed@).take(j as int).push(opt_views(observed@)[j as int]));
        match &observed[j] {
            Some(n) => {
                all.push(n.clone());
                assert(views_of(all@) =~= views_of(before).push(n@));
            },
            None => {},
        }
        proof {
            let t = opt_views(observed@).take(j as int);
            let o = opt_views(observed@)[j as int];
            assert forall|x: Seq<char>| #[trigger] views_of(all@).contains(x) <==> (views_of(declared@).contains(x)
                || t.push(o).contains(Some(x))) by {
                lemma_push_contains(t, o, Some(x));
                if o is Some {
                    lemma_push_contains(views_of(before), o->0, x);
                }
            }
        }
        j = j + 1;
    }
    assert(opt_views(observed@).take(observed@.len() as int) =~= opt_views(observed@));
    let names = sorted_unique(all);
    let mut rows: Vec<(String, i64)> = Vec::new();
    let mut k: usize = 0;
    while k < names.len()
        invariant
            k <= names@.len(),
            observed@.len() <= i64::MAX,
            row_names(rows@) =~= views_of(names@).take(k as int),
            forall|i: int| 0 <= i < rows@.len() ==> (#[trigger] rows@[i]).1 == tally(opt_views(observed@), rows@[i].0@),
        decreases names.len() - k,
    {
        let c = count_of(observed, &names[k]);
        let ghost before = rows@;
        rows.push((names[k].clone(), c));
        proof {
            assert(row_names(rows@) =~= row_names(before).push(names@[k as int]@));
            assert(views_of(names@).take(k + 1) =~= views_of(names@).take(k as int).push(names@[k as int]@));
        }
        k = k + 1;
    }
    assert(views_of(names@).take(names@.len() as int) =~= views_of(names@));
    rows
}

/// The counts SHOW STATS reports.
pub struct StatsCounts {
    /// Per edge type, in name order.
    pub edge_types: Vec<(String, i64)>,
    /// Per first tag, in name order.
    pub tags: Vec<(String, i64)>,
    /// Stored vertex records.
    pub vertices: i64,
    /// Stored edge records.
    pub edges: i64,
}

fn vertex_names(vertices: &Vec<VertexScan>) -> (r: Vec<Option<String>>)
    ensures
        r@.len() == vertices@.len(),
        opt_views(r@) == vertices@.map_values(|v: VertexScan| vertex_count_name(v)),
{
    let mut out: Vec<Option<String>> = Vec::new();
    let mut i: usize = 0;
    while i < vertices.len()
        invariant
            i <= vertices@.len(),
            opt_views(out@) =~= vertices@.take(i as int).map_values(|v: VertexScan| vertex_count_name(v)),
        decreases vertices.len() - i,
    {
        let n = match &vertices[i] {
            VertexScan::Tagged(t) => Some(t.clone()),
            VertexScan::Untagged => Some(String::from_str("_unknown")),
            VertexScan::Unreadable => None,
        };
        let ghost before = out@;
        out.push(n);
        proof {
            assert(opt_views(out@) =~= opt_views(before).push(vertex_count_name(vertices@[i as int])));
            assert(vertices@.take(i + 1).map_values(|v: VertexScan| vertex_count_name(v)) =~= vertices@.take(
                i as int,
            ).map_values(|v: VertexScan| vertex_count_name(v)).push(vertex_count_name(vertices@[i as int])));
        }
        i = i + 1;
    }
    assert(vertices@.take(vertices@.len() as int) =~= vertices@);
    out
}

fn edge_names(keys: &Vec<Option<String>>) -> (r: Vec<Option<String>>)
    ensures
        r@.len() == keys@.len(),
        opt_views(r@) == keys@.map_values(|k: Option<String>| edge_count_name(k)),
{
    let mut out: Vec<Option<String>> = Vec::new();
    let mut i: usize = 0;
    while i < keys.len()
        invariant
            i <= keys@.len(),
            opt_views(out@) =~= keys@.take(i as int).map_values(|k: Option<String>| edge_count_name(k)),
        decreases keys.len() - i,
    {
        let n = match &keys[i] {
            Some(t) => {
                let chars = chars_of(t.as_str());
                let parts = split_chars(&chars, ':');
                if parts.len() > 3 {
                    Some(string_of_chars(&parts[3]))
                } else {
                    Some(String::from_str("_unknown"))
                }
            },
            None => None,
        };
        let ghost before = out@;
        out.push(n);
        proof {
            assert(opt_views(out@) =~= opt_views(before).push(edge_count_name(keys@[i as int])));
            assert(keys@.take(i + 1).map_values(|k: Option<String>| edge_count_name(k)) =~= keys@.take(
                i as int,
            ).map_values(|k: Option<String>| edge_count_name(k)).push(edge_count_name(keys@[i as int])));
        }
        i = i + 1;
    }
    assert(keys@.take(keys@.len() as int) =~= keys@);
    out
}

/// The counts of SHOW STATS from the declared tag names, what each stored
/// vertex record shows, the declared edge type names, and each stored edge
/// key as text (`None` when it is not text).
pub fn stats_counts(
    tag_names: &Vec<String>,
    vertices: &Vec<VertexScan>,
    edge_type_names: &Vec<String>,
    edge_keys: &Vec<Option<String>>,
) -> (r: StatsCounts)
    requires
        vertices@.len() <= i64::MAX,
        edge_keys@.len() <= i64::MAX,
    ensures
        counted(r.tags@, tag_names@, vertices@.map_values(|v: VertexScan| vertex_count_name(v))),
        counted(r.edge_types@, edge_type_names@, edge_keys@.map_values(|k: Option<String>| edge_count_name(k))),
        r.vertices == vertices@.len(),
        r.edges == edge_keys@.len(),
{
    let vn = vertex_names(vertices);
    let en = edge_names(edge_keys);
    let tags = count_names(tag_names, &vn);
    let edge_types = count_names(edge_type_names, &en);
    StatsCounts { edge_types, tags, vertices: vertices.len() as i64, edges: edge_keys.len() as i64 }
}

/// One SHOW STATS row: kind, name, count.
pub open spec fn stats_row_ok(row: Seq<Value>, kind: Seq<char>, name: Seq<char>, count: i64) -> bool {
    &&& row.len() == 3
    &&& value_model(row[0]) == VModel::Str(kind)
    &&& value_model(row[1]) == VModel::Str(name)
    &&& value_model(row[2]) == VModel::Int(count)
}

fn stats_row(kind: &str, name: String, count: i64) -> (r: Vec<Value>)
    ensures
        stats_row_ok(r@, kind@, name@, count),
{
    let mut row: Vec<Value> = Vec::new();
    row.push(Value::String(String::from_str(kind)));
    row.push(Value::String(name));
    row.push(Value::Int(count));
    row
}

/// The SHOW STATS table under `Type`, `Name`, `Count`: a row per edge type,
/// then a row per tag, each in name order, then the vertex and edge totals.
pub fn stats_result(c: &StatsCounts) -> (r: ExecutorResult)
    ensures
        r.columns@.len() == 3,
        r.columns@[0]@ == "Type"@,
        r.columns@[1]@ == "Name"@,
        r.columns@[2]@ == "Count"@,
        r.rows@.len() == c.edge_types@.len() + c.tags@.len() + 2,
        forall|i: int|
            0 <= i < c.edge_types@.len() ==> stats_row_ok(
                (#[trigger] r.rows@[i])@,
                "Edge"@,
                c.edge_types@[i].0@,
                c.edge_types@[i].1,
            ),
        forall|i: int|
            0 <= i < c.tags@.len() ==> stats_row_ok(
                (#[trigger] r.rows@[c.edge_types@.len() + i])@,
                "Tag"@,
                c.tags@[i].0@,
                c.tags@[i].1,
            ),
        stats_row_ok(r.rows@[r.rows@.len() - 2]@, "Total"@, "vertices"@, c.vertices),
        stats_row_ok(r.rows@[r.rows@.len() - 1]@, "Total"@, "edges"@, c.edges),
        r.latency_ms == 0,
{
    let mut rows: Vec<Vec<Value>> = Vec::new();
    let mut i: usize = 0;
    while i < c.edge_types.len()
        invariant
            i <= c.edge_types@.len(),
            rows@.len() == i,
            forall|k: int|
                0 <= k < i ==> stats_row_ok((#[trigger] rows@[k])@, "Edge"@, c.edge_types@[k].0@, c.edge_types@[k].1),
        decreases c.edge_types.len() - i,
    {
        rows.push(stats_row("Edge", c.edge_types[i].0.clone(), c.edge_types[i].1));
        i = i + 1;
    }
    let n = rows.len();
    let mut i: usize = 0;
    while i < c.tags.len()
        invariant
            i <= c.tags@.len(),
            n == c.edge_types@.len(),
            rows@.len() == n + i,
            forall|k: int|
                0 <= k < n ==> stats_row_ok((#[trigger] rows@[k])@, "Edge"@, c.edge_types@[k].0@, c.edge_types@[k].1),
            forall|k: int|
                0 <= k < i ==> stats_row_ok((#[trigger] rows@[n + k])@, "Tag"@, c.tags@[k].0@, c.tags@[k].1),
        decreases c.tags.len() - i,
    {
        rows.push(stats_row("Tag", c.tags[i].0.clone(), c.tags[i].1));
        i = i + 1;
    }
    rows.push(stats_row("Total", String::from_str("vertices"), c.vertices));
    rows.push(stats_row("Total", String::from_str("edges"), c.edges));
    let mut columns: Vec<String> = Vec::new();
    columns.push(String::from_str("Type"));
    columns.push(String::from_str("Name"));
    columns.push(String::from_str("Count"));
    ExecutorResult { columns, rows, latency_ms: 0 }
}

} // verus!
