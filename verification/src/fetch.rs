//! The FETCH statement: the vertex ids it reads, from a literal list or from
//! a column of an earlier statement's result, and which tags of a vertex it
//! returns.
use vstd::prelude::*;
use crate::context::ExecutionContext;
use crate::error::{ErrorKind, ExecutionError, fails_with, make_error};
use crate::find::Vid;
use crate::records::TagRecord;
use crate::result::ExecutorResult;
use crate::text::{chars_of, str_is, string_of_chars};
use crate::value::{Value, VModel, value_model};

verus! {

/// The model of a [`Vid`].
pub enum VidModel {
    Int(i64),
    Str(Seq<char>),
}

pub open spec fn vid_model(v: Vid) -> VidModel {
    match v {
        Vid::Int(i) => VidModel::Int(i),
        Vid::String(s) => VidModel::Str(s@),
    }
}

/// Position of the first `c` in `s`.
pub open spec fn first_index(s: Seq<char>, c: char) -> Option<int>
    decreases s.len(),
{
    if s.len() == 0 {
        None
    } else if s[0] == c {
        Some(0)
    } else {
        match first_index(s.drop_first(), c) {
            Some(i) => Some(i + 1),
            None => None,
        }
    }
}

/// A `$var.col` reference split at its first `.`: the variable name and the
/// column, if any.
pub open spec fn var_ref_parts(s: Seq<char>) -> (Seq<char>, Option<Seq<char>>) {
    match first_index(s, '.') {
        Some(i) => (s.take(i), Some(s.skip(i + 1))),
        None => (s, None),
    }
}

/// Position of the first column named `c`.
pub open spec fn column_position(cols: Seq<String>, c: Seq<char>) -> Option<int>
    decreases cols.len(),
{
    if cols.len() == 0 {
        None
    } else if cols[0]@ == c {
        Some(0)
    } else {
        match column_position(cols.drop_first(), c) {
            Some(i) => Some(i + 1),
            None => None,
        }
    }
}

/// The column a reference reads: the named one, else the first.
pub open spec fn column_index(cols: Seq<String>, col: Option<Seq<char>>) -> int {
    match col {
        Some(c) => match column_position(cols, c) {
            Some(i) => i,
            None => 0,
        },
        None => 0,
    }
}

/// The integer and string cells of column `idx`, row by row; other cells
/// and short rows are skipped.
pub open spec fn column_vids(rows: Seq<Vec<Value>>, idx: int) -> Seq<VidModel>
    decreases rows.len(),
{
    if rows.len() == 0 {
        Seq::empty()
    } else {
        let pre = column_vids(rows.drop_last(), idx);
        let row = rows.last()@;
        if 0 <= idx < row.len() {
            match row[idx] {
                Value::Int(i) => pre.push(VidModel::Int(i)),
                Value::String(s) => pre.push(VidModel::Str(s@)),
                _ => pre,
            }
        } else {
            pre
        }
    }
}

pub open spec fn undefined_variable_detail(name: Seq<char>) -> Seq<char> {
    "Variable '"@ + name + "' is not defined"@
}

fn find_dot(s: &Vec<char>) -> (r: Option<usize>)
    ensures
        match r {
            Some(i) => first_index(s@, '.') == Some(i as int) && i < s@.len(),
            None => first_index(s@, '.') is None,
        },
{
    let mut i: usize = 0;
    assert(s@.skip(0) =~= s@);
    while i < s.len()
        invariant
            i <= s.len(),
            first_index(s@, '.') == match first_index(s@.skip(i as int), '.') {
                Some(j) => Some(j + i),
                None => None,
            },
        decreases s.len() - i,
    {
        assert(s@.skip(i as int).drop_first() =~= s@.skip(i + 1));
        if s[i] == '.' {
            return Some(i);
        }
        i = i + 1;
    }
    None
}

fn slice_chars(s: &Vec<char>, from: usize, to: usize) -> (r: String)
    requires
        from <= to <= s@.len(),
    ensures
        r@ == s@.subrange(from as int, to as int),
{
    let mut v: Vec<char> = Vec::new();
    let mut i = from;
    while i < to
        invariant
            from <= i <= to <= s@.len(),
            v@ == s@.subrange(from as int, i as int),
        decreases to - i,
    {
        v.push(s[i]);
        proof {
            assert(s@.subrange(from as int, i + 1) =~= s@.subrange(from as int, i as int).push(s@[i as int]));
        }
        i = i + 1;
    }
    string_of_chars(&v)
}

fn column_of(cols: &Vec<String>, col: &str) -> (r: Option<usize>)
    ensures
        match r {
            Some(i) => column_position(cols@, col@) == Some(i as int),
            None => column_position(cols@, col@) is None,
        },
{
    let mut i: usize = 0;
    assert(cols@.skip(0) =~= cols@);
    while i < cols.len()
        invariant
            i <= cols.len(),
            column_position(cols@, col@) == match column_position(cols@.skip(i as int), col@) {
                Some(j) => Some(j + i),
                None => None,
            },
        decreases cols.len() - i,
    {
        assert(cols@.skip(i as int).drop_first() =~= cols@.skip(i + 1));
        if str_is(cols[i].as_str(), col) {
            return Some(i);
        }
        i = i + 1;
    }
    None
}

/// The vertex ids a `$var` or `$var.col` reference reads from the result
/// bound to the variable: the integer and string cells of the named column
/// (the first column when no column, or no column of that name, is given).
pub fn vids_from_variable(ctx: &ExecutionContext, var_ref: &str) -> (r: Result<
    Vec<Vid>,
    ExecutionError,
>)
    ensures
        ({
            let (name, col) = var_ref_parts(var_ref@);
            match ctx.spec_var(name) {
                None => fails_with(r, ErrorKind::InvalidOperation, undefined_variable_detail(name)),
                Some(bound) => r matches Ok(vids) && vids@.map_values(|v: Vid| vid_model(v))
                    == column_vids(bound.rows@, column_index(bound.columns@, col)),
            }
        }),
{
    let chars = chars_of(var_ref);
    let n = chars.len();
    let (name, col) = match find_dot(&chars) {
        Some(i) => {
            assert(i < n);
            (slice_chars(&chars, 0, i), Some(slice_chars(&chars, i + 1, n)))
        },
        None => (String::from_str(var_ref), None),
    };
    proof {
        match first_index(var_ref@, '.') {
            Some(i) => {
                assert(var_ref@.take(i) =~= var_ref@.subrange(0, i));
                assert(var_ref@.skip(i + 1) =~= var_ref@.subrange(i + 1, var_ref@.len() as int));
            },
            None => {},
        }
    }
    let bound = match ctx.lookup_var(name.as_str()) {
        Some(b) => b,
        None => {
            let mut detail = String::from_str("Variable '");
            detail.append(name.as_str());
            detail.append("' is not defined");
            return Err(make_error(ErrorKind::InvalidOperation, detail));
        },
    };
    let idx: usize = match &col {
        Some(c) => match column_of(&bound.columns, c.as_str()) {
            Some(i) => i,
            None => 0,
        },
        None => 0,
    };
    let ghost want = column_index(bound.columns@, match col { Some(c) => Some(c@), None => None });
    assert(idx == want);
    let mut out: Vec<Vid> = Vec::new();
    let mut k: usize = 0;
    while k < bound.rows.len()
        invariant
            k <= bound.rows@.len(),
            idx == want,
            out@.map_values(|v: Vid| vid_model(v)) == column_vids(bound.rows@.take(k as int), idx as int),
        decreases bound.rows@.len() - k,
    {
        let row = &bound.rows[k];
        proof {
            assert(bound.rows@.take(k + 1).drop_last() =~= bound.rows@.take(k as int));
        }
        let ghost before = out@;
        if idx < row.len() {
            match &row[idx] {
                Value::Int(i) => {
                    out.push(Vid::Int(*i));
                },
                Value::String(s) => {
                    out.push(Vid::String(s.clone()));
                },
                _ => {},
            }
        }
        proof {
            if out@.len() > before.len() {
                assert(out@ =~= before.push(out@.last()));
                assert(out@.map_values(|v: Vid| vid_model(v)) =~= before.map_values(
                    |v: Vid| vid_model(v),
                ).push(vid_model(out@.last())));
            } else {
                assert(out@ =~= before);
            }
        }
        k = k + 1;
    }
    assert(bound.rows@.take(bound.rows@.len() as int) =~= bound.rows@);
    Ok(out)
}

/// Whether `name` is among `requested`.
pub open spec fn requested_tag(requested: Seq<String>, name: Seq<char>) -> bool {
    exists|j: int| 0 <= j < requested.len() && (#[trigger] requested[j])@ == name
}

/// The positions of the tags a FETCH returns, in order: every tag when none
/// was requested, else the requested ones; `None` when tags were requested
/// and the vertex carries none of them.
pub open spec fn tag_selection(requested: Seq<String>, tags: Seq<TagRecord>) -> Option<Seq<int>> {
    let picked = Seq::new(tags.len(), |i: int| i).filter(
        |i: int| requested.len() == 0 || requested_tag(requested, tags[i].name@),
    );
    if requested.len() > 0 && picked.len() == 0 {
        None
    } else {
        Some(picked)
    }
}

fn is_requested(requested: &Vec<String>, name: &str) -> (r: bool)
    ensures
        r == requested_tag(requested@, name@),
{
    let mut j: usize = 0;
    while j < requested.len()
        invariant
            j <= requested.len(),
            forall|k: int| 0 <= k < j ==> (#[trigger] requested@[k])@ != name@,
        decreases requested.len() - j,
    {
        if str_is(requested[j].as_str(), name) {
            return true;
        }
        j = j + 1;
    }
    false
}

/// The positions of the tags of a fetched vertex that FETCH returns (see
/// [`tag_selection`]).
pub fn fetch_tag_selection(requested: &Vec<String>, tags: &Vec<TagRecord>) -> (r: Option<Vec<usize>>)
    ensures
        match tag_selection(requested@, tags@) {
            Some(s) => r matches Some(v) && v@.len() == s.len() && forall|i: int|
                0 <= i < s.len() ==> v@[i] == s[i],
            None => r is None,
        },
{
    let ghost all = Seq::new(tags@.len(), |i: int| i);
    let ghost keep = |i: int| requested@.len() == 0 || requested_tag(requested@, tags@[i].name@);
    let mut out: Vec<usize> = Vec::new();
    let mut i: usize = 0;
    while i < tags.len()
        invariant
            i <= tags.len(),
            all == Seq::new(tags@.len(), |i: int| i),
            keep == (|i: int| requested@.len() == 0 || requested_tag(requested@, tags@[i].name@)),
            out@.len() == all.take(i as int).filter(keep).len(),
            forall|k: int| 0 <= k < out@.len() ==> out@[k] == all.take(i as int).filter(keep)[k],
        decreases tags.len() - i,
    {
        proof {
            let t = all.take(i + 1);
            assert(t.drop_last() =~= all.take(i as int));
            all.take(i as int).lemma_filter_push(i as int, keep);
            assert(all.take(i as int).push(i as int) =~= t);
        }
        if requested.len() == 0 || is_requested(requested, tags[i].name.as_str()) {
            out.push(i);
        }
        i = i + 1;
    }
    assert(all.take(tags@.len() as int) =~= all);
    if requested.len() > 0 && out.len() == 0 {
        None
    } else {
        Some(out)
    }
}

/// Whether `name` is among the names `requested`, as text.
pub open spec fn named_in(requested: Seq<String>, name: Seq<char>) -> bool {
    exists|j: int| 0 <= j < requested.len() && (#[trigger] requested[j])@ == name
}

/// The texts of the tags `tags` (name, text) that FETCH shows: all of them
/// when none was requested, else those requested, in stored order.
pub open spec fn shown_tag_texts(tags: Seq<(String, String)>, requested: Seq<String>) -> Seq<VModel>
    decreases tags.len(),
{
    if tags.len() == 0 {
        Seq::empty()
    } else {
        let rest = shown_tag_texts(tags.drop_last(), requested);
        if requested.len() == 0 || named_in(requested, tags.last().0@) {
            rest.push(VModel::Str(tags.last().1@))
        } else {
            rest
        }
    }
}

/// The FETCH row of a vertex displayed as `vid` whose record holds `tags`:
/// none when tags were requested and it carries none of them; else the vid,
/// then the text of each shown tag.
pub open spec fn fetch_row(vid: Value, tags: Seq<(String, String)>, requested: Seq<String>) -> Option<
    Seq<VModel>,
> {
    let shown = shown_tag_texts(tags, requested);
    if requested.len() > 0 && shown.len() == 0 {
        None
    } else {
        Some(seq![value_model(vid)] + shown)
    }
}

/// The FETCH rows of the first `n` requested vertices: for each, in request
/// order, its row when its record exists and it has one.
pub open spec fn fetch_rows(
    vids: Seq<Value>,
    records: Seq<Option<Vec<(String, String)>>>,
    requested: Seq<String>,
    n: int,
) -> Seq<Seq<VModel>>
    decreases n,
{
    if n <= 0 {
        Seq::empty()
    } else {
        let rest = fetch_rows(vids, records, requested, n - 1);
        match records[n - 1] {
            Some(tags) => match fetch_row(vids[n - 1], tags@, requested) {
                Some(row) => rest.push(row),
                None => rest,
            },
            None => rest,
        }
    }
}

/// The model of a table's rows.
pub open spec fn rows_model(rows: Seq<Vec<Value>>) -> Seq<Seq<VModel>> {
    rows.map_values(|r: Vec<Value>| r@.map_values(|v: Value| value_model(v)))
}

/// The rows of a vertex FETCH: `vids[i]` is the i-th requested vertex as it
/// is displayed and `records[i]` its record read from the store, each tag as
/// its name and its text (`None` when no record exists, at the time asked
/// about). Rows keep the request order; a vertex without a record, or
/// without any of the requested tags, has none.
pub fn fetch_vertex_rows(
    vids: &Vec<Value>,
    records: &Vec<Option<Vec<(String, String)>>>,
    requested: &Vec<String>,
) -> (r: Vec<Vec<Value>>)
    requires
        vids@.len() == records@.len(),
    ensures
        rows_model(r@) == fetch_rows(vids@, records@, requested@, vids@.len() as int),
{
    let mut rows: Vec<Vec<Value>> = Vec::new();
    let mut i: usize = 0;
    while i < vids.len()
        invariant
            i <= vids@.len(),
            vids@.len() == records@.len(),
            rows_model(rows@) == fetch_rows(vids@, records@, requested@, i as int),
        decreases vids.len() - i,
    {
        match &records[i] {
            Some(tags) => {
                let mut row: Vec<Value> = Vec::new();
                row.push(vids[i].duplicate());
                let ghost head = row@.map_values(|v: Value| value_model(v));
                let mut k: usize = 0;
                let mut shown = false;
                while k < tags.len()
                    invariant
                        k <= tags@.len(),
                        row@.len() >= 1,
                        head == seq![value_model(vids@[i as int])],
                        row@.map_values(|v: Value| value_model(v)) == head + shown_tag_texts(
                            tags@.take(k as int),
                            requested@,
                        ),
                        shown == (shown_tag_texts(tags@.take(k as int), requested@).len() > 0),
                    decreases tags.len() - k,
                {
                    let ghost before = row@;
                    assert(tags@.take(k + 1).drop_last() =~= tags@.take(k as int));
                    if requested.len() == 0 || is_requested(requested, tags[k].0.as_str()) {
                        row.push(Value::String(tags[k].1.clone()));
                        shown = true;
                        assert(row@.map_values(|v: Value| value_model(v)) =~= before.map_values(
                            |v: Value| value_model(v),
                        ).push(VModel::Str(tags@[k as int].1@)));
                    }
                    proof {
                        if requested@.len() > 0 {
                            assert(requested_tag(requested@, tags@[k as int].0@) == named_in(
                                requested@,
                                tags@[k as int].0@,
                            ));
                        }
                    }
                    k = k + 1;
                }
                assert(tags@.take(tags@.len() as int) =~= tags@);
                if requested.len() == 0 || shown {
                    let ghost before = rows@;
                    rows.push(row);
                    assert(rows_model(rows@) =~= rows_model(before).push(row@.map_values(
                        |v: Value| value_model(v),
                    )));
                }
            },
            None => {},
        }
        i = i + 1;
    }
    rows
}

/// The FETCH rows of one requested edge: for each edge scanned from its
/// source (destination id and text), in scan order, that ends at the
/// requested destination `dst`: the source and destination as displayed,
/// then the edge's text.
pub open spec fn edge_ref_rows(dst: i64, src_shown: Value, dst_shown: Value, scanned: Seq<(i64, String)>) -> Seq<
    Seq<VModel>,
>
    decreases scanned.len(),
{
    if scanned.len() == 0 {
        Seq::empty()
    } else {
        let rest = edge_ref_rows(dst, src_shown, dst_shown, scanned.drop_last());
        if scanned.last().0 == dst {
            rest.push(seq![value_model(src_shown), value_model(dst_shown), VModel::Str(scanned.last().1@)])
        } else {
            rest
        }
    }
}

/// The FETCH rows of the first `n` requested edges, one after the other.
pub open spec fn edge_rows(refs: Seq<(i64, Value, Value)>, scanned: Seq<Vec<(i64, String)>>, n: int) -> Seq<
    Seq<VModel>,
>
    decreases n,
{
    if n <= 0 {
        Seq::empty()
    } else {
        edge_rows(refs, scanned, n - 1) + edge_ref_rows(refs[n - 1].0, refs[n - 1].1, refs[n - 1].2, scanned[n - 1]@)
    }
}

/// The rows of an edge FETCH: `refs[i]` is the i-th requested edge as its
/// destination id and its source and destination as displayed, and
/// `scanned[i]` the edges stored from its source (of the requested type),
/// each as its destination id and its text. Rows keep the request order and,
/// within a request, the scan order; only edges to the requested
/// destination are shown.
pub fn fetch_edge_rows(refs: &Vec<(i64, Value, Value)>, scanned: &Vec<Vec<(i64, String)>>) -> (r: Vec<
    Vec<Value>,
>)
    requires
        refs@.len() == scanned@.len(),
    ensures
        rows_model(r@) == edge_rows(refs@, scanned@, refs@.len() as int),
{
    let mut rows: Vec<Vec<Value>> = Vec::new();
    let mut i: usize = 0;
    while i < refs.len()
        invariant
            i <= refs@.len(),
            refs@.len() == scanned@.len(),
            rows_model(rows@) == edge_rows(refs@, scanned@, i as int),
        decreases refs.len() - i,
    {
        let ghost start = rows_model(rows@);
        let list = &scanned[i];
        let mut k: usize = 0;
        while k < list.len()
            invariant
                i < refs@.len(),
                refs@.len() == scanned@.len(),
                k <= list@.len(),
                list@ == scanned@[i as int]@,
                rows_model(rows@) == start + edge_ref_rows(
                    refs@[i as int].0,
                    refs@[i as int].1,
                    refs@[i as int].2,
                    list@.take(k as int),
                ),
            decreases list.len() - k,
        {
            assert(list@.take(k + 1).drop_last() =~= list@.take(k as int));
            if list[k].0 == refs[i].0 {
                let mut row: Vec<Value> = Vec::new();
                row.push(refs[i].1.duplicate());
                row.push(refs[i].2.duplicate());
                row.push(Value::String(list[k].1.clone()));
                let ghost before = rows@;
                rows.push(row);
                assert(row@.map_values(|v: Value| value_model(v)) =~= seq![
                    value_model(refs@[i as int].1),
                    value_model(refs@[i as int].2),
                    VModel::Str(list@[k as int].1@),
                ]);
                assert(rows_model(rows@) =~= rows_model(before).push(row@.map_values(|v: Value| value_model(v))));
            }
            k = k + 1;
        }
        assert(list@.take(list@.len() as int) =~= list@);
        i = i + 1;
    }
    rows
}


/// A row shows the requested edge: its displayed source, its displayed
/// destination, then the text of a scanned edge that ends at the requested
/// destination.
pub open spec fn shows_requested_edge(row: Seq<VModel>, r: (i64, Value, Value), scanned: Seq<(i64, String)>) -> bool {
    exists|j: int|
        0 <= j < scanned.len() && (#[trigger] scanned[j]).0 == r.0 && row == seq![
            value_model(r.1),
            value_model(r.2),
            VModel::Str(scanned[j].1@),
        ]
}

proof fn lemma_edge_ref_rows_show(dst: i64, s: Value, d: Value, scanned: Seq<(i64, String)>)
    ensures
        forall|k: int|
            0 <= k < edge_ref_rows(dst, s, d, scanned).len() ==> shows_requested_edge(
                #[trigger] edge_ref_rows(dst, s, d, scanned)[k],
                (dst, s, d),
                scanned,
            ),
    decreases scanned.len(),
{
    if scanned.len() > 0 {
        let t = scanned.drop_last();
        lemma_edge_ref_rows_show(dst, s, d, t);
        let rows = edge_ref_rows(dst, s, d, scanned);
        assert forall|k: int| 0 <= k < rows.len() implies shows_requested_edge(
            #[trigger] rows[k],
            (dst, s, d),
            scanned,
        ) by {
            let prev = edge_ref_rows(dst, s, d, t);
            if k < prev.len() {
                assert(rows[k] == prev[k]);
                let j = choose|j: int|
                    0 <= j < t.len() && (#[trigger] t[j]).0 == dst && prev[k] == seq![
                        value_model(s),
                        value_model(d),
                        VModel::Str(t[j].1@),
                    ];
                assert(scanned[j] == t[j]);
            } else {
                assert(scanned[scanned.len() - 1] == scanned.last());
            }
        }
    }
}

/// Law: every row of an edge FETCH is `[source, destination, text]` of one
/// requested edge, as displayed, with the text of an edge scanned from its
/// source that ends at its destination.
pub proof fn lemma_edge_rows_show_requested_edges(refs: Seq<(i64, Value, Value)>, scanned: Seq<Vec<(i64, String)>>, n: int)
    requires
        0 <= n <= refs.len(),
        refs.len() == scanned.len(),
    ensures
        forall|k: int|
            0 <= k < edge_rows(refs, scanned, n).len() ==> exists|i: int|
                0 <= i < n && shows_requested_edge(#[trigger] edge_rows(refs, scanned, n)[k], refs[i], scanned[i]@),
    decreases n,
{
    if n > 0 {
        lemma_edge_rows_show_requested_edges(refs, scanned, n - 1);
        let prev = edge_rows(refs, scanned, n - 1);
        let last = edge_ref_rows(refs[n - 1].0, refs[n - 1].1, refs[n - 1].2, scanned[n - 1]@);
        lemma_edge_ref_rows_show(refs[n - 1].0, refs[n - 1].1, refs[n - 1].2, scanned[n - 1]@);
        let rows = edge_rows(refs, scanned, n);
        assert forall|k: int| 0 <= k < rows.len() implies exists|i: int|
            0 <= i < n && shows_requested_edge(#[trigger] rows[k], refs[i], scanned[i]@) by {
            if k < prev.len() {
                assert(rows[k] == prev[k]);
                let i = choose|i: int| 0 <= i < n - 1 && shows_requested_edge(#[trigger] prev[k], refs[i], scanned[i]@);
            } else {
                assert(rows[k] == last[k - prev.len()]);
                assert(shows_requested_edge(last[k - prev.len()], (refs[n - 1].0, refs[n - 1].1, refs[n - 1].2), scanned[n - 1]@));
            }
        }
    }
}

} // verus!
