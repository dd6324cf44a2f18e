//! Tables that describe a space's layout: DESCRIBE SPACE, SHOW PARTS,
//! SHOW HOSTS and DESCRIBE INDEX.
use vstd::prelude::*;
use crate::config::PartAlloc;
use crate::error::{ErrorKind, ExecutionError, make_error};
use crate::lookup::IndexDef;
use crate::result::ExecutorResult;
use crate::schema::{joined_names, names_view};
use crate::shape::{VidType, format_vid_type, vid_type_display};
use crate::keys::utf8_text;
use crate::text::{chars_of, decimal, eq_ignore_ascii_case, eq_ignore_ascii_case_spec, push_decimal, seq_starts_with, starts_with, string_of_chars};
use vstd::utf8::{decode_utf8, valid_utf8};
use crate::value::{Value, VModel, value_model};

verus! {

/// What DESCRIBE SPACE reports of a space.
pub struct SpaceDescription {
    pub id: u64,
    pub name: String,
    pub partition_num: u64,
    pub replica_factor: u64,
    /// The vertex id type and the partition strategy (as text), which only
    /// the meta service records.
    pub layout: Option<(VidType, String)>,
}

/// A row of two text cells.
pub open spec fn pair_row_ok(row: Seq<Value>, a: Seq<char>, b: Seq<char>) -> bool {
    &&& row.len() == 2
    &&& value_model(row[0]) == VModel::Str(a)
    &&& value_model(row[1]) == VModel::Str(b)
}

fn pair_row(a: &str, b: String) -> (r: Vec<Value>)
    ensures
        pair_row_ok(r@, a@, b@),
{
    let mut row: Vec<Value> = Vec::new();
    row.push(Value::String(String::from_str(a)));
    row.push(Value::String(b));
    row
}

fn decimal_string(n: u64) -> (r: String)
    ensures
        r@ == decimal(n as nat),
{
    let mut s = String::new();
    push_decimal(&mut s, n);
    s
}

/// The DESCRIBE SPACE table under `Property` and `Value`: its id, name,
/// partition count and replica factor, then, when known, its vertex id type
/// and partition strategy.
pub fn describe_space_result(d: &SpaceDescription) -> (r: ExecutorResult)
    ensures
        r.columns@.len() == 2,
        r.columns@[0]@ == "Property"@,
        r.columns@[1]@ == "Value"@,
        r.rows@.len() == if d.layout is Some {
            6int
        } else {
            4int
        },
        pair_row_ok(r.rows@[0]@, "ID"@, decimal(d.id as nat)),
        pair_row_ok(r.rows@[1]@, "Name"@, d.name@),
        pair_row_ok(r.rows@[2]@, "Partition Num"@, decimal(d.partition_num as nat)),
        pair_row_ok(r.rows@[3]@, "Replica Factor"@, decimal(d.replica_factor as nat)),
        d.layout matches Some((vt, strategy)) ==> pair_row_ok(r.rows@[4]@, "Vid Type"@, vid_type_display(vt))
            && pair_row_ok(r.rows@[5]@, "Partition Strategy"@, strategy@),
        r.latency_ms == 0,
{
    let mut rows: Vec<Vec<Value>> = Vec::new();
    rows.push(pair_row("ID", decimal_string(d.id)));
    rows.push(pair_row("Name", d.name.clone()));
    rows.push(pair_row("Partition Num", decimal_string(d.partition_num)));
    rows.push(pair_row("Replica Factor", decimal_string(d.replica_factor)));
    match &d.layout {
        Some((vt, strategy)) => {
            rows.push(pair_row("Vid Type", format_vid_type(vt)));
            rows.push(pair_row("Partition Strategy", strategy.clone()));
        },
        None => {},
    }
    let mut columns: Vec<String> = Vec::new();
    columns.push(String::from_str("Property"));
    columns.push(String::from_str("Value"));
    ExecutorResult { columns, rows, latency_ms: 0 }
}

/// A host as `host:port`.
pub open spec fn host_port(h: (String, u32)) -> Seq<char> {
    h.0@ + ":"@ + decimal(h.1 as nat)
}

/// The hosts as `host:port`, in order.
pub open spec fn host_ports(hosts: Seq<(String, u32)>) -> Seq<Seq<char>> {
    hosts.map_values(|h: (String, u32)| host_port(h))
}

/// A SHOW PARTS row: the partition id, its leader (its first host, `N/A`
/// when it has none) and all its hosts joined by `, `.
pub open spec fn part_row_ok(row: Seq<Value>, a: PartAlloc) -> bool {
    &&& row.len() == 3
    &&& value_model(row[0]) == VModel::Int(a.part_id as i64)
    &&& value_model(row[1]) == VModel::Str(
        if a.hosts@.len() > 0 {
            host_port(a.hosts@[0])
        } else {
            "N/A"@
        },
    )
    &&& value_model(row[2]) == VModel::Str(joined_names(host_ports(a.hosts@)))
}

fn host_port_string(h: &(String, u32)) -> (r: String)
    ensures
        r@ == host_port(*h),
{
    let mut s = h.0.clone();
    s.append(":");
    push_decimal(&mut s, h.1 as u64);
    s
}

fn joined_hosts(hosts: &Vec<(String, u32)>) -> (r: String)
    ensures
        r@ == joined_names(host_ports(hosts@)),
{
    let mut out = String::new();
    let mut i: usize = 0;
    while i < hosts.len()
        invariant
            i <= hosts@.len(),
            out@ == joined_names(host_ports(hosts@).take(i as int)),
        decreases hosts.len() - i,
    {
        let ghost before = out@;
        if i > 0 {
            out.append(", ");
        }
        let hp = host_port_string(&hosts[i]);
        out.append(hp.as_str());
        proof {
            let t = host_ports(hosts@).take(i + 1);
            assert(t.drop_last() =~= host_ports(hosts@).take(i as int));
            assert(t.last() == host_port(hosts@[i as int]));
            if i == 0 {
                assert(out@ =~= t[0]);
            } else {
                assert(out@ =~= before + ", "@ + t.last());
            }
        }
        i = i + 1;
    }
    assert(host_ports(hosts@).take(hosts@.len() as int) =~= host_ports(hosts@));
    out
}

/// The SHOW PARTS table under `Part ID`, `Leader` and `Hosts`: one row per
/// partition allocation, in order.
pub fn parts_result(allocs: &Vec<PartAlloc>) -> (r: ExecutorResult)
    ensures
        r.columns@.len() == 3,
        r.columns@[0]@ == "Part ID"@,
        r.columns@[1]@ == "Leader"@,
        r.columns@[2]@ == "Hosts"@,
        r.rows@.len() == allocs@.len(),
        forall|i: int| 0 <= i < allocs@.len() ==> part_row_ok((#[trigger] r.rows@[i])@, allocs@[i]),
        r.latency_ms == 0,
{
    let mut rows: Vec<Vec<Value>> = Vec::new();
    let mut i: usize = 0;
    while i < allocs.len()
        invariant
            i <= allocs@.len(),
            rows@.len() == i,
            forall|k: int| 0 <= k < i ==> part_row_ok((#[trigger] rows@[k])@, allocs@[k]),
        decreases allocs.len() - i,
    {
        let a = &allocs[i];
        let leader = if a.hosts.len() > 0 {
            host_port_string(&a.hosts[0])
        } else {
            String::from_str("N/A")
        };
        let mut row: Vec<Value> = Vec::new();
        row.push(Value::Int(a.part_id as i64));
        row.push(Value::String(leader));
        row.push(Value::String(joined_hosts(&a.hosts)));
        rows.push(row);
        i = i + 1;
    }
    let mut columns: Vec<String> = Vec::new();
    columns.push(String::from_str("Part ID"));
    columns.push(String::from_str("Leader"));
    columns.push(String::from_str("Hosts"));
    ExecutorResult { columns, rows, latency_ms: 0 }
}

/// A storage host as the meta service reports it.
pub struct HostInfo {
    pub host: String,
    pub port: u32,
    pub online: bool,
    pub leader_count: u32,
    pub part_count: u32,
}

/// A SHOW HOSTS row: host, port, `ONLINE` or `OFFLINE`, leader count and
/// partition count.
pub open spec fn host_row_ok(row: Seq<Value>, h: HostInfo) -> bool {
    &&& row.len() == 5
    &&& value_model(row[0]) == VModel::Str(h.host@)
    &&& value_model(row[1]) == VModel::Int(h.port as i64)
    &&& value_model(row[2]) == VModel::Str(
        if h.online {
            "ONLINE"@
        } else {
            "OFFLINE"@
        },
    )
    &&& value_model(row[3]) == VModel::Int(h.leader_count as i64)
    &&& value_model(row[4]) == VModel::Int(h.part_count as i64)
}

/// The SHOW HOSTS row of a host.
pub fn host_info_to_row(h: &HostInfo) -> (r: Vec<Value>)
    ensures
        host_row_ok(r@, *h),
{
    let mut row: Vec<Value> = Vec::new();
    row.push(Value::String(h.host.clone()));
    row.push(Value::Int(h.port as i64));
    row.push(Value::String(String::from_str(if h.online { "ONLINE" } else { "OFFLINE" })));
    row.push(Value::Int(h.leader_count as i64));
    row.push(Value::Int(h.part_count as i64));
    row
}

/// The SHOW HOSTS table under `Host`, `Port`, `Status`, `Leader Count` and
/// `Part Count`: one row per host, in order.
pub fn hosts_result(hosts: &Vec<HostInfo>) -> (r: ExecutorResult)
    ensures
        r.columns@.len() == 5,
        r.columns@[0]@ == "Host"@,
        r.columns@[1]@ == "Port"@,
        r.columns@[2]@ == "Status"@,
        r.columns@[3]@ == "Leader Count"@,
        r.columns@[4]@ == "Part Count"@,
        r.rows@.len() == hosts@.len(),
        forall|i: int| 0 <= i < hosts@.len() ==> host_row_ok((#[trigger] r.rows@[i])@, hosts@[i]),
        r.latency_ms == 0,
{
    let mut rows: Vec<Vec<Value>> = Vec::new();
    let mut i: usize = 0;
    while i < hosts.len()
        invariant
            i <= hosts@.len(),
            rows@.len() == i,
            forall|k: int| 0 <= k < i ==> host_row_ok((#[trigger] rows@[k])@, hosts@[k]),
        decreases hosts.len() - i,
    {
        rows.push(host_info_to_row(&hosts[i]));
        i = i + 1;
    }
    let mut columns: Vec<String> = Vec::new();
    columns.push(String::from_str("Host"));
    columns.push(String::from_str("Port"));
    columns.push(String::from_str("Status"));
    columns.push(String::from_str("Leader Count"));
    columns.push(String::from_str("Part Count"));
    ExecutorResult { columns, rows, latency_ms: 0 }
}

/// Detail of the error for an index that is not listed.
pub open spec fn index_not_found_detail(name: Seq<char>) -> Seq<char> {
    "Index '"@ + name + "' not found"@
}

/// The DESCRIBE INDEX table under `Field` and `Type`: the fields of the
/// first listed index named `name` (ignoring ASCII case), each of type
/// `STRING`; an error when no index has that name.
pub fn describe_index_result(indexes: &Vec<IndexDef>, name: &str) -> (r: Result<ExecutorResult, ExecutionError>)
    ensures
        r is Err <==> forall|j: int|
            0 <= j < indexes@.len() ==> !eq_ignore_ascii_case_spec(#[trigger] indexes@[j].index_name@, name@),
        r matches Err(e) ==> e.spec_kind() == ErrorKind::IndexNotFound && e.spec_detail()
            == index_not_found_detail(name@),
        r matches Ok(t) ==> exists|i: int|
            0 <= i < indexes@.len() && eq_ignore_ascii_case_spec(#[trigger] indexes@[i].index_name@, name@)
                && (forall|j: int|
                0 <= j < i ==> !eq_ignore_ascii_case_spec(#[trigger] indexes@[j].index_name@, name@))
                && t.rows@.len() == indexes@[i].fields@.len() && (forall|k: int|
                0 <= k < t.rows@.len() ==> pair_row_ok(
                    (#[trigger] t.rows@[k])@,
                    indexes@[i].fields@[k]@,
                    "STRING"@,
                )),
        r matches Ok(t) ==> t.columns@.len() == 2 && t.columns@[0]@ == "Field"@ && t.columns@[1]@
            == "Type"@ && t.latency_ms == 0,
{
    let mut i: usize = 0;
    while i < indexes.len()
        invariant
            i <= indexes@.len(),
            forall|j: int| 0 <= j < i ==> !eq_ignore_ascii_case_spec(#[trigger] indexes@[j].index_name@, name@),
        decreases indexes.len() - i,
    {
        if eq_ignore_ascii_case(indexes[i].index_name.as_str(), name) {
            let ix = &indexes[i];
            let mut rows: Vec<Vec<Value>> = Vec::new();
            let mut k: usize = 0;
            while k < ix.fields.len()
                invariant
                    k <= ix.fields@.len(),
                    rows@.len() == k,
                    forall|m: int| 0 <= m < k ==> pair_row_ok((#[trigger] rows@[m])@, ix.fields@[m]@, "STRING"@),
                decreases ix.fields.len() - k,
            {
                rows.push(pair_row_string(ix.fields[k].clone(), "STRING"));
                k = k + 1;
            }
            let mut columns: Vec<String> = Vec::new();
            columns.push(String::from_str("Field"));
            columns.push(String::from_str("Type"));
            return Ok(ExecutorResult { columns, rows, latency_ms: 0 });
        }
        i = i + 1;
    }
    let mut detail = String::from_str("Index '");
    detail.append(name);
    detail.append("' not found");
    Err(make_error(ErrorKind::IndexNotFound, detail))
}

fn pair_row_string(a: String, b: &str) -> (r: Vec<Value>)
    ensures
        pair_row_ok(r@, a@, b@),
{
    let mut row: Vec<Value> = Vec::new();
    row.push(Value::String(a));
    row.push(Value::String(String::from_str(b)));
    row
}

/// The space a key of the space registry names: the text after `space:`,
/// unless it holds a `:` (a key nested under the space).
pub open spec fn space_name_of(text: Seq<char>) -> Option<Seq<char>> {
    if seq_starts_with(text, "space:"@) && !text.skip(6).contains(':') {
        Some(text.skip(6))
    } else {
        None
    }
}

/// The space a registry key names (see [`space_name_of`]); `None` also for
/// a key that is not UTF-8.
pub fn space_name_from_key(key: &[u8]) -> (r: Option<String>)
    ensures
        match r {
            Some(n) => valid_utf8(key@) && space_name_of(decode_utf8(key@)) == Some(n@),
            None => !valid_utf8(key@) || space_name_of(decode_utf8(key@)) is None,
        },
{
    let text = match utf8_text(key) {
        Some(t) => t,
        None => return None,
    };
    if !starts_with(text, "space:") {
        return None;
    }
    let s = chars_of(text);
    proof {
        reveal_strlit("space:");
        assert(s@.len() >= 6);
    }
    let mut name: Vec<char> = Vec::new();
    let mut k: usize = 6;
    while k < s.len()
        invariant
            6 <= k <= s@.len(),
            s@ == decode_utf8(key@),
            valid_utf8(key@),
            seq_starts_with(s@, "space:"@),
            name@ =~= s@.subrange(6, k as int),
            forall|j: int| 6 <= j < k ==> s@[j] != ':',
        decreases s.len() - k,
    {
        if s[k] == ':' {
            proof {
                assert(s@.skip(6)[k - 6] == ':');
            }
            return None;
        }
        name.push(s[k]);
        k = k + 1;
    }
    proof {
        assert(name@ =~= s@.skip(6));
        assert(!s@.skip(6).contains(':')) by {
            if s@.skip(6).contains(':') {
                let j = choose|j: int| 0 <= j < s@.skip(6).len() && s@.skip(6)[j] == ':';
                assert(s@[j + 6] == ':');
            }
        }
    }
    Some(string_of_chars(&name))
}

/// What the space registry records of a space; a field the record lacks is
/// `None`.
pub struct SpaceRecord {
    pub id: Option<u64>,
    pub partition_num: Option<u64>,
    pub replica_factor: Option<u64>,
    pub vid_type: Option<String>,
}

/// A number the registry may lack, as SHOW SPACES shows it (0 when absent).
pub open spec fn shown_count(n: Option<u64>) -> i64 {
    match n {
        Some(v) => v as i64,
        None => 0,
    }
}

/// A SHOW SPACES row: id, name, partition count, replica factor, vid type.
pub open spec fn space_row_ok(row: Seq<Value>, id: i64, name: Seq<char>, parts: i64, replicas: i64, vid_type: Seq<
    char,
>) -> bool {
    &&& row.len() == 5
    &&& value_model(row[0]) == VModel::Int(id)
    &&& value_model(row[1]) == VModel::Str(name)
    &&& value_model(row[2]) == VModel::Int(parts)
    &&& value_model(row[3]) == VModel::Int(replicas)
    &&& value_model(row[4]) == VModel::Str(vid_type)
}

fn space_row(id: i64, name: String, parts: i64, replicas: i64, vid_type: String) -> (r: Vec<Value>)
    ensures
        space_row_ok(r@, id, name@, parts, replicas, vid_type@),
{
    let mut row: Vec<Value> = Vec::new();
    row.push(Value::Int(id));
    row.push(Value::String(name));
    row.push(Value::Int(parts));
    row.push(Value::Int(replicas));
    row.push(Value::String(vid_type));
    row
}

fn shown(n: Option<u64>) -> (r: i64)
    ensures
        r == shown_count(n),
{
    match n {
        Some(v) => v as i64,
        None => 0,
    }
}

/// The SHOW SPACES row of a space read from the registry: absent numbers
/// show as 0 and an absent vid type as `INT64`.
pub fn stored_space_row(name: String, rec: &SpaceRecord) -> (r: Vec<Value>)
    ensures
        space_row_ok(
            r@,
            shown_count(rec.id),
            name@,
            shown_count(rec.partition_num),
            shown_count(rec.replica_factor),
            match rec.vid_type {
                Some(t) => t@,
                None => "INT64"@,
            },
        ),
{
    let vid_type = match &rec.vid_type {
        Some(t) => t.clone(),
        None => String::from_str("INT64"),
    };
    space_row(shown(rec.id), name, shown(rec.partition_num), shown(rec.replica_factor), vid_type)
}

/// A space as the meta service lists it.
pub struct SpaceInfo {
    pub id: u32,
    pub name: String,
    pub partition_num: u32,
    pub replica_factor: u32,
    pub vid_type: VidType,
}

/// The SHOW SPACES row of a space listed by the meta service.
pub fn listed_space_row(s: &SpaceInfo) -> (r: Vec<Value>)
    ensures
        space_row_ok(
            r@,
            s.id as i64,
            s.name@,
            s.partition_num as i64,
            s.replica_factor as i64,
            vid_type_display(s.vid_type),
        ),
{
    space_row(
        s.id as i64,
        s.name.clone(),
        s.partition_num as i64,
        s.replica_factor as i64,
        format_vid_type(&s.vid_type),
    )
}

/// A SHOW TAG INDEX STATUS (or EDGE) row: index name, schema name, fields
/// joined by `, `, and `DONE`, since indexes are built as they are created.
pub open spec fn index_status_row_ok(row: Seq<Value>, ix: IndexDef) -> bool {
    &&& row.len() == 4
    &&& value_model(row[0]) == VModel::Str(ix.index_name@)
    &&& value_model(row[1]) == VModel::Str(ix.schema_name@)
    &&& value_model(row[2]) == VModel::Str(joined_names(names_view(ix.fields@)))
    &&& value_model(row[3]) == VModel::Str("DONE"@)
}

/// The index status table under `Name`, `Tag/Edge`, `Fields` and `Status`:
/// one row per listed index, in order.
pub fn index_status_result(indexes: &Vec<IndexDef>) -> (r: ExecutorResult)
    ensures
        r.columns@.len() == 4,
        r.columns@[0]@ == "Name"@,
        r.columns@[1]@ == "Tag/Edge"@,
        r.columns@[2]@ == "Fields"@,
        r.columns@[3]@ == "Status"@,
        r.rows@.len() == indexes@.len(),
        forall|i: int| 0 <= i < indexes@.len() ==> index_status_row_ok((#[trigger] r.rows@[i])@, indexes@[i]),
        r.latency_ms == 0,
{
    let mut rows: Vec<Vec<Value>> = Vec::new();
    let mut i: usize = 0;
    while i < indexes.len()
        invariant
            i <= indexes@.len(),
            rows@.len() == i,
            forall|k: int| 0 <= k < i ==> index_status_row_ok((#[trigger] rows@[k])@, indexes@[k]),
        decreases indexes.len() - i,
    {
        let ix = &indexes[i];
        let mut row: Vec<Value> = Vec::new();
        row.push(Value::String(ix.index_name.clone()));
        row.push(Value::String(ix.schema_name.clone()));
        row.push(Value::String(crate::show::join_names(&ix.fields)));
        row.push(Value::String(String::from_str("DONE")));
        rows.push(row);
        i = i + 1;
    }
    let mut columns: Vec<String> = Vec::new();
    columns.push(String::from_str("Name"));
    columns.push(String::from_str("Tag/Edge"));
    columns.push(String::from_str("Fields"));
    columns.push(String::from_str("Status"));
    ExecutorResult { columns, rows, latency_ms: 0 }
}

} // verus!
