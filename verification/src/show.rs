//! Listings of schema objects and users.
use vstd::prelude::*;
use crate::error::{ErrorKind, ExecutionError, fails_with, make_error};
use crate::schema::{ClassDef, joined_names, names_view};
use crate::sorting::{keys_of, names_sorted, names_strictly_sorted, sort_by_name, sorted_unique, views_of};
use crate::text::{decimal, push_decimal, eq_ignore_ascii_case, eq_ignore_ascii_case_spec, seq_starts_with, starts_with, occurs_at, matches_at, chars_of, string_of_chars};
use crate::keys::utf8_text;
use crate::result::ExecutorResult;
use crate::shape::{DataType, data_type_display, format_data_type};
use crate::value::{Value, VModel, value_model};
use vstd::utf8::{decode_utf8, valid_utf8};

verus! {

broadcast use vstd::seq_lib::group_to_multiset_ensures;

pub(crate) fn join_names(v: &Vec<String>) -> (r: String)
    ensures
        r@ == joined_names(names_view(v@)),
{
    let mut out = String::new();
    let mut i: usize = 0;
    while i < v.len()
        invariant
            i <= v@.len(),
            out@ == joined_names(names_view(v@).take(i as int)),
        decreases v.len() - i,
    {
        let ghost before = out@;
        if i > 0 {
            out.append(", ");
        }
        out.append(v[i].as_str());
        proof {
            let t = names_view(v@).take(i + 1);
            assert(t.drop_last() =~= names_view(v@).take(i as int));
            assert(t.last() == v@[i as int]@);
            if i == 0 {
                assert(t.len() == 1);
                assert(out@ =~= t[0]);
            } else {
                assert(out@ =~= before + ", "@ + v@[i as int]@);
            }
        }
        i = i + 1;
    }
    assert(names_view(v@).take(v@.len() as int) =~= names_view(v@));
    out
}

/// The rows of SHOW CLASSES: each class with its superclasses joined by
/// `, `, sorted by class name.
pub fn show_classes_rows(defs: Vec<ClassDef>) -> (r: Vec<(String, String)>)
    ensures
        names_sorted(keys_of(r@)),
        exists|m: Seq<(String, String)>|
            #![trigger m.to_multiset()]
            m.len() == defs@.len() && (forall|i: int|
                0 <= i < m.len() ==> (#[trigger] m[i]).0@ == defs@[i].name@ && m[i].1@ == joined_names(
                    names_view(defs@[i].superclasses@),
                )) && r@.to_multiset() == m.to_multiset(),
{
    let mut rows: Vec<(String, String)> = Vec::new();
    let mut i: usize = 0;
    while i < defs.len()
        invariant
            i <= defs@.len(),
            rows@.len() == i,
            forall|k: int|
                0 <= k < i ==> (#[trigger] rows@[k]).0@ == defs@[k].name@ && rows@[k].1@
                    == joined_names(names_view(defs@[k].superclasses@)),
        decreases defs.len() - i,
    {
        let joined = join_names(&defs[i].superclasses);
        rows.push((defs[i].name.clone(), joined));
        i = i + 1;
    }
    let ghost m = rows@;
    sort_by_name(rows)
}

/// A listing row for a stored user: its name, and its roles sorted without
/// repeats and joined by `, `.
pub open spec fn is_user_row(row: (String, String), user: (String, Vec<String>)) -> bool {
    &&& row.0@ == user.0@
    &&& exists|s: Seq<Seq<char>>|
        #![trigger joined_names(s)]
        names_strictly_sorted(s) && (forall|x: Seq<char>|
            s.contains(x) <==> views_of(user.1@).contains(x)) && row.1@ == joined_names(s)
}

/// The detail of the error for a listing of users without the right role.
pub open spec fn show_users_denied_detail() -> Seq<char> {
    "SHOW USERS requires GOD or ADMIN role"@
}

/// The rows of SHOW USERS for a caller who holds GOD or ADMIN: the built-in
/// `root` with `GOD`, then the stored users, each with its roles sorted
/// without repeats and joined by `, `, all sorted by name. Others are
/// refused.
pub fn user_listing(caller_is_admin: bool, users: Vec<(String, Vec<String>)>) -> (r: Result<
    Vec<(String, String)>,
    ExecutionError,
>)
    ensures
        !caller_is_admin ==> fails_with(r, ErrorKind::InvalidOperation, show_users_denied_detail()),
        caller_is_admin ==> r is Ok,
        r matches Ok(rows) ==> names_sorted(keys_of(rows@)),
        r matches Ok(rows) ==> rows@.len() == users@.len() + 1,
        r matches Ok(rows) ==> exists|i: int|
            0 <= i < rows@.len() && (#[trigger] rows@[i]).0@ == "root"@ && rows@[i].1@ == "GOD"@,
        r matches Ok(rows) ==> forall|j: int|
            0 <= j < users@.len() ==> exists|i: int|
                0 <= i < rows@.len() && is_user_row(#[trigger] rows@[i], #[trigger] users@[j]),
{
    if !caller_is_admin {
        return Err(
            make_error(
                ErrorKind::InvalidOperation,
                String::from_str("SHOW USERS requires GOD or ADMIN role"),
            ),
        );
    }
    let ghost us = users@;
    let mut rows: Vec<(String, String)> = Vec::new();
    rows.push((String::from_str("root"), String::from_str("GOD")));
    let n = users.len();
    let mut src = users;
    let mut rev: Vec<(String, Vec<String>)> = Vec::new();
    while src.len() > 0
        invariant
            src@.len() + rev@.len() == n,
            n == us.len(),
            src@ == us.subrange(0, src@.len() as int),
            forall|k: int| 0 <= k < rev@.len() ==> rev@[k] == us[n - 1 - k],
        decreases src@.len(),
    {
        let x = src.pop().unwrap();
        rev.push(x);
    }
    let mut k: usize = 0;
    while rev.len() > 0
        invariant
            k + rev@.len() == n,
            n == us.len(),
            forall|i: int| 0 <= i < rev@.len() ==> rev@[i] == us[n - 1 - i],
            rows@.len() == k + 1,
            rows@[0].0@ == "root"@ && rows@[0].1@ == "GOD"@,
            forall|j: int| 0 <= j < k ==> is_user_row(rows@[j + 1], #[trigger] us[j]),
        decreases rev@.len(),
    {
        let (name, roles) = rev.pop().unwrap();
        let ghost rv = roles@;
        let sorted = sorted_unique(roles);
        let joined = join_names(&sorted);
        proof {
            assert(names_view(sorted@) == views_of(sorted@));
        }
        rows.push((name, joined));
        k = k + 1;
    }
    let ghost m = rows@;
    let out = sort_by_name(rows);
    proof {
        assert(out@.len() == m.len()) by {
            vstd::seq_lib::to_multiset_len(out@);
            vstd::seq_lib::to_multiset_len(m);
        }
        assert(m.contains(m[0]));
        assert(m.to_multiset().count(m[0]) > 0);
        assert(out@.to_multiset().count(m[0]) > 0);
        assert(out@.contains(m[0]));
        let i0 = choose|i: int| 0 <= i < out@.len() && out@[i] == m[0];
        assert(out@[i0].0@ == "root"@ && out@[i0].1@ == "GOD"@);
        assert forall|j: int| 0 <= j < us.len() implies exists|i: int|
            0 <= i < out@.len() && is_user_row(#[trigger] out@[i], #[trigger] us[j]) by {
            assert(m.contains(m[j + 1]));
            assert(m.to_multiset().count(m[j + 1]) > 0);
            assert(out@.to_multiset().count(m[j + 1]) > 0);
            assert(out@.contains(m[j + 1]));
            let i = choose|i: int| 0 <= i < out@.len() && out@[i] == m[j + 1];
            assert(out@[i].0@ == us[j].0@);
            assert(is_user_row(m[j + 1], us[j]));
        }
        assert(us == users@);
    }
    let ghost ov = out@;
    let res: Result<Vec<(String, String)>, ExecutionError> = Ok(out);
    proof {
        assert(res->Ok_0@ == ov);
    }
    res
}

/// The user name a stored user key names, or `None` for the built-in root
/// account (in any ASCII case), which the listing never takes from storage.
/// A key without `prefix`, or with nothing after it, is refused.
pub fn user_key_name(key: &str, prefix: &str) -> (r: Result<Option<String>, ExecutionError>)
    ensures
        !seq_starts_with(key@, prefix@) ==> fails_with(
            r,
            ErrorKind::InvalidOperation,
            "Stored user metadata has an invalid key: "@ + key@,
        ),
        seq_starts_with(key@, prefix@) && key@.len() == prefix@.len() ==> fails_with(
            r,
            ErrorKind::InvalidOperation,
            "Stored user metadata has an empty username"@,
        ),
        seq_starts_with(key@, prefix@) && key@.len() > prefix@.len() ==> ({
            let name = key@.skip(prefix@.len() as int);
            if eq_ignore_ascii_case_spec(name, "root"@) {
                r matches Ok(None)
            } else {
                r matches Ok(Some(n)) && n@ == name
            }
        }),
{
    if !starts_with(key, prefix) {
        let mut d = String::from_str("Stored user metadata has an invalid key: ");
        d.append(key);
        return Err(make_error(ErrorKind::InvalidOperation, d));
    }
    let chars = crate::text::chars_of(key);
    let plen = crate::text::chars_of(prefix).len();
    if chars.len() == plen {
        return Err(
            make_error(
                ErrorKind::InvalidOperation,
                String::from_str("Stored user metadata has an empty username"),
            ),
        );
    }
    let mut rest: Vec<char> = Vec::new();
    let mut i = plen;
    while i < chars.len()
        invariant
            plen <= i <= chars@.len(),
            chars@ == key@,
            plen == prefix@.len(),
            rest@ == key@.subrange(plen as int, i as int),
        decreases chars.len() - i,
    {
        rest.push(chars[i]);
        proof {
            assert(key@.subrange(plen as int, i + 1) =~= key@.subrange(plen as int, i as int).push(
                key@[i as int],
            ));
        }
        i = i + 1;
    }
    assert(rest@ =~= key@.skip(plen as int));
    let name = crate::text::string_of_chars(&rest);
    if eq_ignore_ascii_case(name.as_str(), "root") {
        return Ok(None);
    }
    Ok(Some(name))
}

/// Checks that a stored user record names the user its key names.
pub fn check_stored_username(key_name: &str, stored: Option<&str>) -> (r: Result<(), ExecutionError>)
    ensures
        stored is None ==> fails_with(
            r,
            ErrorKind::InvalidOperation,
            "Stored user metadata for "@ + key_name@ + " is missing username"@,
        ),
        stored matches Some(s) ==> (s@ != key_name@ ==> fails_with(
            r,
            ErrorKind::InvalidOperation,
            "Stored user metadata key "@ + key_name@ + " does not match username "@ + s@,
        )),
        stored matches Some(s) ==> (s@ == key_name@ ==> r is Ok),
{
    match stored {
        None => {
            let mut d = String::from_str("Stored user metadata for ");
            d.append(key_name);
            d.append(" is missing username");
            Err(make_error(ErrorKind::InvalidOperation, d))
        },
        Some(s) => {
            if crate::text::str_is(s, key_name) {
                Ok(())
            } else {
                let mut d = String::from_str("Stored user metadata key ");
                d.append(key_name);
                d.append(" does not match username ");
                d.append(s);
                Err(make_error(ErrorKind::InvalidOperation, d))
            }
        },
    }
}


/// The last position at or before `k` where `p` occurs in `s`.
pub open spec fn last_occurrence_from(s: Seq<char>, p: Seq<char>, k: int) -> Option<int>
    decreases k + 1,
{
    if k < 0 {
        None
    } else if occurs_at(s, p, k) {
        Some(k)
    } else {
        last_occurrence_from(s, p, k - 1)
    }
}

/// The name a schema key holds after the last `marker`, unless it is empty
/// or has a `:` (an index entry under the same prefix).
pub open spec fn schema_name_of(text: Seq<char>, marker: Seq<char>) -> Option<Seq<char>> {
    match last_occurrence_from(text, marker, text.len() - marker.len()) {
        Some(i) => {
            let name = text.skip(i + marker.len());
            if name.len() > 0 && !name.contains(':') {
                Some(name)
            } else {
                None
            }
        },
        None => None,
    }
}

/// The tag or edge type name a schema key names (see [`schema_name_of`]);
/// `None` also for a key that is not UTF-8.
pub fn schema_name_from_key(key: &[u8], marker: &str) -> (r: Option<String>)
    ensures
        match r {
            Some(n) => valid_utf8(key@) && schema_name_of(decode_utf8(key@), marker@) == Some(n@),
            None => !valid_utf8(key@) || schema_name_of(decode_utf8(key@), marker@) is None,
        },
{
    let text = match utf8_text(key) {
        Some(t) => t,
        None => return None,
    };
    let s = chars_of(text);
    let p = chars_of(marker);
    if p.len() > s.len() {
        proof {
            assert(last_occurrence_from(s@, p@, s@.len() - p@.len()) is None);
        }
        return None;
    }
    let mut k: usize = s.len() - p.len();
    let mut found: usize = 0;
    loop
        invariant
            k + p@.len() <= s@.len(),
            s@ == decode_utf8(key@),
            valid_utf8(key@),
            p@ == marker@,
            last_occurrence_from(s@, p@, s@.len() - p@.len()) == last_occurrence_from(
                s@,
                p@,
                k as int,
            ),
        ensures
            found + p@.len() <= s@.len(),
            last_occurrence_from(s@, p@, s@.len() - p@.len()) == Some(found as int),
        decreases k,
    {
        if matches_at(&s, &p, k) {
            found = k;
            break;
        }
        if k == 0 {
            proof {
                assert(last_occurrence_from(s@, p@, -1) is None);
            }
            return None;
        }
        k = k - 1;
    }
    let mut name: Vec<char> = Vec::new();
    let mut i = found + p.len();
    let mut bad = false;
    while i < s.len()
        invariant
            found + p@.len() <= i <= s@.len(),
            name@ == s@.subrange(found + p@.len(), i as int),
            bad == name@.contains(':'),
        decreases s.len() - i,
    {
        let ghost before = name@;
        if s[i] == ':' {
            bad = true;
        }
        name.push(s[i]);
        proof {
            assert(s@.subrange(found + p@.len(), i + 1) =~= before.push(s@[i as int]));
            if s@[i as int] == ':' {
                assert(name@[name@.len() - 1] == ':');
            }
            if name@.contains(':') && !before.contains(':') {
                let j = choose|j: int| 0 <= j < name@.len() && name@[j] == ':';
                if j < before.len() {
                    assert(before[j] == ':');
                }
            }
            if before.contains(':') {
                let j = choose|j: int| 0 <= j < before.len() && before[j] == ':';
                assert(name@[j] == ':');
            }
        }
        i = i + 1;
    }
    assert(name@ =~= s@.skip(found + p@.len()));
    if name.len() == 0 || bad {
        return None;
    }
    Some(string_of_chars(&name))
}

/// A field of a stored schema as DESCRIBE shows it.
pub struct FieldInfo {
    pub name: String,
    pub data_type: DataType,
    pub nullable: bool,
    pub default: Option<String>,
}

/// The DESCRIBE row of a field: name, displayed type, `YES`/`NO` for
/// nullable, and the default (null when none).
pub open spec fn field_row_ok(row: Seq<Value>, f: FieldInfo) -> bool {
    &&& row.len() == 4
    &&& value_model(row[0]) == VModel::Str(f.name@)
    &&& value_model(row[1]) == VModel::Str(data_type_display(f.data_type))
    &&& value_model(row[2]) == VModel::Str(if f.nullable { "YES"@ } else { "NO"@ })
    &&& value_model(row[3]) == match f.default {
        Some(d) => VModel::Str(d@),
        None => VModel::Null,
    }
}

/// The DESCRIBE table of a schema: one row per field, under `Field`,
/// `Type`, `Null` and `Default`.
pub fn schema_fields_to_result(fields: &Vec<FieldInfo>) -> (r: ExecutorResult)
    ensures
        r.columns@.len() == 4,
        r.columns@[0]@ == "Field"@,
        r.columns@[1]@ == "Type"@,
        r.columns@[2]@ == "Null"@,
        r.columns@[3]@ == "Default"@,
        r.rows@.len() == fields@.len(),
        forall|i: int| 0 <= i < fields@.len() ==> field_row_ok((#[trigger] r.rows@[i])@, fields@[i]),
        r.latency_ms == 0,
{
    let mut rows: Vec<Vec<Value>> = Vec::new();
    let mut i: usize = 0;
    while i < fields.len()
        invariant
            i <= fields@.len(),
            rows@.len() == i,
            forall|k: int| 0 <= k < i ==> field_row_ok((#[trigger] rows@[k])@, fields@[k]),
        decreases fields.len() - i,
    {
        let f = &fields[i];
        let mut row: Vec<Value> = Vec::new();
        row.push(Value::String(f.name.clone()));
        row.push(Value::String(format_data_type(&f.data_type)));
        row.push(Value::String(String::from_str(if f.nullable { "YES" } else { "NO" })));
        row.push(
            match &f.default {
                Some(d) => Value::String(d.clone()),
                None => Value::Null,
            },
        );
        rows.push(row);
        i = i + 1;
    }
    let mut columns: Vec<String> = Vec::new();
    columns.push(String::from_str("Field"));
    columns.push(String::from_str("Type"));
    columns.push(String::from_str("Null"));
    columns.push(String::from_str("Default"));
    ExecutorResult { columns, rows, latency_ms: 0 }
}

/// An index as the meta service lists it: its name, the id of the tag or
/// edge type it is on, and its fields.
pub struct IndexListing {
    pub index_name: String,
    pub schema_id: u32,
    pub fields: Vec<String>,
}

/// The name paired with `id` last in `names`, if any.
pub open spec fn name_of_id(names: Seq<(u32, String)>, id: u32) -> Option<Seq<char>>
    decreases names.len(),
{
    if names.len() == 0 {
        None
    } else if names.last().0 == id {
        Some(names.last().1@)
    } else {
        name_of_id(names.drop_last(), id)
    }
}

/// How an index listing names the schema an index is on: by its name, or
/// as `<tag_id=N>` (`<edge_id=N>` for an edge type) when the id is unknown.
pub open spec fn schema_label(names: Seq<(u32, String)>, id: u32, on_edges: bool) -> Seq<char> {
    match name_of_id(names, id) {
        Some(n) => n,
        None => (if on_edges {
            "<edge_id="@
        } else {
            "<tag_id="@
        }) + decimal(id as nat) + ">"@,
    }
}

fn label_of(names: &Vec<(u32, String)>, id: u32, on_edges: bool) -> (r: String)
    ensures
        r@ == schema_label(names@, id, on_edges),
{
    let mut k = names.len();
    assert(names@.take(k as int) =~= names@);
    while k > 0
        invariant
            k <= names@.len(),
            name_of_id(names@, id) == name_of_id(names@.take(k as int), id),
        decreases k,
    {
        assert(names@.take(k as int).drop_last() =~= names@.take(k - 1));
        if names[k - 1].0 == id {
            return names[k - 1].1.clone();
        }
        k = k - 1;
    }
    let mut out = String::new();
    if on_edges {
        out.append("<edge_id=");
    } else {
        out.append("<tag_id=");
    }
    push_decimal(&mut out, id as u64);
    out.append(">");
    out
}

/// The rows of SHOW TAG INDEXES (`on_edges` false) or SHOW EDGE INDEXES from
/// the meta service: index name, the label of the schema it is on among the
/// `(id, name)` pairs `names`, and its fields joined by `, `.
pub fn index_rows(indexes: &Vec<IndexListing>, names: &Vec<(u32, String)>, on_edges: bool) -> (r: Vec<
    (String, String, String),
>)
    ensures
        r@.len() == indexes@.len(),
        forall|i: int|
            0 <= i < r@.len() ==> (#[trigger] r@[i]).0@ == indexes@[i].index_name@ && r@[i].1@
                == schema_label(names@, indexes@[i].schema_id, on_edges) && r@[i].2@ == joined_names(
                names_view(indexes@[i].fields@),
            ),
{
    let mut rows: Vec<(String, String, String)> = Vec::new();
    let mut i: usize = 0;
    while i < indexes.len()
        invariant
            i <= indexes@.len(),
            rows@.len() == i,
            forall|k: int|
                0 <= k < i ==> (#[trigger] rows@[k]).0@ == indexes@[k].index_name@ && rows@[k].1@
                    == schema_label(names@, indexes@[k].schema_id, on_edges) && rows@[k].2@
                    == joined_names(names_view(indexes@[k].fields@)),
        decreases indexes.len() - i,
    {
        let ix = &indexes[i];
        rows.push((ix.index_name.clone(), label_of(names, ix.schema_id, on_edges), join_names(&ix.fields)));
        i = i + 1;
    }
    rows
}

/// The rows of SHOW TAG INDEXES or SHOW EDGE INDEXES from the local index
/// registry, given each index's name, schema name and fields: the same three
/// columns, the fields joined by `, `.
pub fn local_index_rows(indexes: &Vec<(String, String, Vec<String>)>) -> (r: Vec<(String, String, String)>)
    ensures
        r@.len() == indexes@.len(),
        forall|i: int|
            0 <= i < r@.len() ==> (#[trigger] r@[i]).0@ == indexes@[i].0@ && r@[i].1@ == indexes@[i].1@
                && r@[i].2@ == joined_names(names_view(indexes@[i].2@)),
{
    let mut rows: Vec<(String, String, String)> = Vec::new();
    let mut i: usize = 0;
    while i < indexes.len()
        invariant
            i <= indexes@.len(),
            rows@.len() == i,
            forall|k: int|
                0 <= k < i ==> (#[trigger] rows@[k]).0@ == indexes@[k].0@ && rows@[k].1@ == indexes@[k].1@
                    && rows@[k].2@ == joined_names(names_view(indexes@[k].2@)),
        decreases indexes.len() - i,
    {
        rows.push((indexes[i].0.clone(), indexes[i].1.clone(), join_names(&indexes[i].2)));
        i = i + 1;
    }
    rows
}

/// A DESCRIBE CLASS row naming a related class: the marker, the class, an
/// empty type and no default.
pub open spec fn relation_row_ok(row: Seq<Value>, marker: Seq<char>, class: Seq<char>) -> bool {
    &&& row.len() == 4
    &&& value_model(row[0]) == VModel::Str(marker)
    &&& value_model(row[1]) == VModel::Str(class)
    &&& value_model(row[2]) == VModel::Str(Seq::empty())
    &&& value_model(row[3]) == VModel::Null
}

fn relation_row(marker: &str, class: &String) -> (r: Vec<Value>)
    ensures
        relation_row_ok(r@, marker@, class@),
{
    let mut row: Vec<Value> = Vec::new();
    row.push(Value::String(String::from_str(marker)));
    row.push(Value::String(class.clone()));
    row.push(Value::String(String::new()));
    row.push(Value::Null);
    row
}

/// DESCRIBE CLASS: the field rows of the class's tag, then a
/// `(superclass)` row per direct superclass, then an `(ancestor)` row per
/// ancestor that is not a direct superclass, in the given orders.
pub fn describe_class_rows(fields: Vec<Vec<Value>>, superclasses: &Vec<String>, ancestors: &Vec<String>) -> (r: Vec<
    Vec<Value>,
>)
    ensures
        r@.len() >= fields@.len() + superclasses@.len(),
        r@.take(fields@.len() as int) == fields@,
        forall|i: int|
            0 <= i < superclasses@.len() ==> relation_row_ok(
                (#[trigger] r@[fields@.len() + i])@,
                "(superclass)"@,
                superclasses@[i]@,
            ),
        ({
            let tail = r@.skip((fields@.len() + superclasses@.len()) as int);
            let indirect = names_view(ancestors@).filter(|a: Seq<char>| !names_view(superclasses@).contains(a));
            &&& tail.len() == indirect.len()
            &&& forall|i: int| 0 <= i < tail.len() ==> relation_row_ok((#[trigger] tail[i])@, "(ancestor)"@, indirect[i])
        }),
{
    let mut rows = fields;
    let n = rows.len();
    let ghost f0 = rows@;
    let mut i: usize = 0;
    while i < superclasses.len()
        invariant
            i <= superclasses@.len(),
            rows@.len() == n + i,
            n == f0.len(),
            rows@.take(n as int) == f0,
            forall|k: int| 0 <= k < i ==> relation_row_ok((#[trigger] rows@[n + k])@, "(superclass)"@, superclasses@[k]@),
        decreases superclasses.len() - i,
    {
        let ghost before = rows@;
        rows.push(relation_row("(superclass)", &superclasses[i]));
        proof {
            assert(rows@.take(n as int) =~= before.take(n as int));
            assert forall|k: int| 0 <= k < i + 1 implies relation_row_ok((#[trigger] rows@[n + k])@, "(superclass)"@, superclasses@[k]@) by {
                if k < i {
                    assert(rows@[n + k] == before[n + k]);
                }
            }
        }
        i = i + 1;
    }
    let m = rows.len();
    let ghost direct = names_view(superclasses@);
    let ghost pick = |a: Seq<char>| !direct.contains(a);
    let mut j: usize = 0;
    while j < ancestors.len()
        invariant
            j <= ancestors@.len(),
            m == n + superclasses@.len(),
            n == f0.len(),
            rows@.len() >= m,
            direct == names_view(superclasses@),
            pick == (|a: Seq<char>| !direct.contains(a)),
            rows@.take(n as int) == f0,
            forall|k: int| 0 <= k < superclasses@.len() ==> relation_row_ok((#[trigger] rows@[n + k])@, "(superclass)"@, superclasses@[k]@),
            rows@.skip(m as int).len() == names_view(ancestors@).take(j as int).filter(pick).len(),
            forall|k: int| 0 <= k < rows@.skip(m as int).len() ==> relation_row_ok(
                (#[trigger] rows@.skip(m as int)[k])@,
                "(ancestor)"@,
                names_view(ancestors@).take(j as int).filter(pick)[k],
            ),
        decreases ancestors.len() - j,
    {
        let ghost before = rows@;
        let ghost t = names_view(ancestors@).take(j as int);
        assert(names_view(ancestors@).take(j + 1) =~= t.push(ancestors@[j as int]@));
        proof {
            t.lemma_filter_push(ancestors@[j as int]@, pick);
        }
        if !crate::schema::contains_name(superclasses, ancestors[j].as_str()) {
            rows.push(relation_row("(ancestor)", &ancestors[j]));
            proof {
                assert(rows@.skip(m as int) =~= before.skip(m as int).push(rows@[rows@.len() - 1]));
                assert(rows@.take(n as int) =~= before.take(n as int));
                assert forall|k: int| 0 <= k < superclasses@.len() implies relation_row_ok((#[trigger] rows@[n + k])@, "(superclass)"@, superclasses@[k]@) by {
                    assert(rows@[n + k] == before[n + k]);
                }
            }
        }
        j = j + 1;
    }
    assert(names_view(ancestors@).take(ancestors@.len() as int) =~= names_view(ancestors@));
    rows
}

} // verus!
