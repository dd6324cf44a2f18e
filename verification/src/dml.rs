//! Decisions of the statements that change vertices: whether a conditional
//! UPDATE or DELETE applies to a stored vertex, what an UPDATE writes, and
//! which vertices DELETE must keep.
use vstd::prelude::*;
use crate::error::{ErrorKind, ExecutionError, fails_with, make_error};
use crate::eval::{Evaluator, ctx_lookup};
use crate::eval_spec::condition_outcome;
use crate::expr::{EvalContext, Expression};
use crate::records::{TagRecord, vertex_flat_view, vertex_props_flat};
use crate::text::{push_signed_decimal, signed_decimal, str_is};
use crate::value::{PropMap, Value, VModel, value_model, value_text};
use crate::shape::{assignable, value_assignable};

verus! {

/// The context a condition on a stored vertex is evaluated in: its
/// properties, as `tag.prop` and bare `prop`, are the current ones.
pub open spec fn is_vertex_context(c: EvalContext, tags: Seq<TagRecord>) -> bool {
    &&& c.current@ == vertex_flat_view(tags)
    &&& c.source@ == Map::<Seq<char>, VModel>::empty()
    &&& c.destination@ == Map::<Seq<char>, VModel>::empty()
    &&& c.variables@.len() == 0
}

/// Whether a condition outcome and a result agree.
pub open spec fn condition_result(
    r: Option<Result<bool, ExecutionError>>,
    outcome: Option<Result<bool, ErrorKind>>,
) -> bool {
    match (r, outcome) {
        (None, None) => true,
        (Some(Ok(b)), Some(Ok(x))) => b == x,
        (Some(Err(e)), Some(Err(k))) => e.spec_kind() == k,
        _ => false,
    }
}

/// Whether a conditional UPDATE or DELETE applies to a stored vertex
/// (`None`: not found or not readable): without a condition it always does;
/// with one, only to a vertex that was read and satisfies it. `None` where
/// evaluating the condition would overflow 64-bit arithmetic.
pub fn condition_applies(vertex: Option<&Vec<TagRecord>>, cond: Option<&Expression>) -> (r: Option<
    Result<bool, ExecutionError>,
>)
    ensures
        cond is None ==> (r matches Some(Ok(b)) && b),
        cond is Some && vertex is None ==> (r matches Some(Ok(b)) && !b),
        cond matches Some(c) ==> (vertex matches Some(tags) ==> exists|ctx: EvalContext|
            #![trigger is_vertex_context(ctx, tags@)]
            is_vertex_context(ctx, tags@) && condition_result(
                r,
                condition_outcome(*c, ctx_lookup(ctx)),
            )),
{
    let c = match cond {
        None => return Some(Ok(true)),
        Some(c) => c,
    };
    let tags = match vertex {
        None => return Some(Ok(false)),
        Some(t) => t,
    };
    let ctx = EvalContext::new().with_current(vertex_props_flat(tags));
    let r = Evaluator::try_evaluate_condition(c, &ctx);
    proof {
        assert(ctx.source@ =~= Map::<Seq<char>, VModel>::empty());
        assert(ctx.destination@ =~= Map::<Seq<char>, VModel>::empty());
        assert(is_vertex_context(ctx, tags@));
    }
    r
}

/// `m` with each pair of `es` stored in turn.
pub open spec fn insert_entries(m: Map<Seq<char>, VModel>, es: Seq<(String, Value)>) -> Map<
    Seq<char>,
    VModel,
>
    decreases es.len(),
{
    if es.len() == 0 {
        m
    } else {
        insert_entries(m, es.drop_last()).insert(es.last().0@, value_model(es.last().1))
    }
}

fn add_entries(out: &mut PropMap, es: &PropMap)
    ensures
        final(out)@ == insert_entries(old(out)@, es.spec_entries()),
{
    let n = es.entry_count();
    let mut i: usize = 0;
    while i < n
        invariant
            i <= n,
            n == es.spec_entries().len(),
            out@ == insert_entries(old(out)@, es.spec_entries().take(i as int)),
        decreases n - i,
    {
        let (k, v) = es.entry_at(i);
        out.insert(k.clone(), v.duplicate());
        proof {
            assert(es.spec_entries().take(i + 1).drop_last() =~= es.spec_entries().take(i as int));
        }
        i = i + 1;
    }
    assert(es.spec_entries().take(n as int) =~= es.spec_entries());
}

/// Whether some tag is named `name`.
pub open spec fn has_tag(tags: Seq<TagRecord>, name: Seq<char>) -> bool {
    exists|i: int| 0 <= i < tags.len() && (#[trigger] tags[i]).name@ == name
}

/// `r` is `tags` after `UPDATE ... SET` on tag `tag_name` (see
/// [`apply_update`]).
pub open spec fn updated_tags(tags: Seq<TagRecord>, tag_name: Seq<char>, updates: PropMap, r: Seq<TagRecord>) -> bool {
    &&& r.len() == tags.len() + (if has_tag(tags, tag_name) {
        0int
    } else {
        1int
    })
    &&& forall|i: int|
        0 <= i < tags.len() ==> (#[trigger] r[i]).name == tags[i].name && r[i].properties@
            == (if tags[i].name@ == tag_name {
            insert_entries(tags[i].properties@, updates.spec_entries())
        } else {
            tags[i].properties@
        })
    &&& !has_tag(tags, tag_name) ==> r.last().name@ == tag_name && r.last().properties@
        == insert_entries(Map::empty(), updates.spec_entries())
}

/// The tags of a vertex after `UPDATE ... SET` on tag `tag_name`: every tag
/// of that name gets the new values; when there is none, a tag of that name
/// holding just the new values is added at the end.
pub fn apply_update(tags: Vec<TagRecord>, tag_name: &str, updates: &PropMap) -> (r: Vec<TagRecord>)
    ensures
        updated_tags(tags@, tag_name@, *updates, r@),
{
    let ghost ts = tags@;
    let n = tags.len();
    let mut src = tags;
    let mut rev: Vec<TagRecord> = Vec::new();
    while src.len() > 0
        invariant
            src@.len() + rev@.len() == n,
            n == ts.len(),
            src@ == ts.subrange(0, src@.len() as int),
            forall|k: int| 0 <= k < rev@.len() ==> rev@[k] == ts[n - 1 - k],
        decreases src@.len(),
    {
        let x = src.pop().unwrap();
        rev.push(x);
    }
    let mut out: Vec<TagRecord> = Vec::new();
    let mut found = false;
    while rev.len() > 0
        invariant
            out@.len() + rev@.len() == n,
            n == ts.len(),
            forall|k: int| 0 <= k < rev@.len() ==> rev@[k] == ts[n - 1 - k],
            found == has_tag(ts.take(out@.len() as int), tag_name@),
            forall|i: int|
                0 <= i < out@.len() ==> (#[trigger] out@[i]).name == ts[i].name
                    && out@[i].properties@ == (if ts[i].name@ == tag_name@ {
                    insert_entries(ts[i].properties@, updates.spec_entries())
                } else {
                    ts[i].properties@
                }),
        decreases rev@.len(),
    {
        let ghost i = out@.len() as int;
        let mut t = rev.pop().unwrap();
        assert(t == ts[i]);
        let hit = str_is(t.name.as_str(), tag_name);
        if hit {
            add_entries(&mut t.properties, updates);
            found = true;
        }
        out.push(t);
        proof {
            let pre = ts.take(i);
            let now = ts.take(i + 1);
            if has_tag(now, tag_name@) && !hit {
                let j = choose|j: int| 0 <= j < now.len() && (#[trigger] now[j]).name@ == tag_name@;
                assert(j < i);
                assert(pre[j] == now[j]);
            }
            if has_tag(pre, tag_name@) {
                let j = choose|j: int| 0 <= j < pre.len() && (#[trigger] pre[j]).name@ == tag_name@;
                assert(now[j] == pre[j]);
            }
            if hit {
                assert(now[i] == ts[i]);
            }
        }
    }
    assert(ts.take(n as int) =~= ts);
    if !found {
        let mut props = PropMap::new();
        add_entries(&mut props, updates);
        out.push(TagRecord { name: String::from_str(tag_name), properties: props });
    }
    out
}

/// The detail of the error for deleting a vertex merged into another.
pub open spec fn merged_away_detail(vid: i64, rep: i64) -> Seq<char> {
    "vertex "@ + signed_decimal(vid as int) + " was merged into representative "@ + signed_decimal(
        rep as int,
    ) + " via owl:sameAs; deletion is unsupported (insertion-only)"@
}

/// The detail of the error for deleting a vertex that absorbed others.
pub open spec fn representative_detail(vid: i64) -> Seq<char> {
    "vertex "@ + signed_decimal(vid as int)
        + " is a sameAs representative with merged members; deletion is unsupported (insertion-only)"@
}

/// Whether DELETE may remove `vid`, given its sameAs representative and
/// whether other vertices were merged into it: sameAs merges cannot be
/// undone, so neither a merged-away vertex nor a representative with
/// members may go.
pub fn delete_guard(vid: i64, representative: i64, has_members: bool) -> (r: Result<(), ExecutionError>)
    ensures
        representative != vid ==> fails_with(
            r,
            ErrorKind::InvalidOperation,
            merged_away_detail(vid, representative),
        ),
        representative == vid && has_members ==> fails_with(
            r,
            ErrorKind::InvalidOperation,
            representative_detail(vid),
        ),
        representative == vid && !has_members ==> r is Ok,
{
    if representative != vid {
        let mut detail = String::from_str("vertex ");
        push_signed_decimal(&mut detail, vid);
        detail.append(" was merged into representative ");
        push_signed_decimal(&mut detail, representative);
        detail.append(" via owl:sameAs; deletion is unsupported (insertion-only)");
        return Err(make_error(ErrorKind::InvalidOperation, detail));
    }
    if has_members {
        let mut detail = String::from_str("vertex ");
        push_signed_decimal(&mut detail, vid);
        detail.append(
            " is a sameAs representative with merged members; deletion is unsupported (insertion-only)",
        );
        return Err(make_error(ErrorKind::InvalidOperation, detail));
    }
    Ok(())
}


/// A field declared by a tag or edge schema, with its type name when the
/// schema records one.
pub struct SchemaField {
    pub name: String,
    pub data_type: Option<String>,
}

/// Whether a schema is a tag's or an edge type's.
#[derive(Debug, Clone, Copy, PartialEq, Eq, Structural)]
pub enum SchemaKind {
    Tag,
    Edge,
}

/// The type recorded for the first field named `name`: `None` when no
/// field has that name.
pub open spec fn field_type(fields: Seq<SchemaField>, name: Seq<char>) -> Option<Option<Seq<char>>>
    decreases fields.len(),
{
    if fields.len() == 0 {
        None
    } else if fields[0].name@ == name {
        Some(
            match fields[0].data_type {
                Some(t) => Some(t@),
                None => None,
            },
        )
    } else {
        field_type(fields.drop_first(), name)
    }
}

/// Whether a written property is declared and its value fits the type.
pub open spec fn prop_ok(fields: Seq<SchemaField>, e: (String, Value)) -> bool {
    match field_type(fields, e.0@) {
        Some(t) => assignable(value_model(e.1), t),
        None => false,
    }
}

/// The detail of the error for a property the schema does not declare.
pub open spec fn unknown_field_detail(kind: SchemaKind, schema: Seq<char>, field: Seq<char>) -> Seq<
    char,
> {
    match kind {
        SchemaKind::Tag => "Tag '"@ + schema + "' has no field '"@ + field + "'"@,
        SchemaKind::Edge => "Edge type '"@ + schema + "' has no field '"@ + field + "'"@,
    }
}

/// The start of the detail of the error for a value of the wrong type; the
/// value's text follows.
pub open spec fn type_mismatch_prefix(
    kind: SchemaKind,
    schema: Seq<char>,
    field: Seq<char>,
    t: Seq<char>,
) -> Seq<char> {
    "field '"@ + field + (match kind {
        SchemaKind::Tag => "' of tag '"@,
        SchemaKind::Edge => "' of edge '"@,
    }) + schema + "' expects type \""@ + t + "\", got "@
}

/// `r` is a type-mismatch error whose detail is [`type_mismatch_prefix`]
/// for a field of type `t`, followed by the text of the offending value.
pub open spec fn mismatch_error(
    r: Result<(), ExecutionError>,
    kind: SchemaKind,
    schema: Seq<char>,
    field: Seq<char>,
    t: Option<Seq<char>>,
    v: Value,
) -> bool {
    match (r, t) {
        (Err(e), Some(tn)) => {
            &&& e.spec_kind() == ErrorKind::TypeMismatch
            &&& e.spec_detail() == type_mismatch_prefix(kind, schema, field, tn) + value_text(v)
        },
        _ => false,
    }
}

fn find_field<'a>(fields: &'a Vec<SchemaField>, name: &str) -> (r: Option<&'a SchemaField>)
    ensures
        match r {
            Some(f) => field_type(fields@, name@) == Some(
                match f.data_type {
                    Some(t) => Some(t@),
                    None => None,
                },
            ),
            None => field_type(fields@, name@) is None,
        },
{
    let mut i: usize = 0;
    assert(fields@.skip(0) =~= fields@);
    while i < fields.len()
        invariant
            i <= fields.len(),
            field_type(fields@, name@) == field_type(fields@.skip(i as int), name@),
        decreases fields.len() - i,
    {
        assert(fields@.skip(i as int).drop_first() =~= fields@.skip(i + 1));
        if str_is(fields[i].name.as_str(), name) {
            return Some(&fields[i]);
        }
        i = i + 1;
    }
    None
}

/// Every property of `props` fits the schema `fields`.
pub open spec fn props_ok(fields: Seq<SchemaField>, props: PropMap) -> bool {
    forall|i: int| 0 <= i < props.spec_entries().len() ==> prop_ok(fields, #[trigger] props.spec_entries()[i])
}

/// What checking `props` against `fields` gives: success exactly when every
/// property fits; else the error for the first property that does not, an
/// undeclared one as an invalid operation and a misfit as a type mismatch.
pub open spec fn props_verdict(
    r: Result<(), ExecutionError>,
    kind: SchemaKind,
    schema_name: Seq<char>,
    fields: Seq<SchemaField>,
    props: PropMap,
) -> bool {
    &&& (r is Ok <==> props_ok(fields, props))
    &&& r is Err ==> exists|i: int|
        #![trigger props.spec_entries()[i]]
        0 <= i < props.spec_entries().len() && !prop_ok(fields, props.spec_entries()[i])
            && (forall|j: int| 0 <= j < i ==> prop_ok(fields, #[trigger] props.spec_entries()[j]))
            && match field_type(fields, props.spec_entries()[i].0@) {
            None => fails_with(
                r,
                ErrorKind::InvalidOperation,
                unknown_field_detail(kind, schema_name, props.spec_entries()[i].0@),
            ),
            Some(t) => mismatch_error(r, kind, schema_name, props.spec_entries()[i].0@, t, props.spec_entries()[i].1),
        }
}

/// Checks the properties written to a tag or edge against its schema:
/// every property must be declared and its value must fit the declared
/// type. The first offending property, in storage order, is reported: an
/// undeclared one as an invalid operation, a misfit as a type mismatch.
pub fn validate_props(
    kind: SchemaKind,
    schema_name: &str,
    fields: &Vec<SchemaField>,
    props: &PropMap,
) -> (r: Result<(), ExecutionError>)
    ensures
        props_verdict(r, kind, schema_name@, fields@, *props),
{
    let n = props.entry_count();
    let mut i: usize = 0;
    while i < n
        invariant
            i <= n,
            n == props.spec_entries().len(),
            forall|j: int| 0 <= j < i ==> prop_ok(fields@, #[trigger] props.spec_entries()[j]),
        decreases n - i,
    {
        let (k, v) = props.entry_at(i);
        match find_field(fields, k.as_str()) {
            None => {
                let mut detail = match kind {
                    SchemaKind::Tag => String::from_str("Tag '"),
                    SchemaKind::Edge => String::from_str("Edge type '"),
                };
                detail.append(schema_name);
                detail.append("' has no field '");
                detail.append(k.as_str());
                detail.append("'");
                let r = Err(make_error(ErrorKind::InvalidOperation, detail));
                assert(!prop_ok(fields@, props.spec_entries()[i as int]));
                return r;
            },
            Some(f) => {
                let t = match &f.data_type {
                    Some(t) => Some(t.as_str()),
                    None => None,
                };
                if !value_assignable(v, t) {
                    let tn = match &f.data_type {
                        Some(t) => t,
                        None => {
                            assert(false);
                            return Ok(());
                        },
                    };
                    let mut detail = String::from_str("field '");
                    detail.append(k.as_str());
                    match kind {
                        SchemaKind::Tag => detail.append("' of tag '"),
                        SchemaKind::Edge => detail.append("' of edge '"),
                    }
                    detail.append(schema_name);
                    detail.append("' expects type \"");
                    detail.append(tn.as_str());
                    detail.append("\", got ");
                    let ghost prefix = detail@;
                    v.push_text(&mut detail);
                    proof {
                        assert(prefix =~= type_mismatch_prefix(kind, schema_name@, k@, tn@));
                    }
                    let r = Err(make_error(ErrorKind::TypeMismatch, detail));
                    assert(!prop_ok(fields@, props.spec_entries()[i as int]));
                    return r;
                }
            },
        }
        i = i + 1;
    }
    Ok(())
}

/// Whether the sameAs guard lets `vids[i]` be deleted.
pub open spec fn guard_passes(vids: Seq<i64>, reps: Seq<i64>, has_members: Seq<bool>, i: int) -> bool {
    reps[i] == vids[i] && !has_members[i]
}

/// The detail of the error the sameAs guard gives `vids[i]`.
pub open spec fn guard_detail(vids: Seq<i64>, reps: Seq<i64>, i: int) -> Seq<char> {
    if reps[i] != vids[i] {
        merged_away_detail(vids[i], reps[i])
    } else {
        representative_detail(vids[i])
    }
}

/// A condition outcome on a stored record: with no condition, it holds;
/// on a record that does not decode, it fails to hold; else it is the
/// condition's outcome in some context of the vertex.
pub open spec fn record_outcome(
    rec: Option<Vec<TagRecord>>,
    cond: Option<Expression>,
    o: Option<Result<bool, ErrorKind>>,
) -> bool {
    match cond {
        None => o == Some(Ok::<bool, ErrorKind>(true)),
        Some(c) => match rec {
            None => o == Some(Ok::<bool, ErrorKind>(false)),
            Some(tags) => exists|ctx: EvalContext|
                #![trigger is_vertex_context(ctx, tags@)]
                is_vertex_context(ctx, tags@) && condition_outcome(c, ctx_lookup(ctx)) == o,
        },
    }
}

/// The condition, if any.
pub open spec fn cond_of(cond: Option<&Expression>) -> Option<Expression> {
    match cond {
        Some(c) => Some(*c),
        None => None,
    }
}

/// A stored record's condition outcome (see [`record_outcome`]); nothing
/// for a vertex without a record.
pub open spec fn stored_outcome(
    stored: Option<Option<Vec<TagRecord>>>,
    cond: Option<Expression>,
    o: Option<Result<bool, ErrorKind>>,
) -> bool {
    match stored {
        Some(rec) => record_outcome(rec, cond, o),
        None => false,
    }
}

/// Which of the listed vertices DELETE VERTEX removes. `vids[i]` is a
/// listed vertex, `reps[i]` its sameAs representative, `has_members[i]`
/// whether others were merged into it, and `stored[i]` its record read
/// from the store (`None`: no record; `Some(None)`: a record that does not
/// decode). First every vertex must pass the sameAs guard, else the first
/// that does not is refused. Then each stored vertex, in order, is deleted
/// when the condition holds on it; an error evaluating it ends the
/// statement. The result lists the positions deleted, in order; `None` where
/// evaluating the condition would overflow 64-bit arithmetic.
pub fn delete_plan(
    vids: &Vec<i64>,
    reps: &Vec<i64>,
    has_members: &Vec<bool>,
    stored: &Vec<Option<Option<Vec<TagRecord>>>>,
    cond: Option<&Expression>,
) -> (r: Option<Result<Vec<usize>, ExecutionError>>)
    requires
        reps@.len() == vids@.len(),
        has_members@.len() == vids@.len(),
        stored@.len() == vids@.len(),
    ensures
        forall|g: int| 0 <= g < vids@.len() && !guard_passes(vids@, reps@, has_members@, g)
            && (forall|h: int| 0 <= h < g ==> guard_passes(vids@, reps@, has_members@, h))
            ==> (r matches Some(res) && fails_with(res, ErrorKind::InvalidOperation, guard_detail(vids@, reps@, g))),
        (forall|h: int| 0 <= h < vids@.len() ==> guard_passes(vids@, reps@, has_members@, h)) ==> match r {
            Some(Ok(kept)) => {
                &&& forall|m: int, n: int| 0 <= m < n < kept@.len() ==> kept@[m] < kept@[n]
                &&& forall|i: int| 0 <= i < vids@.len() ==> (#[trigger] stored@[i] matches Some(rec) ==> (
                    kept@.contains(i as usize) <==> record_outcome(rec, cond_of(cond), Some(Ok(true)))))
                &&& forall|m: int| 0 <= m < kept@.len() ==> kept@[m] < vids@.len() && stored@[kept@[m] as int] is Some
            },
            Some(Err(e)) => exists|i: int|
                0 <= i < vids@.len() && stored_outcome(#[trigger] stored@[i], cond_of(cond), Some(Err(e.spec_kind()))),
            None => exists|i: int| 0 <= i < vids@.len() && stored_outcome(#[trigger] stored@[i], cond_of(cond), None),
        },
{
    let mut g: usize = 0;
    while g < vids.len()
        invariant
            g <= vids@.len(),
            reps@.len() == vids@.len(),
            has_members@.len() == vids@.len(),
            forall|h: int| 0 <= h < g ==> guard_passes(vids@, reps@, has_members@, h),
        decreases vids.len() - g,
    {
        match delete_guard(vids[g], reps[g], has_members[g]) {
            Err(e) => {
                proof {
                    assert(!guard_passes(vids@, reps@, has_members@, g as int));
                    assert forall|g2: int| 0 <= g2 < vids@.len() && !guard_passes(vids@, reps@, has_members@, g2)
                        && (forall|h: int| 0 <= h < g2 ==> guard_passes(vids@, reps@, has_members@, h)) implies g2 == g by {
                        if g2 > g {
                            assert(guard_passes(vids@, reps@, has_members@, g as int));
                        }
                    }
                }
                return Some(Err(e));
            },
            Ok(()) => {},
        }
        g = g + 1;
    }
    let mut kept: Vec<usize> = Vec::new();
    let mut i: usize = 0;
    while i < vids.len()
        invariant
            i <= vids@.len(),
            stored@.len() == vids@.len(),
            reps@.len() == vids@.len(),
            has_members@.len() == vids@.len(),
            forall|h: int| 0 <= h < vids@.len() ==> guard_passes(vids@, reps@, has_members@, h),
            forall|m: int, n: int| 0 <= m < n < kept@.len() ==> kept@[m] < kept@[n],
            forall|m: int| 0 <= m < kept@.len() ==> kept@[m] < i && stored@[kept@[m] as int] is Some,
            forall|k: int| 0 <= k < i ==> (#[trigger] stored@[k] matches Some(rec) ==> (
                kept@.contains(k as usize) <==> record_outcome(rec, cond_of(cond), Some(Ok(true))))),
        decreases vids.len() - i,
    {
        match &stored[i] {
            Some(rec) => {
                let outcome = condition_applies(rec.as_ref(), cond);
                proof {
                    lemma_record_outcome_unique(*rec, cond_of(cond));
                }
                match outcome {
                    None => {
                        proof {
                            if let Some(c) = cond {
                                if let Some(tags) = rec {
                                    let ctx = choose|ctx: EvalContext| #![trigger is_vertex_context(ctx, tags@)] is_vertex_context(ctx, tags@)
                                        && condition_result(outcome, condition_outcome(*c, ctx_lookup(ctx)));
                                    assert(record_outcome(*rec, cond_of(cond), None));
                                }
                            }
                            assert(stored_outcome(stored@[i as int], cond_of(cond), None));
                        }
                        return None;
                    },
                    Some(Err(e)) => {
                        proof {
                            if let Some(c) = cond {
                                if let Some(tags) = rec {
                                    let ctx = choose|ctx: EvalContext| #![trigger is_vertex_context(ctx, tags@)] is_vertex_context(ctx, tags@)
                                        && condition_result(outcome, condition_outcome(*c, ctx_lookup(ctx)));
                                    assert(record_outcome(*rec, cond_of(cond), Some(Err(e.spec_kind()))));
                                }
                            }
                            assert(stored_outcome(stored@[i as int], cond_of(cond), Some(Err(e.spec_kind()))));
                        }
                        return Some(Err(e));
                    },
                    Some(Ok(b)) => {
                        proof {
                            if let Some(c) = cond {
                                if let Some(tags) = rec {
                                    let ctx = choose|ctx: EvalContext| #![trigger is_vertex_context(ctx, tags@)] is_vertex_context(ctx, tags@)
                                        && condition_result(outcome, condition_outcome(*c, ctx_lookup(ctx)));
                                    assert(record_outcome(*rec, cond_of(cond), Some(Ok(b))));
                                }
                            }
                            assert(record_outcome(*rec, cond_of(cond), Some(Ok(b))));
                            assert(record_outcome(*rec, cond_of(cond), Some(Ok(true))) == b);
                        }
                        let ghost before = kept@;
                        if b {
                            kept.push(i);
                        }
                        proof {
                            assert forall|k: int| 0 <= k < i + 1 implies (#[trigger] stored@[k] matches Some(rec2) ==> (
                                kept@.contains(k as usize) <==> record_outcome(rec2, cond_of(cond), Some(Ok(true))))) by {
                                if k < i {
                                    if kept@.contains(k as usize) && !before.contains(k as usize) {
                                        assert(kept@.last() == i);
                                    }
                                    if before.contains(k as usize) {
                                        let m = choose|m: int| 0 <= m < before.len() && before[m] == k as usize;
                                        assert(kept@[m] == k as usize);
                                    }
                                } else {
                                    if b {
                                        assert(kept@[kept@.len() - 1] == i);
                                    } else {
                                        if kept@.contains(i) {
                                            let m = choose|m: int| 0 <= m < kept@.len() && kept@[m] == i;
                                            assert(kept@[m] < i);
                                        }
                                    }
                                }
                            }
                        }
                    },
                }
            },
            None => {
                proof {
                    assert forall|k: int| 0 <= k < i + 1 implies (#[trigger] stored@[k] matches Some(rec2) ==> (
                        kept@.contains(k as usize) <==> record_outcome(rec2, cond_of(cond), Some(Ok(true))))) by {}
                }
            },
        }
        i = i + 1;
    }
    Some(Ok(kept))
}

pub proof fn lemma_get_by_view(a: PropMap, b: PropMap, k: Seq<char>)
    requires
        a@ == b@,
    ensures
        a.spec_get(k) == b.spec_get(k),
{
    assert(a@.contains_key(k) == (a.spec_get(k) is Some));
    assert(b@.contains_key(k) == (b.spec_get(k) is Some));
    if a.spec_get(k) is Some {
        assert(a@[k] == a.spec_get(k)->0);
        assert(b@[k] == b.spec_get(k)->0);
    }
}

/// A record's condition outcome is the same in every context of the vertex.
pub proof fn lemma_record_outcome_unique(rec: Option<Vec<TagRecord>>, cond: Option<Expression>)
    ensures
        forall|o1: Option<Result<bool, ErrorKind>>, o2: Option<Result<bool, ErrorKind>>|
            #[trigger] record_outcome(rec, cond, o1) && #[trigger] record_outcome(rec, cond, o2) ==> o1 == o2,
{
    assert forall|o1: Option<Result<bool, ErrorKind>>, o2: Option<Result<bool, ErrorKind>>|
        #[trigger] record_outcome(rec, cond, o1) && #[trigger] record_outcome(rec, cond, o2) implies o1 == o2 by {
        if let (Some(c), Some(tags)) = (cond, rec) {
            let c1 = choose|ctx: EvalContext| #![trigger is_vertex_context(ctx, tags@)] is_vertex_context(ctx, tags@) && condition_outcome(c, ctx_lookup(ctx)) == o1;
            let c2 = choose|ctx: EvalContext| #![trigger is_vertex_context(ctx, tags@)] is_vertex_context(ctx, tags@) && condition_outcome(c, ctx_lookup(ctx)) == o2;
            lemma_vertex_contexts_agree(c1, c2, tags@);
        }
    }
}

proof fn lemma_vertex_contexts_agree(c1: EvalContext, c2: EvalContext, tags: Seq<TagRecord>)
    requires
        is_vertex_context(c1, tags),
        is_vertex_context(c2, tags),
    ensures
        ctx_lookup(c1) == ctx_lookup(c2),
{
    lemma_same_views_same_lookup(c1, c2);
}

/// Contexts with the same property views and no variables resolve every
/// property path alike.
pub proof fn lemma_same_views_same_lookup(c1: EvalContext, c2: EvalContext)
    requires
        c1.current@ == c2.current@,
        c1.source@ == c2.source@,
        c1.destination@ == c2.destination@,
        c1.variables@.len() == 0,
        c2.variables@.len() == 0,
    ensures
        ctx_lookup(c1) == ctx_lookup(c2),
{
    assert(ctx_lookup(c1) =~= ctx_lookup(c2)) by {
        assert forall|p: Seq<char>| #[trigger] ctx_lookup(c1)(p) == ctx_lookup(c2)(p) by {
            lemma_get_by_view(c1.current, c2.current, p);
            let parts = crate::text::split_on(p, '.');
            if parts.len() == 3 {
                lemma_get_by_view(c1.destination, c2.destination, crate::expr::dotted(parts[1], parts[2]));
                lemma_get_by_view(c1.destination, c2.destination, parts[2]);
                lemma_get_by_view(c1.source, c2.source, crate::expr::dotted(parts[1], parts[2]));
                lemma_get_by_view(c1.source, c2.source, parts[2]);
            }
            if parts.len() == 2 {
                lemma_get_by_view(c1.current, c2.current, crate::expr::dotted(parts[0], parts[1]));
                lemma_get_by_view(c1.current, c2.current, parts[1]);
            }
            if parts.len() == 1 {
                lemma_get_by_view(c1.current, c2.current, parts[0]);
            }
        }
    }
}

} // verus!
