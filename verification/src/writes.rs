//! What INSERT VERTEX writes: each vertex is checked against the schemas of
//! its tags and the shapes that target its classes, and only when every
//! vertex passes are the writes made, all in one batch: the vertex's
//! current record, a history version of it, and a tag marker per tag.
use vstd::prelude::*;
use crate::dml::{
    SchemaField, SchemaKind, apply_update, condition_applies, condition_result, insert_entries, is_vertex_context,
    lemma_get_by_view, lemma_record_outcome_unique, lemma_same_views_same_lookup, props_ok, props_verdict,
    cond_of, record_outcome, updated_tags, validate_props,
};
use crate::eval_spec::condition_outcome;
use crate::expr::Expression;
use crate::value::PropMap;
use crate::error::{ErrorKind, ExecutionError, fails_with, make_error};
use crate::eval::ctx_lookup;
use crate::expr::EvalContext;
use crate::keys::{vertex_key, vertex_key_text};
use crate::records::{TagRecord, flat_fold, flatten_vertex_props, tags_pairs};
use crate::schema::names_view;
use crate::shape::{
    ShapeConstraint, ShapeDef, constraint_violation, pairs_model, predicates_fit, try_shape_violations,
    violations,
};
use crate::text::str_is;
use crate::value::VModel;

verus! {

/// The names of `tags`, in order.
pub open spec fn tag_names(tags: Seq<TagRecord>) -> Seq<Seq<char>> {
    tags.map_values(|t: TagRecord| t.name@)
}

/// The shape targets a class of the vertex: one of its tags or their
/// ancestors.
pub open spec fn shape_applies(s: ShapeDef, tags: Seq<TagRecord>, ancestors: Seq<String>) -> bool {
    tag_names(tags).contains(s.target_class@) || names_view(ancestors).contains(s.target_class@)
}

/// The context shapes are checked in: the vertex's properties as `tag.prop`
/// and as bare `prop` (the last tag that has a property taking the bare
/// key), and nothing else.
pub open spec fn write_context(ctx: EvalContext, tags: Seq<TagRecord>) -> bool {
    &&& ctx.current@ == flat_fold(Map::empty(), tags_pairs(tags), true)
    &&& ctx.source@ == Map::<Seq<char>, VModel>::empty()
    &&& ctx.destination@ == Map::<Seq<char>, VModel>::empty()
    &&& ctx.variables@.len() == 0
}

/// Checking `shapes` in order: `None` where a predicate would overflow,
/// `Some(None)` when none that applies is violated, else the shape, property
/// and reason of the first violation.
pub open spec fn shapes_outcome(
    shapes: Seq<ShapeDef>,
    tags: Seq<TagRecord>,
    ancestors: Seq<String>,
    ctx: EvalContext,
) -> Option<Option<(Seq<char>, Seq<char>, Seq<char>)>>
    decreases shapes.len(),
{
    if shapes.len() == 0 {
        Some(None)
    } else {
        let s = shapes[0];
        if !shape_applies(s, tags, ancestors) {
            shapes_outcome(shapes.drop_first(), tags, ancestors, ctx)
        } else if !predicates_fit(s.constraints@, ctx) {
            None
        } else if violations(s.constraints@, ctx).len() > 0 {
            Some(Some((s.name@, violations(s.constraints@, ctx)[0].0, violations(s.constraints@, ctx)[0].1)))
        } else {
            shapes_outcome(shapes.drop_first(), tags, ancestors, ctx)
        }
    }
}

/// The detail of the error for a violated shape.
pub open spec fn shape_error_detail(shape: Seq<char>, prop: Seq<char>, reason: Seq<char>) -> Seq<char> {
    "shape "@ + shape + " violated on property "@ + prop + ": "@ + reason
}

/// `r` reports the shape outcome `o`.
pub open spec fn shapes_verdict(r: Option<Result<(), ExecutionError>>, o: Option<Option<(Seq<char>, Seq<char>, Seq<char>)>>) -> bool {
    match o {
        None => r is None,
        Some(None) => r == Some(Ok::<(), ExecutionError>(())),
        Some(Some((n, p, q))) => r matches Some(res) && fails_with(res, ErrorKind::InvalidOperation, shape_error_detail(n, p, q)),
    }
}

proof fn lemma_shapes_outcome_by_views(
    shapes: Seq<ShapeDef>,
    tags: Seq<TagRecord>,
    ancestors: Seq<String>,
    c1: EvalContext,
    c2: EvalContext,
)
    requires
        write_context(c1, tags),
        write_context(c2, tags),
    ensures
        shapes_outcome(shapes, tags, ancestors, c1) == shapes_outcome(shapes, tags, ancestors, c2),
    decreases shapes.len(),
{
    lemma_same_views_same_lookup(c1, c2);
    if shapes.len() > 0 {
        let cs = shapes[0].constraints@;
        lemma_violations_by_views(cs, c1, c2);
        assert(predicates_fit(cs, c1) == predicates_fit(cs, c2));
        lemma_shapes_outcome_by_views(shapes.drop_first(), tags, ancestors, c1, c2);
    }
}

proof fn lemma_violations_by_views(cs: Seq<ShapeConstraint>, c1: EvalContext, c2: EvalContext)
    requires
        c1.current@ == c2.current@,
        ctx_lookup(c1) == ctx_lookup(c2),
    ensures
        violations(cs, c1) == violations(cs, c2),
    decreases cs.len(),
{
    if cs.len() > 0 {
        lemma_violations_by_views(cs.drop_last(), c1, c2);
        lemma_get_by_view(c1.current, c2.current, cs.last().property@);
        assert(constraint_violation(cs.last(), c1) == constraint_violation(cs.last(), c2));
    }
}

fn name_in(names: &Vec<String>, s: &str) -> (r: bool)
    ensures
        r == names_view(names@).contains(s@),
{
    let mut i: usize = 0;
    while i < names.len()
        invariant
            i <= names@.len(),
            forall|k: int| 0 <= k < i ==> names@[k]@ != s@,
        decreases names.len() - i,
    {
        if str_is(names[i].as_str(), s) {
            assert(names_view(names@)[i as int] == s@);
            return true;
        }
        i = i + 1;
    }
    proof {
        if names_view(names@).contains(s@) {
            let k = choose|k: int| 0 <= k < names_view(names@).len() && names_view(names@)[k] == s@;
            assert(names@[k]@ == s@);
        }
    }
    false
}

fn tag_named(tags: &Vec<TagRecord>, s: &str) -> (r: bool)
    ensures
        r == tag_names(tags@).contains(s@),
{
    let mut i: usize = 0;
    while i < tags.len()
        invariant
            i <= tags@.len(),
            forall|k: int| 0 <= k < i ==> tags@[k].name@ != s@,
        decreases tags.len() - i,
    {
        if str_is(tags[i].name.as_str(), s) {
            assert(tag_names(tags@)[i as int] == s@);
            return true;
        }
        i = i + 1;
    }
    proof {
        if tag_names(tags@).contains(s@) {
            let k = choose|k: int| 0 <= k < tag_names(tags@).len() && tag_names(tags@)[k] == s@;
            assert(tags@[k].name@ == s@);
        }
    }
    false
}

/// Checks a written vertex with tags `tags` against the shapes that target
/// its classes (its tags and their `ancestors`), in order, stopping at the
/// first violation; `None` where a predicate would overflow 64-bit
/// arithmetic.
pub fn check_write_shapes(shapes: &Vec<ShapeDef>, tags: &Vec<TagRecord>, ancestors: &Vec<String>) -> (r: Option<
    Result<(), ExecutionError>,
>)
    ensures
        exists|ctx: EvalContext| #[trigger] write_context(ctx, tags@),
        forall|ctx: EvalContext| #[trigger] write_context(ctx, tags@) ==> shapes_verdict(
            r,
            shapes_outcome(shapes@, tags@, ancestors@, ctx),
        ),
{
    let ctx = EvalContext::new().with_current(flatten_vertex_props(tags));
    proof {
        assert(ctx.source@ =~= Map::<Seq<char>, VModel>::empty());
        assert(ctx.destination@ =~= Map::<Seq<char>, VModel>::empty());
        assert(write_context(ctx, tags@));
    }
    let mut i: usize = 0;
    assert(shapes@.skip(0) =~= shapes@);
    while i < shapes.len()
        invariant
            i <= shapes@.len(),
            write_context(ctx, tags@),
            shapes_outcome(shapes@, tags@, ancestors@, ctx) == shapes_outcome(shapes@.skip(i as int), tags@, ancestors@, ctx),
        decreases shapes.len() - i,
    {
        let s = &shapes[i];
        assert(shapes@.skip(i as int)[0] == shapes@[i as int]);
        assert(shapes@.skip(i as int).drop_first() =~= shapes@.skip(i + 1));
        if tag_named(tags, s.target_class.as_str()) || name_in(ancestors, s.target_class.as_str()) {
            match try_shape_violations(s, &ctx) {
                None => {
                    proof {
                        lemma_verdict_all_contexts(shapes@, tags@, ancestors@, ctx, None);
                    }
                    return None;
                },
                Some(v) => {
                    if v.len() > 0 {
                        let mut detail = String::from_str("shape ");
                        detail.append(s.name.as_str());
                        detail.append(" violated on property ");
                        detail.append(v[0].0.as_str());
                        detail.append(": ");
                        detail.append(v[0].1.as_str());
                        let r = Some(Err(make_error(ErrorKind::InvalidOperation, detail)));
                        proof {
                            assert(pairs_model(v@)[0] == (v@[0].0@, v@[0].1@));
                            lemma_verdict_all_contexts(shapes@, tags@, ancestors@, ctx, r);
                        }
                        return r;
                    }
                    proof {
                        assert(pairs_model(v@).len() == v@.len());
                    }
                },
            }
        }
        i = i + 1;
    }
    let r = Some(Ok(()));
    proof {
        assert(shapes@.skip(i as int).len() == 0);
        lemma_verdict_all_contexts(shapes@, tags@, ancestors@, ctx, r);
    }
    r
}

proof fn lemma_verdict_all_contexts(
    shapes: Seq<ShapeDef>,
    tags: Seq<TagRecord>,
    ancestors: Seq<String>,
    ctx: EvalContext,
    r: Option<Result<(), ExecutionError>>,
)
    requires
        write_context(ctx, tags),
        shapes_verdict(r, shapes_outcome(shapes, tags, ancestors, ctx)),
    ensures
        forall|c: EvalContext| #[trigger] write_context(c, tags) ==> shapes_verdict(
            r,
            shapes_outcome(shapes, tags, ancestors, c),
        ),
{
    assert forall|c: EvalContext| #[trigger] write_context(c, tags) implies shapes_verdict(
        r,
        shapes_outcome(shapes, tags, ancestors, c),
    ) by {
        lemma_shapes_outcome_by_views(shapes, tags, ancestors, ctx, c);
    }
}

/// A vertex written by INSERT VERTEX: its id, the id as the statement wrote
/// it (for the tag markers), its tags, the schema of each tag (`None`: no
/// such tag), and the ancestors of its tags' classes.
pub struct VertexInsert {
    pub vid: i64,
    pub vid_text: String,
    pub tags: Vec<TagRecord>,
    pub schemas: Vec<Option<Vec<SchemaField>>>,
    pub ancestors: Vec<String>,
}

/// A write of the batch: the current record of the vertex at position
/// `vertex` of the statement, a history version of it, or an empty marker.
pub enum KvWrite {
    Current { key: String, vertex: usize },
    History { key: String, vertex: usize },
    Marker { key: String },
}

/// The model of a write.
pub enum WriteModel {
    Current(Seq<char>, int),
    History(Seq<char>, int),
    Marker(Seq<char>),
}

pub open spec fn write_model(w: KvWrite) -> WriteModel {
    match w {
        KvWrite::Current { key, vertex } => WriteModel::Current(key@, vertex as int),
        KvWrite::History { key, vertex } => WriteModel::History(key@, vertex as int),
        KvWrite::Marker { key } => WriteModel::Marker(key@),
    }
}

pub open spec fn writes_model(ws: Seq<KvWrite>) -> Seq<WriteModel> {
    ws.map_values(|w: KvWrite| write_model(w))
}

/// The marker key of a tag of a written vertex: `{space}:tagvid:{tag}:{vid}`.
pub open spec fn tag_marker_key(space: Seq<char>, tag: Seq<char>, vid_text: Seq<char>) -> Seq<char> {
    space + ":tagvid:"@ + tag + ":"@ + vid_text
}

/// The writes for the vertex at position `i`: its current record and a
/// history version of it under its vertex key, then a marker per tag.
pub open spec fn vertex_writes(space: Seq<char>, v: VertexInsert, i: int) -> Seq<WriteModel> {
    seq![
        WriteModel::Current(vertex_key_text(space, v.vid), i),
        WriteModel::History(vertex_key_text(space, v.vid), i),
    ] + v.tags@.map_values(|t: TagRecord| WriteModel::Marker(tag_marker_key(space, t.name@, v.vid_text@)))
}

/// The writes for the first `n` vertices, in order.
pub open spec fn insert_writes_spec(space: Seq<char>, vs: Seq<VertexInsert>, n: int) -> Seq<WriteModel>
    decreases n,
{
    if n <= 0 {
        Seq::empty()
    } else {
        insert_writes_spec(space, vs, n - 1) + vertex_writes(space, vs[n - 1], n - 1)
    }
}

/// Tag `k` of the vertex is declared and its properties fit its schema.
pub open spec fn tag_ok(v: VertexInsert, k: int) -> bool {
    v.schemas@[k] matches Some(f) && props_ok(f@, v.tags@[k].properties)
}

/// Every tag of the vertex is declared and fits.
pub open spec fn tags_ok(v: VertexInsert) -> bool {
    forall|k: int| 0 <= k < v.tags@.len() ==> tag_ok(v, k)
}

/// The outcome `r` of checking the vertex: the error of its first tag that
/// is undeclared (tag not found) or does not fit; when all fit, the outcome
/// of its shapes.
pub open spec fn vertex_verdict(v: VertexInsert, shapes: Seq<ShapeDef>, r: Option<Result<(), ExecutionError>>) -> bool {
    if tags_ok(v) {
        forall|ctx: EvalContext| #[trigger] write_context(ctx, v.tags@) ==> shapes_verdict(
            r,
            shapes_outcome(shapes, v.tags@, v.ancestors@, ctx),
        )
    } else {
        exists|k: int|
            0 <= k < v.tags@.len() && !tag_ok(v, k) && (forall|l: int| 0 <= l < k ==> tag_ok(v, l)) && (
            r matches Some(res) && match v.schemas@[k] {
                None => fails_with(res, ErrorKind::TagNotFound, v.tags@[k].name@),
                Some(f) => props_verdict(res, SchemaKind::Tag, v.tags@[k].name@, f@, v.tags@[k].properties),
            })
    }
}

/// The batch INSERT VERTEX writes into space `space`. Each vertex, in
/// order, must have every tag declared and fitting its schema and violate
/// no shape that targets its classes; the first that does not ends the
/// statement with its error and nothing is written. When all pass, the
/// writes are, per vertex in order: its current record and a history
/// version of it, both under `{space}:vertex:{vid}`, then a marker per tag.
/// `None` where a shape predicate would overflow 64-bit arithmetic.
pub fn insert_writes(space: &str, vertices: &Vec<VertexInsert>, shapes: &Vec<ShapeDef>) -> (r: Option<
    Result<Vec<KvWrite>, ExecutionError>,
>)
    requires
        forall|i: int| 0 <= i < vertices@.len() ==> (#[trigger] vertices@[i]).schemas@.len() == vertices@[i].tags@.len(),
    ensures
        r matches Some(Ok(w)) ==> writes_model(w@) == insert_writes_spec(space@, vertices@, vertices@.len() as int),
        r matches Some(Ok(_)) <==> forall|i: int|
            0 <= i < vertices@.len() ==> vertex_verdict(#[trigger] vertices@[i], shapes@, Some(Ok(()))),
        r matches Some(Err(e)) ==> exists|i: int|
            0 <= i < vertices@.len() && (forall|j: int| 0 <= j < i ==> vertex_verdict(#[trigger] vertices@[j], shapes@, Some(Ok(()))))
                && vertex_verdict(vertices@[i], shapes@, Some(Err(e))),
        r is None ==> exists|i: int|
            0 <= i < vertices@.len() && (forall|j: int| 0 <= j < i ==> vertex_verdict(#[trigger] vertices@[j], shapes@, Some(Ok(()))))
                && vertex_verdict(vertices@[i], shapes@, None),
{
    let mut writes: Vec<KvWrite> = Vec::new();
    let mut i: usize = 0;
    while i < vertices.len()
        invariant
            i <= vertices@.len(),
            forall|q: int| 0 <= q < vertices@.len() ==> (#[trigger] vertices@[q]).schemas@.len() == vertices@[q].tags@.len(),
            forall|j: int| 0 <= j < i ==> vertex_verdict(#[trigger] vertices@[j], shapes@, Some(Ok(()))),
            writes_model(writes@) == insert_writes_spec(space@, vertices@, i as int),
        decreases vertices.len() - i,
    {
        let v = &vertices[i];
        let mut k: usize = 0;
        while k < v.tags.len()
            invariant
                i < vertices@.len(),
                *v == vertices@[i as int],
                v.schemas@.len() == v.tags@.len(),
                k <= v.tags@.len(),
                forall|l: int| 0 <= l < k ==> tag_ok(*v, l),
                forall|j: int| 0 <= j < i ==> vertex_verdict(#[trigger] vertices@[j], shapes@, Some(Ok(()))),
            decreases v.tags.len() - k,
        {
            match &v.schemas[k] {
                None => {
                    let e = make_error(ErrorKind::TagNotFound, v.tags[k].name.clone());
                    proof {
                        assert(!tag_ok(*v, k as int));
                        assert(!tags_ok(*v));
                        lemma_not_ok_verdict(*v, shapes@, Some(Ok(())));
                        assert(vertex_verdict(vertices@[i as int], shapes@, Some(Err(e))));
                    }
                    return Some(Err(e));
                },
                Some(f) => {
                    match validate_props(SchemaKind::Tag, v.tags[k].name.as_str(), f, &v.tags[k].properties) {
                        Err(e) => {
                            proof {
                                assert(!tag_ok(*v, k as int));
                                assert(!tags_ok(*v));
                                lemma_not_ok_verdict(*v, shapes@, Some(Ok(())));
                                assert(vertex_verdict(vertices@[i as int], shapes@, Some(Err(e))));
                            }
                            return Some(Err(e));
                        },
                        Ok(()) => {},
                    }
                },
            }
            k = k + 1;
        }
        assert(tags_ok(*v));
        match check_write_shapes(shapes, &v.tags, &v.ancestors) {
            None => {
                proof {
                    let c = choose|c: EvalContext| #[trigger] write_context(c, v.tags@);
                    assert(shapes_verdict(None, shapes_outcome(shapes@, v.tags@, v.ancestors@, c)));
                    assert(!shapes_verdict(Some(Ok(())), shapes_outcome(shapes@, v.tags@, v.ancestors@, c)));
                }
                return None;
            },
            Some(Err(e)) => {
                proof {
                    let c = choose|c: EvalContext| #[trigger] write_context(c, v.tags@);
                    assert(shapes_verdict(Some(Err(e)), shapes_outcome(shapes@, v.tags@, v.ancestors@, c)));
                    assert(!shapes_verdict(Some(Ok(())), shapes_outcome(shapes@, v.tags@, v.ancestors@, c)));
                }
                return Some(Err(e));
            },
            Some(Ok(())) => {},
        }
        let ghost before = writes_model(writes@);
        let key = vertex_key(space, v.vid);
        writes.push(KvWrite::Current { key: key.clone(), vertex: i });
        writes.push(KvWrite::History { key, vertex: i });
        let mut t: usize = 0;
        while t < v.tags.len()
            invariant
                i < vertices@.len(),
                *v == vertices@[i as int],
                t <= v.tags@.len(),
                writes_model(writes@) == before + seq![
                    WriteModel::Current(vertex_key_text(space@, v.vid), i as int),
                    WriteModel::History(vertex_key_text(space@, v.vid), i as int),
                ] + v.tags@.take(t as int).map_values(
                    |tg: TagRecord| WriteModel::Marker(tag_marker_key(space@, tg.name@, v.vid_text@)),
                ),
            decreases v.tags.len() - t,
        {
            let mut mk = String::from_str(space);
            mk.append(":tagvid:");
            mk.append(v.tags[t].name.as_str());
            mk.append(":");
            mk.append(v.vid_text.as_str());
            let ghost w0 = writes@;
            writes.push(KvWrite::Marker { key: mk });
            proof {
                assert(writes_model(writes@) =~= writes_model(w0).push(WriteModel::Marker(
                    tag_marker_key(space@, v.tags@[t as int].name@, v.vid_text@),
                )));
                assert(v.tags@.take(t + 1).map_values(
                    |tg: TagRecord| WriteModel::Marker(tag_marker_key(space@, tg.name@, v.vid_text@)),
                ) =~= v.tags@.take(t as int).map_values(
                    |tg: TagRecord| WriteModel::Marker(tag_marker_key(space@, tg.name@, v.vid_text@)),
                ).push(WriteModel::Marker(tag_marker_key(space@, v.tags@[t as int].name@, v.vid_text@))));
            }
            t = t + 1;
        }
        proof {
            assert(v.tags@.take(v.tags@.len() as int) =~= v.tags@);
            assert(writes_model(writes@) =~= insert_writes_spec(space@, vertices@, i + 1));
            let c = choose|c: EvalContext| #[trigger] write_context(c, v.tags@);
            assert(vertex_verdict(*v, shapes@, Some(Ok(()))));
        }
        i = i + 1;
    }
    Some(Ok(writes))
}

proof fn lemma_not_ok_verdict(v: VertexInsert, shapes: Seq<ShapeDef>, r: Option<Result<(), ExecutionError>>)
    requires
        !tags_ok(v),
        r == Some(Ok::<(), ExecutionError>(())),
    ensures
        !vertex_verdict(v, shapes, r),
{
    if vertex_verdict(v, shapes, r) {
        let k = choose|k: int|
            0 <= k < v.tags@.len() && !tag_ok(v, k) && (forall|l: int| 0 <= l < k ==> tag_ok(v, l)) && (
            r matches Some(res) && match v.schemas@[k] {
                None => fails_with(res, ErrorKind::TagNotFound, v.tags@[k].name@),
                Some(f) => props_verdict(res, SchemaKind::Tag, v.tags@[k].name@, f@, v.tags@[k].properties),
            });
        assert(false);
    }
}

/// The tags of the vertex after UPDATE on tag `tag_name`: the stored tags
/// updated (see [`updated_tags`]), or, when nothing is stored, just that
/// tag holding the new values.
pub open spec fn update_base_ok(stored: Option<Vec<TagRecord>>, tag_name: Seq<char>, updates: PropMap, r: Seq<TagRecord>) -> bool {
    match stored {
        Some(t) => updated_tags(t@, tag_name, updates, r),
        None => r.len() == 1 && r[0].name@ == tag_name && r[0].properties@ == insert_entries(
            Map::empty(),
            updates.spec_entries(),
        ),
    }
}

/// The new values fit the tag's schema.
pub open spec fn schema_fits(schema: Option<&Vec<SchemaField>>, updates: PropMap) -> bool {
    match schema {
        Some(f) => props_ok(f@, updates),
        None => false,
    }
}

/// When the tag exists but the new values do not fit its schema, `r` is
/// the error of checking them.
pub open spec fn schema_misfit(
    r: Option<Result<Option<(Vec<TagRecord>, Vec<KvWrite>)>, ExecutionError>>,
    schema: Option<&Vec<SchemaField>>,
    tag_name: Seq<char>,
    updates: PropMap,
) -> bool {
    match schema {
        Some(f) => !props_ok(f@, updates) ==> (r matches Some(Err(e)) && props_verdict(
            Err::<(), ExecutionError>(e),
            SchemaKind::Tag,
            tag_name,
            f@,
            updates,
        )),
        None => true,
    }
}

/// `r` reports the shape outcome `o` of the updated tags `t`: on success
/// the new tags and the current and history writes under `key`.
pub open spec fn update_shapes_verdict(
    r: Option<Result<Option<(Vec<TagRecord>, Vec<KvWrite>)>, ExecutionError>>,
    o: Option<Option<(Seq<char>, Seq<char>, Seq<char>)>>,
    t: Seq<TagRecord>,
    key: Seq<char>,
) -> bool {
    match o {
        None => r is None,
        Some(None) => r matches Some(Ok(Some((tags, w)))) && tags@ == t && writes_model(w@) == seq![
            WriteModel::Current(key, 0),
            WriteModel::History(key, 0),
        ],
        Some(Some((n, p, q))) => r matches Some(Err(e)) && e.spec_kind() == ErrorKind::InvalidOperation
            && e.spec_detail() == shape_error_detail(n, p, q),
    }
}

/// What UPDATE VERTEX on `vid` writes into `space`, setting `updates` on tag
/// `tag_name` (whose schema is `schema`, `None` when no such tag), given the
/// stored tags of the vertex (`None`: nothing stored) and the optional WHEN
/// condition. The new values must fit the tag's schema. With a condition,
/// a vertex that is not stored or fails it is left alone (`Ok(None)`).
/// Otherwise the tags are updated and checked against the shapes that target
/// the vertex's classes (its tags and their `ancestors`); when they pass,
/// the result holds the new tags and the writes: the current record and a
/// history version of it, both under `{space}:vertex:{vid}`. `None` where
/// the condition or a shape predicate would overflow 64-bit arithmetic.
pub fn update_writes(
    space: &str,
    vid: i64,
    tag_name: &str,
    updates: &PropMap,
    schema: Option<&Vec<SchemaField>>,
    stored: Option<Vec<TagRecord>>,
    cond: Option<&Expression>,
    shapes: &Vec<ShapeDef>,
    ancestors: &Vec<String>,
) -> (r: Option<Result<Option<(Vec<TagRecord>, Vec<KvWrite>)>, ExecutionError>>)
    ensures
        schema is None ==> (r matches Some(res) && fails_with(res, ErrorKind::TagNotFound, tag_name@)),
        schema_misfit(r, schema, tag_name@, *updates),
        r == Some(Ok::<Option<(Vec<TagRecord>, Vec<KvWrite>)>, ExecutionError>(None)) <==> (schema_fits(
            schema,
            *updates,
        ) && record_outcome(stored, cond_of(cond), Some(Ok(false)))),
        forall|k: ErrorKind|
            schema_fits(schema, *updates) && #[trigger] record_outcome(stored, cond_of(cond), Some(Err(k)))
                ==> (r matches Some(Err(e)) && e.spec_kind() == k),
        schema_fits(schema, *updates) && record_outcome(stored, cond_of(cond), None) ==> r is None,
        schema_fits(schema, *updates) && record_outcome(stored, cond_of(cond), Some(Ok(true))) ==> exists|t: Seq<
            TagRecord,
        >|
            update_base_ok(stored, tag_name@, *updates, t) && forall|ctx: EvalContext|
                #[trigger] write_context(ctx, t) ==> update_shapes_verdict(
                    r,
                    shapes_outcome(shapes@, t, ancestors@, ctx),
                    t,
                    vertex_key_text(space@, vid),
                ),
{
    let ghost sg = stored;
    let f = match schema {
        None => {
            return Some(Err(make_error(ErrorKind::TagNotFound, String::from_str(tag_name))));
        },
        Some(f) => f,
    };
    match validate_props(SchemaKind::Tag, tag_name, f, updates) {
        Err(e) => {
            proof {
                assert(!schema_fits(schema, *updates));
            }
            return Some(Err(e));
        },
        Ok(()) => {},
    }
    proof {
        lemma_record_outcome_unique(stored, cond_of(cond));
    }
    match condition_applies(stored.as_ref(), cond) {
        None => {
            proof {
                if let (Some(c), Some(tags)) = (cond, sg) {
                    let ctx = choose|ctx: EvalContext| #![trigger is_vertex_context(ctx, tags@)] is_vertex_context(ctx, tags@)
                        && condition_result(None, condition_outcome(*c, ctx_lookup(ctx)));
                    assert(record_outcome(Some(tags), Some(*c), None));
                }
            }
            return None;
        },
        Some(Err(e)) => {
            proof {
                if let (Some(c), Some(tags)) = (cond, sg) {
                    let ctx = choose|ctx: EvalContext| #![trigger is_vertex_context(ctx, tags@)] is_vertex_context(ctx, tags@)
                        && condition_result(Some(Err(e)), condition_outcome(*c, ctx_lookup(ctx)));
                    assert(record_outcome(Some(tags), Some(*c), Some(Err(e.spec_kind()))));
                    lemma_record_outcome_unique(Some(tags), Some(*c));
                }
            }
            return Some(Err(e));
        },
        Some(Ok(false)) => {
            proof {
                if let (Some(c), Some(tags)) = (cond, sg) {
                    let ctx = choose|ctx: EvalContext| #![trigger is_vertex_context(ctx, tags@)] is_vertex_context(ctx, tags@)
                        && condition_result(Some(Ok(false)), condition_outcome(*c, ctx_lookup(ctx)));
                    assert(record_outcome(Some(tags), Some(*c), Some(Ok(false))));
                    lemma_record_outcome_unique(Some(tags), Some(*c));
                }
            }
            return Some(Ok(None));
        },
        Some(Ok(true)) => {
            proof {
                if let (Some(c), Some(tags)) = (cond, sg) {
                    let ctx = choose|ctx: EvalContext| #![trigger is_vertex_context(ctx, tags@)] is_vertex_context(ctx, tags@)
                        && condition_result(Some(Ok(true)), condition_outcome(*c, ctx_lookup(ctx)));
                    assert(record_outcome(Some(tags), Some(*c), Some(Ok(true))));
                    lemma_record_outcome_unique(Some(tags), Some(*c));
                }
            }
        },
    }
    let ghost st = stored;
    let base = match stored {
        Some(t) => t,
        None => {
            let mut b: Vec<TagRecord> = Vec::new();
            b.push(TagRecord { name: String::from_str(tag_name), properties: PropMap::new() });
            b
        },
    };
    let ghost b0 = base@;
    let tags = apply_update(base, tag_name, updates);
    proof {
        if st is None {
            has_tag_at0(b0, tag_name@);
        }
    }
    proof {
        if sg is None {
            assert(b0[0].properties@ == Map::<Seq<char>, VModel>::empty());
        }
        assert(update_base_ok(sg, tag_name@, *updates, tags@));
    }
    match check_write_shapes(shapes, &tags, ancestors) {
        None => {
            proof {
                assert forall|ctx: EvalContext| #[trigger] write_context(ctx, tags@) implies update_shapes_verdict(
                    None,
                    shapes_outcome(shapes@, tags@, ancestors@, ctx),
                    tags@,
                    vertex_key_text(space@, vid),
                ) by {}
            }
            return None;
        },
        Some(Err(e)) => {
            proof {
                assert forall|ctx: EvalContext| #[trigger] write_context(ctx, tags@) implies update_shapes_verdict(
                    Some(Err(e)),
                    shapes_outcome(shapes@, tags@, ancestors@, ctx),
                    tags@,
                    vertex_key_text(space@, vid),
                ) by {}
            }
            return Some(Err(e));
        },
        Some(Ok(())) => {},
    }
    let key = vertex_key(space, vid);
    let mut writes: Vec<KvWrite> = Vec::new();
    writes.push(KvWrite::Current { key: key.clone(), vertex: 0 });
    writes.push(KvWrite::History { key, vertex: 0 });
    proof {
        assert(writes_model(writes@) =~= seq![
            WriteModel::Current(vertex_key_text(space@, vid), 0),
            WriteModel::History(vertex_key_text(space@, vid), 0),
        ]);
    }
    let ghost tv = tags@;
    let r = Some(Ok(Some((tags, writes))));
    proof {
        assert forall|ctx: EvalContext| #[trigger] write_context(ctx, tv) implies update_shapes_verdict(
            r,
            shapes_outcome(shapes@, tv, ancestors@, ctx),
            tv,
            vertex_key_text(space@, vid),
        ) by {}
    }
    r
}

proof fn has_tag_at0(b: Seq<TagRecord>, name: Seq<char>)
    requires
        b.len() == 1,
        b[0].name@ == name,
    ensures
        crate::dml::has_tag(b, name),
{
    assert(b[0].name@ == name);
}

} // verus!
