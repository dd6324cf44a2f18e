//! Stored vertices and edges as the executor reads them, and the flat
//! property maps built from them for expression evaluation.
use vstd::prelude::*;
use crate::value::{PropMap, Value, VModel, value_model};

verus! {

/// A stored edge: its endpoints, type, rank and properties.
pub struct EdgeRecord {
    pub src_vid: i64,
    pub dst_vid: i64,
    pub edge_type: String,
    pub ranking: i64,
    pub properties: PropMap,
}

/// One tag of a stored vertex with its properties.
pub struct TagRecord {
    pub name: String,
    pub properties: PropMap,
}

/// A stored vertex: its id and its tags, in storage order.
pub struct VertexRecord {
    pub vid: i64,
    pub tags: Vec<TagRecord>,
}

/// For each stored pair of `props`: the key qualified by `q` (`q.key`), the
/// bare key, and the value's model.
pub open spec fn qualified_pairs(q: Seq<char>, props: Seq<(String, Value)>) -> Seq<
    (Seq<char>, Seq<char>, VModel),
> {
    props.map_values(|e: (String, Value)| (q + "."@ + e.0@, e.0@, value_model(e.1)))
}

/// The qualified pairs of every tag, tag after tag.
pub open spec fn tags_pairs(tags: Seq<TagRecord>) -> Seq<(Seq<char>, Seq<char>, VModel)>
    decreases tags.len(),
{
    if tags.len() == 0 {
        Seq::empty()
    } else {
        tags_pairs(tags.drop_last()) + qualified_pairs(
            tags.last().name@,
            tags.last().properties.spec_entries(),
        )
    }
}

/// Stores one pair: the qualified key always; the bare key when
/// `bare_overrides` or when it is not yet present.
pub open spec fn flat_step(
    m: Map<Seq<char>, VModel>,
    p: (Seq<char>, Seq<char>, VModel),
    bare_overrides: bool,
) -> Map<Seq<char>, VModel> {
    let m1 = m.insert(p.0, p.2);
    if bare_overrides || !m1.contains_key(p.1) {
        m1.insert(p.1, p.2)
    } else {
        m1
    }
}

/// Stores the pairs in order, starting from `m`.
pub open spec fn flat_fold(
    m: Map<Seq<char>, VModel>,
    ps: Seq<(Seq<char>, Seq<char>, VModel)>,
    bare_overrides: bool,
) -> Map<Seq<char>, VModel>
    decreases ps.len(),
{
    if ps.len() == 0 {
        m
    } else {
        flat_step(flat_fold(m, ps.drop_last(), bare_overrides), ps.last(), bare_overrides)
    }
}

/// Storing `a` then `b` is storing `a + b`.
pub proof fn lemma_flat_fold_concat(
    m: Map<Seq<char>, VModel>,
    a: Seq<(Seq<char>, Seq<char>, VModel)>,
    b: Seq<(Seq<char>, Seq<char>, VModel)>,
    bare_overrides: bool,
)
    ensures
        flat_fold(m, a + b, bare_overrides) == flat_fold(
            flat_fold(m, a, bare_overrides),
            b,
            bare_overrides,
        ),
    decreases b.len(),
{
    if b.len() == 0 {
        assert(a + b =~= a);
    } else {
        assert((a + b).drop_last() =~= a + b.drop_last());
        assert((a + b).last() == b.last());
        lemma_flat_fold_concat(m, a, b.drop_last(), bare_overrides);
    }
}

/// Adds the properties of `props` to `out`, keyed both as `q.key` and as the
/// bare key (see [`flat_step`]).
fn add_qualified(out: &mut PropMap, q: &str, props: &PropMap, bare_overrides: bool)
    ensures
        final(out)@ == flat_fold(old(out)@, qualified_pairs(q@, props.spec_entries()), bare_overrides),
{
    let ghost ps = qualified_pairs(q@, props.spec_entries());
    let n = props.entry_count();
    let mut i: usize = 0;
    while i < n
        invariant
            i <= n,
            n == props.spec_entries().len(),
            ps == qualified_pairs(q@, props.spec_entries()),
            out@ == flat_fold(old(out)@, ps.take(i as int), bare_overrides),
        decreases n - i,
    {
        let (k, v) = props.entry_at(i);
        let mut key = String::from_str(q);
        key.append(".");
        key.append(k.as_str());
        out.insert(key, v.duplicate());
        if bare_overrides || !out.contains_key(k.as_str()) {
            out.insert(k.clone(), v.duplicate());
        }
        proof {
            assert(ps.take(i + 1).drop_last() =~= ps.take(i as int));
            assert(ps.take(i + 1).last() == ps[i as int]);
        }
        i = i + 1;
    }
    assert(ps.take(n as int) =~= ps);
}

/// The flat property map of a vertex's tags: each property as `tag.prop`
/// and as bare `prop`; with `bare_overrides` a later tag's value replaces an
/// earlier one under the bare key, otherwise the first one stays.
fn flatten_tags(tags: &Vec<TagRecord>, bare_overrides: bool) -> (r: PropMap)
    ensures
        r@ == flat_fold(Map::empty(), tags_pairs(tags@), bare_overrides),
{
    let mut out = PropMap::new();
    let mut t: usize = 0;
    while t < tags.len()
        invariant
            t <= tags.len(),
            out@ == flat_fold(Map::empty(), tags_pairs(tags@.take(t as int)), bare_overrides),
        decreases tags.len() - t,
    {
        let ghost before = out@;
        add_qualified(&mut out, tags[t].name.as_str(), &tags[t].properties, bare_overrides);
        proof {
            let pre = tags@.take(t as int);
            let next = tags@.take(t + 1);
            assert(next.drop_last() =~= pre);
            assert(next.last() == tags@[t as int]);
            lemma_flat_fold_concat(
                Map::empty(),
                tags_pairs(pre),
                qualified_pairs(tags@[t as int].name@, tags@[t as int].properties.spec_entries()),
                bare_overrides,
            );
        }
        t = t + 1;
    }
    assert(tags@.take(tags.len() as int) =~= tags@);
    out
}

/// The model of a flat property map built from the tags of a vertex, first
/// tag winning for bare keys.
pub open spec fn vertex_flat_view(tags: Seq<TagRecord>) -> Map<Seq<char>, VModel> {
    flat_fold(Map::empty(), tags_pairs(tags), false)
}

/// The model of an edge's flat property map (`type.prop` and `prop`).
pub open spec fn edge_flat_view(e: EdgeRecord) -> Map<Seq<char>, VModel> {
    flat_fold(Map::empty(), qualified_pairs(e.edge_type@, e.properties.spec_entries()), false)
}

/// A vertex's properties keyed as `tag.prop` and as bare `prop`, the first
/// tag that has a property keeping the bare key.
pub fn vertex_props_flat(tags: &Vec<TagRecord>) -> (r: PropMap)
    ensures
        r@ == vertex_flat_view(tags@),
{
    flatten_tags(tags, false)
}

/// A vertex's properties keyed as `tag.prop` and as bare `prop`, the last
/// tag that has a property taking the bare key.
pub fn flatten_vertex_props(tags: &Vec<TagRecord>) -> (r: PropMap)
    ensures
        r@ == flat_fold(Map::empty(), tags_pairs(tags@), true),
{
    flatten_tags(tags, true)
}

/// An edge's properties keyed as `type.prop` and as bare `prop`.
pub fn edge_props_flat(edge: &EdgeRecord) -> (r: PropMap)
    ensures
        r@ == edge_flat_view(*edge),
{
    let mut out = PropMap::new();
    add_qualified(&mut out, edge.edge_type.as_str(), &edge.properties, false);
    out
}

} // verus!
