//! Moving the edges of a merged-away vertex onto its representative.
//!
//! When `loser` is merged into `winner`, each of loser's outgoing edges is
//! rewritten with `winner` as its source (a self-loop on loser becomes one on
//! winner), and then each of its incoming edges from another vertex is
//! rewritten with `winner` as its destination. An edge is stored under its
//! key (source, type, destination, rank), so a rewritten edge replaces one
//! already stored under the same key.
use vstd::prelude::*;
use vstd::pervasive::VecAdditionalExecFns;
use crate::records::EdgeRecord;
use crate::value::VModel;

verus! {

/// The key an edge is stored under: source, type, destination, rank.
pub open spec fn edge_key(e: EdgeRecord) -> (i64, Seq<char>, i64, i64) {
    (e.src_vid, e.edge_type@, e.dst_vid, e.ranking)
}

/// The stored edges, by key; a later edge replaces an earlier one with the
/// same key.
pub open spec fn edge_store(es: Seq<EdgeRecord>) -> Map<(i64, Seq<char>, i64, i64), Map<Seq<char>, VModel>>
    decreases es.len(),
{
    if es.len() == 0 {
        Map::empty()
    } else {
        edge_store(es.drop_last()).insert(edge_key(es.last()), es.last().properties@)
    }
}

/// A vertex id once `loser` has been merged into `winner`.
pub open spec fn merged_vid(v: i64, winner: i64, loser: i64) -> i64 {
    if v == loser {
        winner
    } else {
        v
    }
}

/// An edge key once `loser` has been merged into `winner`.
pub open spec fn moved_key(k: (i64, Seq<char>, i64, i64), winner: i64, loser: i64) -> (
    i64,
    Seq<char>,
    i64,
    i64,
) {
    (merged_vid(k.0, winner, loser), k.1, merged_vid(k.2, winner, loser), k.3)
}

/// The edge key has `v` at one of its ends.
pub open spec fn touches(k: (i64, Seq<char>, i64, i64), v: i64) -> bool {
    k.0 == v || k.2 == v
}

/// The edges that do not touch `loser`, by key.
pub open spec fn untouched_store(es: Seq<EdgeRecord>, loser: i64) -> Map<
    (i64, Seq<char>, i64, i64),
    Map<Seq<char>, VModel>,
>
    decreases es.len(),
{
    if es.len() == 0 {
        Map::empty()
    } else if touches(edge_key(es.last()), loser) {
        untouched_store(es.drop_last(), loser)
    } else {
        untouched_store(es.drop_last(), loser).insert(edge_key(es.last()), es.last().properties@)
    }
}

/// The edge is rewritten by the pass over loser's incoming edges
/// (`incoming`) or by the pass over its outgoing edges.
pub open spec fn moved_in_pass(e: EdgeRecord, loser: i64, incoming: bool) -> bool {
    if incoming {
        e.dst_vid == loser && e.src_vid != loser
    } else {
        e.src_vid == loser
    }
}

/// `m` after the rewrites of one pass over `es`, in order.
pub open spec fn move_pass(
    m: Map<(i64, Seq<char>, i64, i64), Map<Seq<char>, VModel>>,
    es: Seq<EdgeRecord>,
    winner: i64,
    loser: i64,
    incoming: bool,
) -> Map<(i64, Seq<char>, i64, i64), Map<Seq<char>, VModel>>
    decreases es.len(),
{
    if es.len() == 0 {
        m
    } else {
        let m1 = move_pass(m, es.drop_last(), winner, loser, incoming);
        if moved_in_pass(es.last(), loser, incoming) {
            m1.insert(moved_key(edge_key(es.last()), winner, loser), es.last().properties@)
        } else {
            m1
        }
    }
}

/// The stored edges after `loser` was merged into `winner`: the edges that
/// do not touch loser, then loser's outgoing edges rewritten, then its
/// incoming edges from other vertices rewritten.
pub open spec fn collapsed_store(es: Seq<EdgeRecord>, winner: i64, loser: i64) -> Map<
    (i64, Seq<char>, i64, i64),
    Map<Seq<char>, VModel>,
> {
    move_pass(
        move_pass(untouched_store(es, loser), es, winner, loser, false),
        es,
        winner,
        loser,
        true,
    )
}

/// No two edges share a key.
pub open spec fn distinct_keys(es: Seq<EdgeRecord>) -> bool {
    forall|i: int, j: int| 0 <= i < j < es.len() ==> edge_key(es[i]) != edge_key(es[j])
}

/// A copy of `e` with `loser` replaced by `winner` at both ends.
fn moved_edge(e: &EdgeRecord, winner: i64, loser: i64) -> (r: EdgeRecord)
    ensures
        edge_key(r) == moved_key(edge_key(*e), winner, loser),
        r.properties@ == e.properties@,
{
    EdgeRecord {
        src_vid: if e.src_vid == loser {
            winner
        } else {
            e.src_vid
        },
        dst_vid: if e.dst_vid == loser {
            winner
        } else {
            e.dst_vid
        },
        edge_type: e.edge_type.clone(),
        ranking: e.ranking,
        properties: e.properties.duplicate(),
    }
}

proof fn lemma_store_update(s: Seq<EdgeRecord>, i: int, e: EdgeRecord)
    requires
        distinct_keys(s),
        0 <= i < s.len(),
        edge_key(s[i]) == edge_key(e),
    ensures
        edge_store(s.update(i, e)) == edge_store(s).insert(edge_key(e), e.properties@),
    decreases s.len(),
{
    let t = s.update(i, e);
    if i == s.len() - 1 {
        assert(t.drop_last() =~= s.drop_last());
    } else {
        assert(t.drop_last() =~= s.drop_last().update(i, e));
        lemma_store_update(s.drop_last(), i, e);
        assert(edge_key(s.last()) != edge_key(s[i]));
    }
    assert(edge_store(t) =~= edge_store(s).insert(edge_key(e), e.properties@));
}

/// Stores `e` under its key in `out`, replacing the edge stored there.
fn put_edge(out: &mut Vec<EdgeRecord>, e: EdgeRecord)
    requires
        distinct_keys(old(out)@),
    ensures
        distinct_keys(final(out)@),
        edge_store(final(out)@) == edge_store(old(out)@).insert(edge_key(e), e.properties@),
{
    let mut i: usize = 0;
    while i < out.len()
        invariant
            i <= out@.len(),
            out@ == old(out)@,
            distinct_keys(old(out)@),
            forall|j: int| 0 <= j < i ==> edge_key(#[trigger] out@[j]) != edge_key(e),
        decreases out@.len() - i,
    {
        let same = out[i].src_vid == e.src_vid && out[i].dst_vid == e.dst_vid && out[i].ranking
            == e.ranking && out[i].edge_type == e.edge_type;
        if same {
            let ghost s = out@;
            proof {
                lemma_store_update(s, i as int, e);
            }
            out.set(i, e);
            proof {
                assert(out@ =~= s.update(i as int, e));
                assert forall|a: int, b: int| 0 <= a < b < out@.len() implies edge_key(out@[a])
                    != edge_key(out@[b]) by {
                    if a != i && b != i {
                        assert(out@[a] == s[a] && out@[b] == s[b]);
                    } else if a == i {
                        assert(out@[b] == s[b]);
                    } else {
                        assert(out@[a] == s[a]);
                    }
                }
            }
            return;
        }
        i = i + 1;
    }
    let ghost s = out@;
    out.push(e);
    proof {
        assert(out@.drop_last() =~= s);
        assert forall|a: int, b: int| 0 <= a < b < out@.len() implies edge_key(out@[a]) != edge_key(
            out@[b],
        ) by {
            assert(out@[a] == s[a]);
            if b < s.len() {
                assert(out@[b] == s[b]);
            }
        }
    }
}

/// The stored edges after `loser` was merged into `winner`, from the stored
/// edges `edges` in store order: the edges that do not touch loser are kept,
/// loser's outgoing edges are rewritten onto winner, then its incoming edges
/// from other vertices. Every key occurs once in the result.
pub fn collapse_edges(edges: &Vec<EdgeRecord>, winner: i64, loser: i64) -> (r: Vec<EdgeRecord>)
    ensures
        distinct_keys(r@),
        edge_store(r@) == collapsed_store(edges@, winner, loser),
{
    let mut out: Vec<EdgeRecord> = Vec::new();
    let mut i: usize = 0;
    while i < edges.len()
        invariant
            i <= edges@.len(),
            distinct_keys(out@),
            edge_store(out@) == untouched_store(edges@.take(i as int), loser),
        decreases edges@.len() - i,
    {
        assert(edges@.take(i + 1).drop_last() =~= edges@.take(i as int));
        let e = &edges[i];
        if e.src_vid != loser && e.dst_vid != loser {
            put_edge(&mut out, moved_edge(e, winner, loser));
        }
        i = i + 1;
    }
    assert(edges@.take(edges@.len() as int) =~= edges@);
    let ghost kept = edge_store(out@);
    let mut i: usize = 0;
    while i < edges.len()
        invariant
            i <= edges@.len(),
            distinct_keys(out@),
            edge_store(out@) == move_pass(kept, edges@.take(i as int), winner, loser, false),
        decreases edges@.len() - i,
    {
        assert(edges@.take(i + 1).drop_last() =~= edges@.take(i as int));
        let e = &edges[i];
        if e.src_vid == loser {
            put_edge(&mut out, moved_edge(e, winner, loser));
        }
        i = i + 1;
    }
    let ghost outs = edge_store(out@);
    let mut i: usize = 0;
    while i < edges.len()
        invariant
            i <= edges@.len(),
            distinct_keys(out@),
            edge_store(out@) == move_pass(outs, edges@.take(i as int), winner, loser, true),
        decreases edges@.len() - i,
    {
        assert(edges@.take(i + 1).drop_last() =~= edges@.take(i as int));
        let e = &edges[i];
        if e.dst_vid == loser && e.src_vid != loser {
            put_edge(&mut out, moved_edge(e, winner, loser));
        }
        i = i + 1;
    }
    out
}

/// The `i`-th edge of `es` is rewritten by the pass onto the key `k`.
pub open spec fn moved_to(es: Seq<EdgeRecord>, i: int, winner: i64, loser: i64, incoming: bool, k: (
    i64,
    Seq<char>,
    i64,
    i64,
)) -> bool {
    &&& 0 <= i < es.len()
    &&& moved_in_pass(es[i], loser, incoming)
    &&& moved_key(edge_key(es[i]), winner, loser) == k
}

/// The `i`-th edge of `es` is stored under `k`.
pub open spec fn stored_at(es: Seq<EdgeRecord>, i: int, k: (i64, Seq<char>, i64, i64)) -> bool {
    0 <= i < es.len() && edge_key(es[i]) == k
}

proof fn lemma_store_keys(es: Seq<EdgeRecord>)
    ensures
        forall|k: (i64, Seq<char>, i64, i64)|
            #[trigger] edge_store(es).contains_key(k) <==> exists|i: int| #[trigger] stored_at(es, i, k),
    decreases es.len(),
{
    if es.len() > 0 {
        let t = es.drop_last();
        lemma_store_keys(t);
        assert forall|k: (i64, Seq<char>, i64, i64)|
            #[trigger] edge_store(es).contains_key(k) <==> exists|i: int| #[trigger] stored_at(es, i, k) by {
            if edge_store(es).contains_key(k) {
                if k == edge_key(es.last()) {
                    assert(stored_at(es, es.len() - 1, k));
                } else {
                    assert(edge_store(t).contains_key(k));
                    let i = choose|i: int| #[trigger] stored_at(t, i, k);
                    assert(t[i] == es[i]);
                    assert(stored_at(es, i, k));
                }
            }
            if exists|i: int| #[trigger] stored_at(es, i, k) {
                let i = choose|i: int| #[trigger] stored_at(es, i, k);
                if i < es.len() - 1 {
                    assert(t[i] == es[i]);
                    assert(stored_at(t, i, k));
                    assert(edge_store(t).contains_key(k));
                }
            }
        }
    }
}

proof fn lemma_store_value(es: Seq<EdgeRecord>, i: int)
    requires
        distinct_keys(es),
        0 <= i < es.len(),
    ensures
        edge_store(es).contains_key(edge_key(es[i])),
        edge_store(es)[edge_key(es[i])] == es[i].properties@,
    decreases es.len(),
{
    if i < es.len() - 1 {
        let t = es.drop_last();
        lemma_store_value(t, i);
        assert(t[i] == es[i]);
        assert(edge_key(es.last()) != edge_key(es[i]));
    }
}

proof fn lemma_untouched(es: Seq<EdgeRecord>, loser: i64)
    ensures
        forall|k: (i64, Seq<char>, i64, i64)|
            #[trigger] untouched_store(es, loser).contains_key(k) == (edge_store(es).contains_key(k)
                && !touches(k, loser)),
        forall|k: (i64, Seq<char>, i64, i64)|
            #[trigger] untouched_store(es, loser).contains_key(k) ==> untouched_store(es, loser)[k]
                == edge_store(es)[k],
    decreases es.len(),
{
    if es.len() > 0 {
        let t = es.drop_last();
        lemma_untouched(t, loser);
        let e = es.last();
        assert forall|k: (i64, Seq<char>, i64, i64)|
            #[trigger] untouched_store(es, loser).contains_key(k) == (edge_store(es).contains_key(k)
                && !touches(k, loser)) && (untouched_store(es, loser).contains_key(k)
                ==> untouched_store(es, loser)[k] == edge_store(es)[k]) by {
            if k == edge_key(e) {
                if touches(k, loser) {
                    assert(!untouched_store(t, loser).contains_key(k));
                }
            } else {
                assert(edge_store(es).contains_key(k) == edge_store(t).contains_key(k));
                assert(untouched_store(es, loser).contains_key(k) == untouched_store(t, loser).contains_key(k));
                if untouched_store(t, loser).contains_key(k) {
                    assert(untouched_store(es, loser)[k] == untouched_store(t, loser)[k]);
                    assert(edge_store(es)[k] == edge_store(t)[k]);
                }
            }
        }
    }
}

proof fn lemma_pass(
    m: Map<(i64, Seq<char>, i64, i64), Map<Seq<char>, VModel>>,
    es: Seq<EdgeRecord>,
    winner: i64,
    loser: i64,
    incoming: bool,
)
    ensures
        forall|k: (i64, Seq<char>, i64, i64)|
            #[trigger] move_pass(m, es, winner, loser, incoming).contains_key(k) <==> (m.contains_key(k)
                || exists|i: int| #[trigger] moved_to(es, i, winner, loser, incoming, k)),
        forall|k: (i64, Seq<char>, i64, i64)|
            !(exists|i: int| #[trigger] moved_to(es, i, winner, loser, incoming, k)) ==> #[trigger] move_pass(
                m,
                es,
                winner,
                loser,
                incoming,
            )[k] == m[k],
        forall|k: (i64, Seq<char>, i64, i64), i0: int|
            #[trigger] moved_to(es, i0, winner, loser, incoming, k) ==> exists|i: int|
                #[trigger] moved_to(es, i, winner, loser, incoming, k) && move_pass(
                    m,
                    es,
                    winner,
                    loser,
                    incoming,
                )[k] == es[i].properties@,
    decreases es.len(),
{
    if es.len() > 0 {
        let t = es.drop_last();
        let n = es.len() - 1;
        lemma_pass(m, t, winner, loser, incoming);
        let r = move_pass(m, es, winner, loser, incoming);
        let r1 = move_pass(m, t, winner, loser, incoming);
        assert forall|k: (i64, Seq<char>, i64, i64)|
            #[trigger] r.contains_key(k) <==> (m.contains_key(k) || exists|i: int|
                #[trigger] moved_to(es, i, winner, loser, incoming, k)) by {
            if exists|i: int| #[trigger] moved_to(es, i, winner, loser, incoming, k) {
                let i = choose|i: int| #[trigger] moved_to(es, i, winner, loser, incoming, k);
                if i < n {
                    assert(moved_to(t, i, winner, loser, incoming, k));
                }
            }
            if r1.contains_key(k) && !m.contains_key(k) {
                let i = choose|i: int| #[trigger] moved_to(t, i, winner, loser, incoming, k);
                assert(moved_to(es, i, winner, loser, incoming, k));
            }
            if r.contains_key(k) && !r1.contains_key(k) {
                assert(moved_to(es, n, winner, loser, incoming, k));
            }
        }
        assert forall|k: (i64, Seq<char>, i64, i64)|
            !(exists|i: int| #[trigger] moved_to(es, i, winner, loser, incoming, k)) implies #[trigger] r[k]
            == m[k] by {
            if exists|i: int| #[trigger] moved_to(t, i, winner, loser, incoming, k) {
                let i = choose|i: int| #[trigger] moved_to(t, i, winner, loser, incoming, k);
                assert(moved_to(es, i, winner, loser, incoming, k));
            }
            if moved_in_pass(es.last(), loser, incoming) && moved_key(edge_key(es.last()), winner, loser)
                == k {
                assert(moved_to(es, n, winner, loser, incoming, k));
            }
        }
        assert forall|k: (i64, Seq<char>, i64, i64), i0: int|
            #[trigger] moved_to(es, i0, winner, loser, incoming, k) implies exists|i: int|
            #[trigger] moved_to(es, i, winner, loser, incoming, k) && r[k] == es[i].properties@ by {
            if moved_to(es, n, winner, loser, incoming, k) {
                assert(r[k] == es[n].properties@);
            } else {
                let i = i0;
                assert(moved_to(t, i, winner, loser, incoming, k));
                let j = choose|j: int|
                    #[trigger] moved_to(t, j, winner, loser, incoming, k) && r1[k] == t[j].properties@;
                assert(moved_to(es, j, winner, loser, incoming, k));
                assert(r[k] == r1[k]);
            }
        }
    }
}

/// Law: once `loser` is merged into another vertex, no stored edge has
/// `loser` at either end.
pub proof fn lemma_collapse_leaves_loser_without_edges(es: Seq<EdgeRecord>, winner: i64, loser: i64)
    requires
        winner != loser,
    ensures
        forall|k: (i64, Seq<char>, i64, i64)|
            #[trigger] collapsed_store(es, winner, loser).contains_key(k) ==> !touches(k, loser),
{
    let u = untouched_store(es, loser);
    let p1 = move_pass(u, es, winner, loser, false);
    lemma_untouched(es, loser);
    lemma_pass(u, es, winner, loser, false);
    lemma_pass(p1, es, winner, loser, true);
    assert forall|k: (i64, Seq<char>, i64, i64)|
        #[trigger] collapsed_store(es, winner, loser).contains_key(k) implies !touches(k, loser) by {
        if exists|i: int| #[trigger] moved_to(es, i, winner, loser, true, k) {
        } else if exists|i: int| #[trigger] moved_to(es, i, winner, loser, false, k) {
        } else {
            assert(u.contains_key(k));
        }
    }
}

/// Law: the keys stored after the merge are exactly the keys stored before
/// it, each with `loser` replaced by `winner`.
pub proof fn lemma_collapse_keys(es: Seq<EdgeRecord>, winner: i64, loser: i64)
    ensures
        forall|k: (i64, Seq<char>, i64, i64)|
            #[trigger] collapsed_store(es, winner, loser).contains_key(k) <==> exists|k0: (
                i64,
                Seq<char>,
                i64,
                i64,
            )| #![trigger moved_key(k0, winner, loser)] edge_store(es).contains_key(k0) && moved_key(
                k0,
                winner,
                loser,
            ) == k,
{
    let u = untouched_store(es, loser);
    let p1 = move_pass(u, es, winner, loser, false);
    lemma_store_keys(es);
    lemma_untouched(es, loser);
    lemma_pass(u, es, winner, loser, false);
    lemma_pass(p1, es, winner, loser, true);
    assert forall|k: (i64, Seq<char>, i64, i64)|
        #[trigger] collapsed_store(es, winner, loser).contains_key(k) <==> exists|k0: (
            i64,
            Seq<char>,
            i64,
            i64,
        )| #![trigger moved_key(k0, winner, loser)] edge_store(es).contains_key(k0) && moved_key(
            k0,
            winner,
            loser,
        ) == k by {
        if collapsed_store(es, winner, loser).contains_key(k) {
            if exists|i: int| #[trigger] moved_to(es, i, winner, loser, true, k) {
                let i = choose|i: int| #[trigger] moved_to(es, i, winner, loser, true, k);
                assert(stored_at(es, i, edge_key(es[i])));
                assert(edge_store(es).contains_key(edge_key(es[i])));
                assert(moved_key(edge_key(es[i]), winner, loser) == k);
            } else if exists|i: int| #[trigger] moved_to(es, i, winner, loser, false, k) {
                let i = choose|i: int| #[trigger] moved_to(es, i, winner, loser, false, k);
                assert(stored_at(es, i, edge_key(es[i])));
                assert(edge_store(es).contains_key(edge_key(es[i])));
                assert(moved_key(edge_key(es[i]), winner, loser) == k);
            } else {
                assert(u.contains_key(k));
                assert(moved_key(k, winner, loser) == k);
            }
        }
        if exists|k0: (i64, Seq<char>, i64, i64)|
            #![trigger moved_key(k0, winner, loser)]
            edge_store(es).contains_key(k0) && moved_key(k0, winner, loser) == k {
            let k0 = choose|k0: (i64, Seq<char>, i64, i64)|
                #![trigger moved_key(k0, winner, loser)]
                edge_store(es).contains_key(k0) && moved_key(k0, winner, loser) == k;
            let i = choose|i: int| #[trigger] stored_at(es, i, k0);
            if !touches(k0, loser) {
                assert(u.contains_key(k0));
                assert(p1.contains_key(k));
            } else if es[i].src_vid == loser {
                assert(moved_to(es, i, winner, loser, false, k));
                assert(p1.contains_key(k));
            } else {
                assert(moved_to(es, i, winner, loser, true, k));
            }
        }
    }
}

/// Law: an edge that neither touches `loser` nor is replaced by one of
/// loser's moved edges keeps its properties.
pub proof fn lemma_collapse_keeps_other_edges(es: Seq<EdgeRecord>, winner: i64, loser: i64)
    ensures
        forall|k: (i64, Seq<char>, i64, i64)|
            #[trigger] edge_store(es).contains_key(k) && !touches(k, loser) && (forall|k0: (
                i64,
                Seq<char>,
                i64,
                i64,
            )|
                #![trigger moved_key(k0, winner, loser)]
                edge_store(es).contains_key(k0) && touches(k0, loser) ==> moved_key(k0, winner, loser)
                    != k) ==> collapsed_store(es, winner, loser).contains_key(k) && collapsed_store(
                es,
                winner,
                loser,
            )[k] == edge_store(es)[k],
{
    let u = untouched_store(es, loser);
    let p1 = move_pass(u, es, winner, loser, false);
    lemma_store_keys(es);
    lemma_untouched(es, loser);
    lemma_pass(u, es, winner, loser, false);
    lemma_pass(p1, es, winner, loser, true);
    assert forall|k: (i64, Seq<char>, i64, i64)|
        #[trigger] edge_store(es).contains_key(k) && !touches(k, loser) && (forall|k0: (
            i64,
            Seq<char>,
            i64,
            i64,
        )|
            #![trigger moved_key(k0, winner, loser)]
            edge_store(es).contains_key(k0) && touches(k0, loser) ==> moved_key(k0, winner, loser)
                != k) implies collapsed_store(es, winner, loser).contains_key(k) && collapsed_store(
        es,
        winner,
        loser,
    )[k] == edge_store(es)[k] by {
        assert forall|i: int| !#[trigger] moved_to(es, i, winner, loser, true, k) by {
            if moved_to(es, i, winner, loser, true, k) {
                assert(stored_at(es, i, edge_key(es[i])));
                assert(edge_store(es).contains_key(edge_key(es[i])));
                assert(moved_key(edge_key(es[i]), winner, loser) != k);
            }
        }
        assert forall|i: int| !#[trigger] moved_to(es, i, winner, loser, false, k) by {
            if moved_to(es, i, winner, loser, false, k) {
                assert(stored_at(es, i, edge_key(es[i])));
                assert(edge_store(es).contains_key(edge_key(es[i])));
                assert(moved_key(edge_key(es[i]), winner, loser) != k);
            }
        }
        assert(u.contains_key(k));
    }
}

/// Law: every edge stored after the merge carries the properties of an edge
/// stored before it under a key that the merge turns into its own.
pub proof fn lemma_collapse_moves_stored_properties(es: Seq<EdgeRecord>, winner: i64, loser: i64)
    requires
        distinct_keys(es),
    ensures
        forall|k: (i64, Seq<char>, i64, i64)|
            #[trigger] collapsed_store(es, winner, loser).contains_key(k) ==> exists|k0: (
                i64,
                Seq<char>,
                i64,
                i64,
            )| #![trigger moved_key(k0, winner, loser)] edge_store(es).contains_key(k0) && moved_key(
                k0,
                winner,
                loser,
            ) == k && collapsed_store(es, winner, loser)[k] == edge_store(es)[k0],
{
    let u = untouched_store(es, loser);
    let p1 = move_pass(u, es, winner, loser, false);
    let c = collapsed_store(es, winner, loser);
    lemma_untouched(es, loser);
    lemma_pass(u, es, winner, loser, false);
    lemma_pass(p1, es, winner, loser, true);
    assert forall|k: (i64, Seq<char>, i64, i64)| #[trigger] c.contains_key(k) implies exists|k0: (
        i64,
        Seq<char>,
        i64,
        i64,
    )| #![trigger moved_key(k0, winner, loser)] edge_store(es).contains_key(k0) && moved_key(
        k0,
        winner,
        loser,
    ) == k && c[k] == edge_store(es)[k0] by {
        if exists|i: int| #[trigger] moved_to(es, i, winner, loser, true, k) {
            let i0 = choose|i: int| #[trigger] moved_to(es, i, winner, loser, true, k);
            let i = choose|i: int| #[trigger] moved_to(es, i, winner, loser, true, k) && c[k] == es[i].properties@;
            lemma_store_value(es, i);
            assert(moved_key(edge_key(es[i]), winner, loser) == k);
        } else if exists|i: int| #[trigger] moved_to(es, i, winner, loser, false, k) {
            let i0 = choose|i: int| #[trigger] moved_to(es, i, winner, loser, false, k);
            let i = choose|i: int| #[trigger] moved_to(es, i, winner, loser, false, k) && p1[k] == es[i].properties@;
            lemma_store_value(es, i);
            assert(c[k] == p1[k]);
            assert(moved_key(edge_key(es[i]), winner, loser) == k);
        } else {
            assert(u.contains_key(k));
            assert(moved_key(k, winner, loser) == k);
        }
    }
}

} // verus!
