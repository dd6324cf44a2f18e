//! Node equivalence (`sameAs`) by canonical merge: every equivalence class is
//! represented by its smallest vertex id, and a merge repoints the larger
//! representative and all of its members at the smaller one.
use vstd::prelude::*;
use std::collections::HashMap;
use vstd::string::StringExecFns;
use vstd::pervasive::VecAdditionalExecFns;
use crate::records::TagRecord;
use crate::value::{PropMap, Value, VModel, value_model};
use crate::text::str_is;

verus! {

broadcast use vstd::std_specs::hash::group_hash_axioms;

/// The reserved edge type that asserts node equivalence.
pub open spec fn sameas_edge() -> Seq<char> {
    "sameAs"@
}

/// The representative map of a space: each merged-away vertex points at its
/// class representative, and each representative lists its members.
#[derive(Debug)]
pub struct SameAsIndex {
    repr: HashMap<i64, i64>,
    members: HashMap<i64, Vec<i64>>,
}

impl SameAsIndex {
    /// The representative of `v`: itself unless it was merged away.
    pub closed spec fn rep_of(&self, v: i64) -> i64 {
        if self.repr@.contains_key(v) {
            self.repr@[v]
        } else {
            v
        }
    }

    pub closed spec fn wf(&self) -> bool {
        let r = self.repr@;
        let m = self.members@;
        &&& forall|v: i64| #[trigger] r.contains_key(v) ==> r[v] < v && !r.contains_key(r[v])
        &&& forall|v: i64|
            #[trigger] r.contains_key(v) ==> m.contains_key(r[v]) && m[r[v]]@.contains(v)
        &&& forall|w: i64, i: int|
            #[trigger] m.contains_key(w) && 0 <= i < m[w]@.len() ==> r.contains_key(#[trigger] m[w]@[i])
                && r[m[w]@[i]] == w
    }

    /// An index in which every vertex is its own representative.
    pub fn new() -> (s: SameAsIndex)
        ensures
            s.wf(),
            forall|v: i64| #[trigger] s.rep_of(v) == v,
    {
        SameAsIndex { repr: HashMap::new(), members: HashMap::new() }
    }

    /// The representative of `v`.
    pub fn representative_of(&self, v: i64) -> (r: i64)
        ensures
            r == self.rep_of(v),
    {
        match self.repr.get(&v) {
            Some(r) => *r,
            None => v,
        }
    }

    /// Merges the classes of `a` and `b` into the class of the smaller
    /// representative. Returns the `(winner, loser)` representatives when two
    /// distinct classes were merged, `None` when they were already one.
    pub fn merge(&mut self, a: i64, b: i64) -> (r: Option<(i64, i64)>)
        requires
            old(self).wf(),
        ensures
            final(self).wf(),
            old(self).rep_of(a) == old(self).rep_of(b) ==> r is None && forall|x: i64|
                #[trigger] final(self).rep_of(x) == old(self).rep_of(x),
            old(self).rep_of(a) != old(self).rep_of(b) ==> ({
                let ra = old(self).rep_of(a);
                let rb = old(self).rep_of(b);
                let w = if ra < rb { ra } else { rb };
                let l = if ra < rb { rb } else { ra };
                &&& r == Some((w, l))
                &&& forall|x: i64| #[trigger] final(self).rep_of(x) == (if old(self).rep_of(x) == l {
                    w
                } else {
                    old(self).rep_of(x)
                })
            }),
    {
        let ra = self.representative_of(a);
        let rb = self.representative_of(b);
        if ra == rb {
            return None;
        }
        let (winner, loser) = if ra < rb { (ra, rb) } else { (rb, ra) };
        self.collapse(winner, loser);
        Some((winner, loser))
    }

    /// Repoints representative `loser` and all of its members at `winner`.
    fn collapse(&mut self, winner: i64, loser: i64)
        requires
            old(self).wf(),
            winner < loser,
            !old(self).repr@.contains_key(winner),
            !old(self).repr@.contains_key(loser),
        ensures
            final(self).wf(),
            forall|x: i64| #[trigger] final(self).rep_of(x) == (if old(self).rep_of(x) == loser {
                winner
            } else {
                old(self).rep_of(x)
            }),
    {
        let ghost r0 = self.repr@;
        let ghost m0 = self.members@;
        let moved: Vec<i64> = match self.members.get(&loser) {
            Some(l) => l.clone(),
            None => Vec::new(),
        };
        let mut joined: Vec<i64> = match self.members.get(&winner) {
            Some(l) => l.clone(),
            None => Vec::new(),
        };
        let ghost kept = joined@;
        proof {
            if m0.contains_key(loser) {
                assert(moved@ =~= m0[loser]@);
            } else {
                assert(moved@ =~= Seq::<i64>::empty());
            }
            if m0.contains_key(winner) {
                assert(kept =~= m0[winner]@);
            }
        }
        let mut i: usize = 0;
        while i < moved.len()
            invariant
                i <= moved.len(),
                joined@ == kept + moved@.take(i as int),
                forall|v: i64| #[trigger] self.repr@.contains_key(v) <==> r0.contains_key(v),
                forall|v: i64|
                    #[trigger] r0.contains_key(v) ==> self.repr@[v] == (if moved@.take(i as int).contains(v) {
                        winner
                    } else {
                        r0[v]
                    }),
                self.members@ == m0,
                m0.contains_key(loser) ==> moved@ == m0[loser]@,
                !m0.contains_key(loser) ==> moved@.len() == 0,
                forall|w: i64, k: int|
                    #[trigger] m0.contains_key(w) && 0 <= k < m0[w]@.len() ==> r0.contains_key(
                        #[trigger] m0[w]@[k],
                    ) && r0[m0[w]@[k]] == w,
            decreases moved.len() - i,
        {
            let v = moved[i];
            proof {
                if m0.contains_key(loser) {
                    assert(moved@[i as int] == m0[loser]@[i as int]);
                    assert(r0.contains_key(v) && r0[v] == loser);
                }
            }
            self.repr.insert(v, winner);
            joined.push(v);
            proof {
                assert(moved@.take(i + 1) =~= moved@.take(i as int).push(v));
                assert forall|x: i64| #[trigger] r0.contains_key(x) implies self.repr@[x] == (if moved@.take(
                    i + 1,
                ).contains(x) {
                    winner
                } else {
                    r0[x]
                }) by {
                    if x != v && moved@.take(i + 1).contains(x) {
                        let k = choose|k: int| 0 <= k < i + 1 && #[trigger] moved@.take(i + 1)[k] == x;
                        assert(moved@.take(i as int)[k] == x);
                    }
                    if moved@.take(i as int).contains(x) {
                        let k = choose|k: int| 0 <= k < i && #[trigger] moved@.take(i as int)[k] == x;
                        assert(moved@.take(i + 1)[k] == x);
                    }
                    if x == v {
                        assert(moved@.take(i + 1)[i as int] == x);
                    }
                }
            }
            i = i + 1;
        }
        assert(moved@.take(moved.len() as int) =~= moved@);
        self.repr.insert(loser, winner);
        joined.push(loser);
        self.members.remove(&loser);
        self.members.insert(winner, joined);
        proof {
            let r = self.repr@;
            let m = self.members@;
            let j = kept + moved@ + seq![loser];
            assert(m[winner]@ =~= j);
            assert forall|v: i64| r0.contains_key(v) && r0[v] == loser implies moved@.contains(v) by {
                assert(m0.contains_key(loser) && m0[loser]@.contains(v));
            }
            assert forall|v: i64| #[trigger] r.contains_key(v) implies r[v] < v && !r.contains_key(r[v]) by {
                if v != loser && r0.contains_key(v) {
                    if moved@.contains(v) {
                        let k = choose|k: int| 0 <= k < moved@.len() && #[trigger] moved@[k] == v;
                        assert(m0.contains_key(loser));
                        assert(r0[m0[loser]@[k]] == loser);
                    }
                }
            }
            assert forall|v: i64| #[trigger] r.contains_key(v) implies m.contains_key(r[v]) && m[r[v]]@.contains(v) by {
                if v == loser {
                    assert(j[j.len() - 1] == loser);
                } else if moved@.contains(v) {
                    let k = choose|k: int| 0 <= k < moved@.len() && #[trigger] moved@[k] == v;
                    assert(j[kept.len() + k] == v);
                } else {
                    assert(r0.contains_key(v));
                    assert(r0[v] != loser);
                    if r0[v] == winner {
                        let k = choose|k: int| 0 <= k < kept.len() && #[trigger] kept[k] == v;
                        assert(j[k] == v);
                    } else {
                        assert(m[r0[v]] == m0[r0[v]]);
                    }
                }
            }
            assert forall|w: i64, k: int| #[trigger] m.contains_key(w) && 0 <= k < m[w]@.len() implies r.contains_key(
                #[trigger] m[w]@[k],
            ) && r[m[w]@[k]] == w by {
                if w == winner {
                    if k < kept.len() {
                        assert(m[w]@[k] == kept[k]);
                        assert(m0.contains_key(winner));
                        assert(r0[kept[k]] == winner);
                        if moved@.contains(kept[k]) {
                            let q = choose|q: int| 0 <= q < moved@.len() && #[trigger] moved@[q] == kept[k];
                            assert(m0.contains_key(loser));
                            assert(r0[m0[loser]@[q]] == loser);
                        }
                    } else if k < kept.len() + moved@.len() {
                        assert(m[w]@[k] == moved@[k - kept.len()]);
                        assert(moved@.contains(moved@[k - kept.len()]));
                    }
                } else {
                    assert(w != loser);
                    assert(m[w] == m0[w]);
                    let x = m0[w]@[k];
                    assert(r0[x] == w);
                    if moved@.contains(x) {
                        let q = choose|q: int| 0 <= q < moved@.len() && #[trigger] moved@[q] == x;
                        assert(m0.contains_key(loser));
                        assert(r0[m0[loser]@[q]] == loser);
                    }
                }
            }
            assert forall|x: i64| #[trigger] self.rep_of(x) == (if old(self).rep_of(x) == loser {
                winner
            } else {
                old(self).rep_of(x)
            }) by {
                if r0.contains_key(x) && x != loser {
                    if moved@.contains(x) {
                        let k = choose|k: int| 0 <= k < moved@.len() && #[trigger] moved@[k] == x;
                        assert(m0.contains_key(loser));
                        assert(r0[m0[loser]@[k]] == loser);
                    }
                }
            }
        }
    }

    /// Applies the `sameAs` assertions among `triples` in order, skipping
    /// self-equivalences, and stops once `cap` merges were made (`cap` 0 stops
    /// after the first). Returns the `(winner, loser)` pairs merged, in order.
    pub fn merge_triples(&mut self, triples: &[(i64, String, i64)], cap: usize) -> (merged: Vec<
        (i64, i64),
    >)
        requires
            old(self).wf(),
        ensures
            final(self).wf(),
            merged@.len() <= triples@.len(),
            forall|k: int| 0 <= k < merged@.len() ==> #[trigger] merged@[k].0 < merged@[k].1,
            forall|x: i64| #[trigger] final(self).rep_of(x) <= old(self).rep_of(x),
            forall|k: int|
                0 <= k < triples@.len() && triples@[k].1@ == sameas_edge() && merged@.len() < (if cap
                    == 0 {
                    1
                } else {
                    cap
                }) ==> #[trigger] final(self).rep_of(triples@[k].0) == final(self).rep_of(
                    triples@[k].2,
                ),
    {
        let name = String::from_str("sameAs");
        let mut merged: Vec<(i64, i64)> = Vec::new();
        let mut i: usize = 0;
        while i < triples.len()
            invariant
                self.wf(),
                i <= triples.len(),
                name@ == sameas_edge(),
                merged@.len() <= i,
                forall|k: int| 0 <= k < merged@.len() ==> #[trigger] merged@[k].0 < merged@[k].1,
                forall|x: i64| #[trigger] self.rep_of(x) <= old(self).rep_of(x),
                forall|k: int|
                    0 <= k < i && triples@[k].1@ == sameas_edge() ==> #[trigger] self.rep_of(triples@[k].0)
                        == self.rep_of(triples@[k].2),
            decreases triples.len() - i,
        {
            let (a, p, b) = (triples[i].0, &triples[i].1, triples[i].2);
            if *p == name && a != b {
                let ghost before = *self;
                match self.merge(a, b) {
                    Some(pair) => {
                        merged.push(pair);
                        proof {
                            assert forall|k: int|
                                0 <= k < i + 1 && triples@[k].1@ == sameas_edge() implies #[trigger] self.rep_of(
                                    triples@[k].0,
                                ) == self.rep_of(triples@[k].2) by {
                                assert(self.rep_of(triples@[k].0) == (if before.rep_of(triples@[k].0) == pair.1 {
                                    pair.0
                                } else {
                                    before.rep_of(triples@[k].0)
                                }));
                                assert(self.rep_of(triples@[k].2) == (if before.rep_of(triples@[k].2) == pair.1 {
                                    pair.0
                                } else {
                                    before.rep_of(triples@[k].2)
                                }));
                            }
                            assert forall|x: i64| #[trigger] self.rep_of(x) <= old(self).rep_of(x) by {
                                assert(self.rep_of(x) <= before.rep_of(x));
                            }
                        }
                        if merged.len() >= cap {
                            return merged;
                        }
                    },
                    None => {},
                }
            } else {
                proof {
                    if *p == name {
                        assert(a == b);
                    }
                }
            }
            i = i + 1;
        }
        merged
    }
}

/// Law: a representative is the smallest id of its class and represents
/// itself.
pub proof fn lemma_representative_is_minimal_root(index: &SameAsIndex, v: i64)
    requires
        index.wf(),
    ensures
        index.rep_of(v) <= v,
        index.rep_of(index.rep_of(v)) == index.rep_of(v),
{
}


/// A tag by its name and the map of its properties.
pub open spec fn tag_view(t: TagRecord) -> (Seq<char>, Map<Seq<char>, VModel>) {
    (t.name@, t.properties@)
}

/// `m` with each pair of `es` stored in turn where its key is still absent.
pub open spec fn fill_absent(m: Map<Seq<char>, VModel>, es: Seq<(String, Value)>) -> Map<
    Seq<char>,
    VModel,
>
    decreases es.len(),
{
    if es.len() == 0 {
        m
    } else {
        let m1 = fill_absent(m, es.drop_last());
        if m1.contains_key(es.last().0@) {
            m1
        } else {
            m1.insert(es.last().0@, value_model(es.last().1))
        }
    }
}

/// Position of the first tag named `name`.
pub open spec fn first_named(ws: Seq<(Seq<char>, Map<Seq<char>, VModel>)>, name: Seq<char>) -> Option<
    int,
>
    decreases ws.len(),
{
    if ws.len() == 0 {
        None
    } else if ws[0].0 == name {
        Some(0)
    } else {
        match first_named(ws.drop_first(), name) {
            Some(i) => Some(i + 1),
            None => None,
        }
    }
}

/// Folds one tag of a merged-away vertex into the representative's tags:
/// into the first tag of the same name, filling only the properties it
/// lacks, or as a new tag at the end.
pub open spec fn fold_tag(
    ws: Seq<(Seq<char>, Map<Seq<char>, VModel>)>,
    lt: TagRecord,
) -> Seq<(Seq<char>, Map<Seq<char>, VModel>)> {
    match first_named(ws, lt.name@) {
        Some(i) => ws.update(i, (ws[i].0, fill_absent(ws[i].1, lt.properties.spec_entries()))),
        None => ws.push(tag_view(lt)),
    }
}

/// Folds the tags of a merged-away vertex in, one after another.
pub open spec fn fold_tags(
    ws: Seq<(Seq<char>, Map<Seq<char>, VModel>)>,
    ls: Seq<TagRecord>,
) -> Seq<(Seq<char>, Map<Seq<char>, VModel>)>
    decreases ls.len(),
{
    if ls.len() == 0 {
        ws
    } else {
        fold_tag(fold_tags(ws, ls.drop_last()), ls.last())
    }
}

fn fill_absent_props(out: &mut PropMap, es: &PropMap)
    ensures
        final(out)@ == fill_absent(old(out)@, es.spec_entries()),
{
    let n = es.entry_count();
    let mut i: usize = 0;
    while i < n
        invariant
            i <= n,
            n == es.spec_entries().len(),
            out@ == fill_absent(old(out)@, es.spec_entries().take(i as int)),
        decreases n - i,
    {
        let (k, v) = es.entry_at(i);
        proof {
            assert(es.spec_entries().take(i + 1).drop_last() =~= es.spec_entries().take(i as int));
        }
        if !out.contains_key(k.as_str()) {
            out.insert(k.clone(), v.duplicate());
        }
        i = i + 1;
    }
    assert(es.spec_entries().take(n as int) =~= es.spec_entries());
}

fn first_tag_index(tags: &Vec<TagRecord>, name: &str) -> (r: Option<usize>)
    ensures
        match r {
            Some(i) => first_named(tags@.map_values(|t: TagRecord| tag_view(t)), name@) == Some(
                i as int,
            ) && i < tags@.len(),
            None => first_named(tags@.map_values(|t: TagRecord| tag_view(t)), name@) is None,
        },
{
    let ghost vs = tags@.map_values(|t: TagRecord| tag_view(t));
    let mut i: usize = 0;
    assert(vs.skip(0) =~= vs);
    while i < tags.len()
        invariant
            i <= tags.len(),
            vs == tags@.map_values(|t: TagRecord| tag_view(t)),
            first_named(vs, name@) == match first_named(vs.skip(i as int), name@) {
                Some(j) => Some(j + i),
                None => None,
            },
        decreases tags.len() - i,
    {
        assert(vs.skip(i as int).drop_first() =~= vs.skip(i + 1));
        assert(vs.skip(i as int)[0] == tag_view(tags@[i as int]));
        if str_is(tags[i].name.as_str(), name) {
            return Some(i);
        }
        i = i + 1;
    }
    None
}

/// The tags of a representative after the vertex merged into it is folded
/// in: the representative keeps every value it has, takes the properties
/// it lacks, and gains the tags it does not carry (see [`fold_tags`]).
pub fn merge_vertex_tags(winner: Vec<TagRecord>, loser: &Vec<TagRecord>) -> (r: Vec<TagRecord>)
    ensures
        r@.map_values(|t: TagRecord| tag_view(t)) == fold_tags(
            winner@.map_values(|t: TagRecord| tag_view(t)),
            loser@,
        ),
{
    let ghost w0 = winner@.map_values(|t: TagRecord| tag_view(t));
    let mut w = winner;
    let mut j: usize = 0;
    while j < loser.len()
        invariant
            j <= loser.len(),
            w@.map_values(|t: TagRecord| tag_view(t)) == fold_tags(w0, loser@.take(j as int)),
        decreases loser.len() - j,
    {
        let ghost before = w@.map_values(|t: TagRecord| tag_view(t));
        proof {
            assert(loser@.take(j + 1).drop_last() =~= loser@.take(j as int));
            assert(loser@.take(j + 1).last() == loser@[j as int]);
        }
        let lt = &loser[j];
        match first_tag_index(&w, lt.name.as_str()) {
            Some(i) => {
                let mut tmp = TagRecord { name: String::new(), properties: PropMap::new() };
                let ghost w_before = w@;
                w.set_and_swap(i, &mut tmp);
                let ghost taken = tmp;
                assert(taken == w_before[i as int]);
                assert(tag_view(taken) == before[i as int]);
                fill_absent_props(&mut tmp.properties, &lt.properties);
                let ghost filled = tmp;
                let ghost mid = w@;
                w.set_and_swap(i, &mut tmp);
                proof {
                    assert(w@ == mid.update(i as int, filled));
                    assert(w@.map_values(|t: TagRecord| tag_view(t)) =~= before.update(
                        i as int,
                        (before[i as int].0, fill_absent(before[i as int].1, lt.properties.spec_entries())),
                    ));
                }
            },
            None => {
                let copy = TagRecord { name: lt.name.clone(), properties: lt.properties.duplicate() };
                w.push(copy);
                proof {
                    assert(w@.map_values(|t: TagRecord| tag_view(t)) =~= before.push(tag_view(*lt)));
                }
            },
        }
        j = j + 1;
    }
    assert(loser@.take(loser.len() as int) =~= loser@);
    w
}


proof fn lemma_fill_absent_grows(m: Map<Seq<char>, VModel>, es: Seq<(String, Value)>)
    ensures
        m.submap_of(fill_absent(m, es)),
        forall|i: int| 0 <= i < es.len() ==> fill_absent(m, es).contains_key(#[trigger] es[i].0@),
    decreases es.len(),
{
    if es.len() > 0 {
        lemma_fill_absent_grows(m, es.drop_last());
        assert forall|i: int| 0 <= i < es.len() implies fill_absent(m, es).contains_key(
            #[trigger] es[i].0@,
        ) by {
            if i < es.len() - 1 {
                assert(es[i] == es.drop_last()[i]);
            }
        }
    }
}

proof fn lemma_fold_tag_keeps(ws: Seq<(Seq<char>, Map<Seq<char>, VModel>)>, lt: TagRecord)
    ensures
        fold_tag(ws, lt).len() >= ws.len(),
        forall|i: int|
            0 <= i < ws.len() ==> (#[trigger] fold_tag(ws, lt)[i]).0 == ws[i].0 && ws[i].1.submap_of(
                fold_tag(ws, lt)[i].1,
            ),
{
    match first_named(ws, lt.name@) {
        Some(i) => {
            lemma_first_named_in_range(ws, lt.name@);
            lemma_fill_absent_grows(ws[i].1, lt.properties.spec_entries());
        },
        None => {},
    }
}

proof fn lemma_first_named_in_range(ws: Seq<(Seq<char>, Map<Seq<char>, VModel>)>, name: Seq<char>)
    ensures
        first_named(ws, name) matches Some(i) ==> 0 <= i < ws.len() && ws[i].0 == name,
        first_named(ws, name) is None ==> forall|i: int| 0 <= i < ws.len() ==> (#[trigger] ws[i]).0 != name,
    decreases ws.len(),
{
    if ws.len() > 0 {
        lemma_first_named_in_range(ws.drop_first(), name);
        assert forall|i: int| 1 <= i < ws.len() implies ws[i] == ws.drop_first()[i - 1] by {}
    }
}

/// Folding a merged-away vertex into its representative never changes or
/// drops what the representative had: each of its tags keeps its place and
/// name, and every property value it held stays.
pub proof fn lemma_merge_keeps_representative_values(
    ws: Seq<(Seq<char>, Map<Seq<char>, VModel>)>,
    ls: Seq<TagRecord>,
)
    ensures
        fold_tags(ws, ls).len() >= ws.len(),
        forall|i: int|
            0 <= i < ws.len() ==> (#[trigger] fold_tags(ws, ls)[i]).0 == ws[i].0 && ws[i].1.submap_of(
                fold_tags(ws, ls)[i].1,
            ),
    decreases ls.len(),
{
    if ls.len() > 0 {
        let prev = fold_tags(ws, ls.drop_last());
        lemma_merge_keeps_representative_values(ws, ls.drop_last());
        lemma_fold_tag_keeps(prev, ls.last());
        assert forall|i: int| 0 <= i < ws.len() implies (#[trigger] fold_tags(ws, ls)[i]).0 == ws[i].0
            && ws[i].1.submap_of(fold_tags(ws, ls)[i].1) by {
            let res = fold_tag(prev, ls.last());
            assert(fold_tags(ws, ls) == res);
            assert(prev[i].0 == ws[i].0);
            assert(ws[i].1.submap_of(prev[i].1));
            assert(res[i].0 == prev[i].0);
            assert(prev[i].1.submap_of(res[i].1));
            assert forall|k: Seq<char>| #[trigger] ws[i].1.contains_key(k) implies res[i].1.contains_key(k)
                && res[i].1[k] == ws[i].1[k] by {
                assert(prev[i].1.contains_key(k));
            }
        }
    }
}

/// Folding a merged-away vertex in loses none of its facts: for each of its
/// properties, some tag of the same name in the result has that property.
pub proof fn lemma_merge_keeps_merged_facts(
    ws: Seq<(Seq<char>, Map<Seq<char>, VModel>)>,
    ls: Seq<TagRecord>,
    j: int,
    k: Seq<char>,
)
    requires
        0 <= j < ls.len(),
        ls[j].properties@.contains_key(k),
    ensures
        exists|i: int|
            0 <= i < fold_tags(ws, ls).len() && (#[trigger] fold_tags(ws, ls)[i]).0 == ls[j].name@
                && fold_tags(ws, ls)[i].1.contains_key(k),
    decreases ls.len(),
{
    let prev = fold_tags(ws, ls.drop_last());
    let res = fold_tags(ws, ls);
    let lt = ls.last();
    if j == ls.len() - 1 {
        lemma_first_named_in_range(prev, lt.name@);
        match first_named(prev, lt.name@) {
            Some(i) => {
                lt.properties.lemma_key_has_entry(k);
                let e = choose|e: int|
                    0 <= e < lt.properties.spec_entries().len()
                        && (#[trigger] lt.properties.spec_entries()[e]).0@ == k;
                lemma_fill_absent_grows(prev[i].1, lt.properties.spec_entries());
                assert(res[i].1.contains_key(lt.properties.spec_entries()[e].0@));
                assert(res[i].0 == ls[j].name@);
            },
            None => {
                assert(res[prev.len() as int] == tag_view(lt));
                assert(res[prev.len() as int].0 == ls[j].name@);
            },
        }
    } else {
        assert(ls.drop_last()[j] == ls[j]);
        lemma_merge_keeps_merged_facts(ws, ls.drop_last(), j, k);
        let i = choose|i: int|
            0 <= i < prev.len() && (#[trigger] prev[i]).0 == ls[j].name@ && prev[i].1.contains_key(k);
        lemma_fold_tag_keeps(prev, lt);
        assert(res[i].0 == prev[i].0);
        assert(prev[i].1.submap_of(res[i].1));
    }
}

} // verus!
