//! Edge-degree counters kept with INSERT EDGE and DELETE EDGE.
//!
//! Each (edge type, vertex) pair has an in-degree and an out-degree counter.
//! A write batch may name the same edge twice, and may name an edge that is
//! already stored (insert) or not stored (delete); such an edge must not
//! move a counter, or the counter would drift from the edges stored.
use vstd::prelude::*;
use crate::error::{ErrorKind, ExecutionError, make_error};

verus! {

/// An edge as a write names it: source, type, destination, rank.
pub struct EdgeRef {
    pub src: i64,
    pub edge_type: String,
    pub dst: i64,
    pub ranking: i64,
}

/// The key an edge is stored under.
pub open spec fn ref_key(e: EdgeRef) -> (i64, Seq<char>, i64, i64) {
    (e.src, e.edge_type@, e.dst, e.ranking)
}

/// No earlier position of `batch` names the same edge as position `i`.
pub open spec fn first_mention(batch: Seq<EdgeRef>, i: int) -> bool {
    forall|j: int| 0 <= j < i ==> ref_key(#[trigger] batch[j]) != ref_key(batch[i])
}

/// Position `i` moves the degree counters: it is the first mention of its
/// edge, and the edge was not stored before an insert (`inserting`) or was
/// stored before a delete.
pub open spec fn changes_degree(batch: Seq<EdgeRef>, stored: Seq<bool>, inserting: bool, i: int) -> bool {
    &&& 0 <= i < batch.len()
    &&& first_mention(batch, i)
    &&& stored[i] != inserting
}

/// `r` lists the position `i`.
pub open spec fn lists_position(r: Seq<usize>, i: int) -> bool {
    exists|m: int| 0 <= m < r.len() && r[m] as int == i
}

fn same_edge(a: &EdgeRef, b: &EdgeRef) -> (r: bool)
    ensures
        r == (ref_key(*a) == ref_key(*b)),
{
    a.src == b.src && a.dst == b.dst && a.ranking == b.ranking && a.edge_type == b.edge_type
}

/// The positions of `batch` that move the degree counters, in order, given
/// whether each named edge was stored before the write (`stored`).
pub fn degree_counted(batch: &Vec<EdgeRef>, stored: &Vec<bool>, inserting: bool) -> (r: Vec<usize>)
    requires
        batch@.len() == stored@.len(),
    ensures
        forall|m: int, n: int| 0 <= m < n < r@.len() ==> r@[m] < r@[n],
        forall|m: int| 0 <= m < r@.len() ==> changes_degree(batch@, stored@, inserting, #[trigger] r@[m] as int),
        forall|i: int| changes_degree(batch@, stored@, inserting, i) ==> #[trigger] lists_position(r@, i),
{
    let mut out: Vec<usize> = Vec::new();
    let mut i: usize = 0;
    while i < batch.len()
        invariant
            batch@.len() == stored@.len(),
            i <= batch@.len(),
            forall|m: int, n: int| 0 <= m < n < out@.len() ==> out@[m] < out@[n],
            forall|m: int| 0 <= m < out@.len() ==> out@[m] < i,
            forall|m: int|
                0 <= m < out@.len() ==> changes_degree(batch@, stored@, inserting, #[trigger] out@[m] as int),
            forall|k: int| 0 <= k < i && changes_degree(batch@, stored@, inserting, k) ==> #[trigger] lists_position(
                out@,
                k,
            ),
        decreases batch.len() - i,
    {
        let mut first = true;
        let mut j: usize = 0;
        while j < i
            invariant
                i < batch@.len(),
                j <= i,
                first == forall|k: int| 0 <= k < j ==> ref_key(#[trigger] batch@[k]) != ref_key(batch@[i as int]),
            decreases i - j,
        {
            if same_edge(&batch[j], &batch[i]) {
                first = false;
            }
            j = j + 1;
        }
        let ghost before = out@;
        if first && stored[i] != inserting {
            out.push(i);
            proof {
                assert(out@[before.len() as int] == i);
            }
        }
        proof {
            assert forall|k: int| 0 <= k < i + 1 && changes_degree(batch@, stored@, inserting, k) implies #[trigger] lists_position(
                out@,
                k,
            ) by {
                if k < i {
                    assert(lists_position(before, k));
                    let m = choose|m: int| 0 <= m < before.len() && before[m] as int == k;
                    assert(out@[m] == before[m]);
                } else {
                    assert(out@[before.len() as int] == i);
                }
            }
        }
        i = i + 1;
    }
    out
}

/// Some position of `batch` names the edge `k`.
pub open spec fn names_edge(batch: Seq<EdgeRef>, k: (i64, Seq<char>, i64, i64)) -> bool {
    exists|i: int| 0 <= i < batch.len() && ref_key(#[trigger] batch[i]) == k
}

/// The edges at the positions `counted` of `batch`.
pub open spec fn counted_edge(batch: Seq<EdgeRef>, counted: Seq<usize>, k: (i64, Seq<char>, i64, i64)) -> bool {
    exists|m: int| 0 <= m < counted.len() && ref_key(#[trigger] batch[counted[m] as int]) == k
}

proof fn lemma_first_mention_exists(batch: Seq<EdgeRef>, i: int) -> (i0: int)
    requires
        0 <= i < batch.len(),
    ensures
        0 <= i0 <= i,
        ref_key(batch[i0]) == ref_key(batch[i]),
        first_mention(batch, i0),
    decreases i,
{
    if first_mention(batch, i) {
        i
    } else {
        let j = choose|j: int| 0 <= j < i && ref_key(#[trigger] batch[j]) == ref_key(batch[i]);
        lemma_first_mention_exists(batch, j)
    }
}

/// Law: when `stored` tells truly which named edges the store `before` held,
/// the counted positions name each edge the write adds to the store (insert)
/// or removes from it (delete) exactly once, and no other edge. So each
/// counter moves by exactly the change in the number of stored edges it
/// counts.
pub proof fn lemma_counted_edges_are_the_changed_edges(
    batch: Seq<EdgeRef>,
    stored: Seq<bool>,
    inserting: bool,
    before: Set<(i64, Seq<char>, i64, i64)>,
    counted: Seq<usize>,
)
    requires
        batch.len() == stored.len(),
        forall|i: int| 0 <= i < batch.len() ==> stored[i] == before.contains(ref_key(#[trigger] batch[i])),
        forall|m: int, n: int| 0 <= m < n < counted.len() ==> counted[m] < counted[n],
        forall|m: int| 0 <= m < counted.len() ==> changes_degree(batch, stored, inserting, #[trigger] counted[m] as int),
        forall|i: int| changes_degree(batch, stored, inserting, i) ==> #[trigger] lists_position(counted, i),
    ensures
        forall|k: (i64, Seq<char>, i64, i64)|
            #[trigger] counted_edge(batch, counted, k) <==> (names_edge(batch, k) && before.contains(k)
                != inserting),
        forall|m: int, n: int|
            0 <= m < n < counted.len() ==> ref_key(batch[counted[m] as int]) != ref_key(
                batch[counted[n] as int],
            ),
{
    assert forall|k: (i64, Seq<char>, i64, i64)|
        #[trigger] counted_edge(batch, counted, k) <==> (names_edge(batch, k) && before.contains(k)
            != inserting) by {
        if counted_edge(batch, counted, k) {
            let m = choose|m: int| 0 <= m < counted.len() && ref_key(#[trigger] batch[counted[m] as int]) == k;
            assert(changes_degree(batch, stored, inserting, counted[m] as int));
            assert(names_edge(batch, k)) by {
                assert(ref_key(batch[counted[m] as int]) == k);
            }
        }
        if names_edge(batch, k) && before.contains(k) != inserting {
            let i = choose|i: int| 0 <= i < batch.len() && ref_key(#[trigger] batch[i]) == k;
            let i0 = lemma_first_mention_exists(batch, i);
            assert(changes_degree(batch, stored, inserting, i0));
            assert(lists_position(counted, i0));
            let m = choose|m: int| 0 <= m < counted.len() && counted[m] as int == i0;
            assert(ref_key(batch[counted[m] as int]) == k);
        }
    }
    assert forall|m: int, n: int| 0 <= m < n < counted.len() implies ref_key(batch[counted[m] as int])
        != ref_key(batch[counted[n] as int]) by {
        assert(changes_degree(batch, stored, inserting, counted[n] as int));
        assert(counted[m] < counted[n]);
        assert(first_mention(batch, counted[n] as int));
    }
}

/// The counter an edge moves: its type and its destination (in-degree,
/// `incoming`) or its source (out-degree).
pub open spec fn counter_of(e: EdgeRef, incoming: bool) -> (Seq<char>, i64) {
    (e.edge_type@, if incoming {
        e.dst
    } else {
        e.src
    })
}

/// How many of the counted positions move the counter `c`.
pub open spec fn counter_tally(batch: Seq<EdgeRef>, counted: Seq<usize>, incoming: bool, c: (Seq<char>, i64)) -> nat
    decreases counted.len(),
{
    if counted.len() == 0 {
        0
    } else {
        counter_tally(batch, counted.drop_last(), incoming, c) + if counter_of(
            batch[counted.last() as int],
            incoming,
        ) == c {
            1nat
        } else {
            0nat
        }
    }
}

/// The counters of `deltas`.
pub open spec fn delta_counters(deltas: Seq<(String, i64, i64)>) -> Seq<(Seq<char>, i64)> {
    deltas.map_values(|d: (String, i64, i64)| (d.0@, d.1))
}

/// Sums the counter changes of the counted positions: one entry per
/// counter (edge type, vertex) that moves, in order of first mention, with
/// the number of counted edges it counts, negated when deleting.
pub fn degree_deltas(batch: &Vec<EdgeRef>, counted: &Vec<usize>, inserting: bool, incoming: bool) -> (r: Vec<
    (String, i64, i64),
>)
    requires
        forall|m: int| 0 <= m < counted@.len() ==> #[trigger] counted@[m] < batch@.len(),
        counted@.len() <= i64::MAX,
    ensures
        delta_counters(r@).no_duplicates(),
        forall|k: int|
            0 <= k < r@.len() ==> (#[trigger] r@[k]).2 == (if inserting {
                counter_tally(batch@, counted@, incoming, (r@[k].0@, r@[k].1)) as int
            } else {
                -counter_tally(batch@, counted@, incoming, (r@[k].0@, r@[k].1))
            }),
        forall|m: int|
            0 <= m < counted@.len() ==> delta_counters(r@).contains(
                counter_of(#[trigger] batch@[counted@[m] as int], incoming),
            ),
        forall|k: int| 0 <= k < r@.len() ==> counter_tally(batch@, counted@, incoming, #[trigger] delta_counters(r@)[k]) > 0,
{
    let mut out: Vec<(String, i64, i64)> = Vec::new();
    let mut m: usize = 0;
    while m < counted.len()
        invariant
            m <= counted@.len(),
            counted@.len() <= i64::MAX,
            forall|q: int| 0 <= q < counted@.len() ==> #[trigger] counted@[q] < batch@.len(),
            delta_counters(out@).no_duplicates(),
            forall|k: int|
                0 <= k < out@.len() ==> (#[trigger] out@[k]).2 == (if inserting {
                    counter_tally(batch@, counted@.take(m as int), incoming, (out@[k].0@, out@[k].1)) as int
                } else {
                    -counter_tally(batch@, counted@.take(m as int), incoming, (out@[k].0@, out@[k].1))
                }),
            forall|k: int| 0 <= k < out@.len() ==> counter_tally(batch@, counted@.take(m as int), incoming, (out@[k].0@, out@[k].1)) <= m,
            forall|q: int|
                0 <= q < m ==> delta_counters(out@).contains(counter_of(#[trigger] batch@[counted@[q] as int], incoming)),
            forall|k: int| 0 <= k < out@.len() ==> counter_tally(batch@, counted@.take(m as int), incoming, #[trigger] delta_counters(out@)[k]) > 0,
        decreases counted.len() - m,
    {
        let e = &batch[counted[m]];
        let v = if incoming {
            e.dst
        } else {
            e.src
        };
        let ghost c = counter_of(*e, incoming);
        let ghost t0 = counted@.take(m as int);
        let ghost t1 = counted@.take(m + 1);
        assert(t1.drop_last() =~= t0);
        assert(t1.last() == counted@[m as int]);
        let ghost before = out@;
        let mut k: usize = 0;
        let mut found = false;
        while !found && k < out.len()
            invariant
                k <= out@.len(),
                out@ == before,
                v == c.1,
                e.edge_type@ == c.0,
                found ==> k < out@.len() && delta_counters(out@)[k as int] == c,
                forall|p: int| 0 <= p < k ==> #[trigger] delta_counters(out@)[p] != c,
            decreases out@.len() - k + (if found {
                0int
            } else {
                1int
            }),
        {
            if out[k].1 == v && out[k].0 == e.edge_type {
                found = true;
            } else {
                k = k + 1;
            }
        }
        proof {
            assert forall|p: int| 0 <= p < before.len() implies counter_tally(batch@, t1, incoming, (before[p].0@, before[p].1))
                == counter_tally(batch@, t0, incoming, (before[p].0@, before[p].1)) + if (before[p].0@, before[p].1) == c {
                1nat
            } else {
                0nat
            } by {}
        }
        if found {
            let name = out[k].0.clone();
            let vid = out[k].1;
            let d = out[k].2;
            let nd = if inserting {
                d + 1
            } else {
                d - 1
            };
            proof {
                assert(delta_counters(before)[k as int] == c);
                assert(counter_tally(batch@, t0, incoming, c) <= m);
            }
            out.set(k, (name, vid, nd));
            proof {
                assert forall|q: int| 0 <= q < out@.len() implies (#[trigger] out@[q]).2 == (if inserting {
                    counter_tally(batch@, t1, incoming, (out@[q].0@, out@[q].1)) as int
                } else {
                    -counter_tally(batch@, t1, incoming, (out@[q].0@, out@[q].1))
                }) && counter_tally(batch@, t1, incoming, (out@[q].0@, out@[q].1)) <= m + 1
                    && counter_tally(batch@, t1, incoming, (out@[q].0@, out@[q].1)) > 0 by {
                    assert(delta_counters(before)[q] == (before[q].0@, before[q].1));
                    if q != k {
                        assert(out@[q] == before[q]);
                    }
                }
                assert(delta_counters(out@) =~= delta_counters(before).update(k as int, c));
                assert(delta_counters(out@) =~= delta_counters(before));
                assert forall|q: int| 0 <= q < m + 1 implies delta_counters(out@).contains(
                    counter_of(#[trigger] batch@[counted@[q] as int], incoming),
                ) by {
                    if q == m {
                        assert(delta_counters(out@)[k as int] == c);
                    }
                }
            }
        } else {
            proof {
                assert(!delta_counters(before).contains(c)) by {
                    if delta_counters(before).contains(c) {
                        let p = choose|p: int| 0 <= p < delta_counters(before).len() && delta_counters(before)[p] == c;
                    }
                }
            }
            out.push((e.edge_type.clone(), v, if inserting { 1 } else { -1 }));
            proof {
                assert(delta_counters(out@) =~= delta_counters(before).push(c));
                assert(counter_tally(batch@, t0, incoming, c) == 0) by {
                    lemma_tally_absent(batch@, t0, incoming, c, before);
                }
                assert forall|q: int| 0 <= q < out@.len() implies (#[trigger] out@[q]).2 == (if inserting {
                    counter_tally(batch@, t1, incoming, (out@[q].0@, out@[q].1)) as int
                } else {
                    -counter_tally(batch@, t1, incoming, (out@[q].0@, out@[q].1))
                }) && counter_tally(batch@, t1, incoming, (out@[q].0@, out@[q].1)) <= m + 1
                    && counter_tally(batch@, t1, incoming, (out@[q].0@, out@[q].1)) > 0 by {
                    if q < before.len() {
                        assert(out@[q] == before[q]);
                        assert(delta_counters(before)[q] == (before[q].0@, before[q].1));
                        assert(delta_counters(before)[q] != c);
                    }
                }
                assert forall|q: int| 0 <= q < m + 1 implies delta_counters(out@).contains(
                    counter_of(#[trigger] batch@[counted@[q] as int], incoming),
                ) by {
                    if q == m {
                        assert(delta_counters(out@)[before.len() as int] == c);
                    } else {
                        let p = choose|p: int| 0 <= p < delta_counters(before).len() && delta_counters(before)[p]
                            == counter_of(batch@[counted@[q] as int], incoming);
                        assert(delta_counters(out@)[p] == delta_counters(before)[p]);
                    }
                }
            }
        }
        m = m + 1;
    }
    assert(counted@.take(counted@.len() as int) =~= counted@);
    out
}

proof fn lemma_tally_absent(
    batch: Seq<EdgeRef>,
    counted: Seq<usize>,
    incoming: bool,
    c: (Seq<char>, i64),
    out: Seq<(String, i64, i64)>,
)
    requires
        !delta_counters(out).contains(c),
        forall|q: int|
            0 <= q < counted.len() ==> delta_counters(out).contains(counter_of(#[trigger] batch[counted[q] as int], incoming)),
    ensures
        counter_tally(batch, counted, incoming, c) == 0,
    decreases counted.len(),
{
    if counted.len() > 0 {
        let t = counted.drop_last();
        assert forall|q: int| 0 <= q < t.len() implies delta_counters(out).contains(
            counter_of(#[trigger] batch[t[q] as int], incoming),
        ) by {
            assert(t[q] == counted[q]);
        }
        lemma_tally_absent(batch, t, incoming, c, out);
        assert(delta_counters(out).contains(counter_of(batch[counted[counted.len() - 1] as int], incoming)));
    }
}

/// Deleting a `sameAs` edge is refused: the merge it caused cannot be
/// undone.
pub fn delete_edge_guard(edge_name: &str) -> (r: Result<(), ExecutionError>)
    ensures
        r is Err <==> edge_name@ == "sameAs"@,
        r matches Err(e) ==> e.spec_kind() == ErrorKind::InvalidOperation && e.spec_detail()
            == "deleting a sameAs edge is unsupported — owl:sameAs merges are irreversible (insertion-only)"@,
{
    if crate::text::str_is(edge_name, "sameAs") {
        return Err(
            make_error(
                ErrorKind::InvalidOperation,
                String::from_str(
                    "deleting a sameAs edge is unsupported — owl:sameAs merges are irreversible (insertion-only)",
                ),
            ),
        );
    }
    Ok(())
}

} // verus!
