//! The GO statement: a breadth-first walk from each source vertex over
//! neighbor lists that the caller reads from storage one vertex at a time,
//! then the WHERE filter and the YIELD projection of each traversal row.
use vstd::prelude::*;
use std::collections::HashSet;
use crate::records::{EdgeRecord, TagRecord, vertex_flat_view, edge_flat_view, vertex_props_flat, edge_props_flat};
use crate::value::{PropMap, Value, VModel, value_model};
use crate::expr::{Expression, Literal, EvalContext};
use crate::error::{ErrorKind, ExecutionError, fails_with, make_error};
use crate::eval::{Evaluator, ctx_lookup};
use crate::eval_spec::condition_outcome;
use crate::text::{decimal, push_decimal, str_is, eq_ignore_ascii_case, eq_ignore_ascii_case_spec, to_lowercase, lowercase_of};

verus! {

broadcast use vstd::std_specs::hash::group_hash_axioms;

/// A vertex reached over one edge. For an outgoing edge `dst` is the edge's
/// destination; for an incoming one it is the edge's source.
pub struct GraphNeighbor {
    pub dst: i64,
    pub edge: EdgeRecord,
}

/// One traversal row: the source the walk started from, the vertex reached,
/// and the edge it was first reached over (`None` for the zero-step row).
pub struct GoRow {
    pub src: i64,
    pub dst: i64,
    pub edge: Option<EdgeRecord>,
}

/// What a [`GoSearch`] needs next.
pub enum GoStep {
    /// The caller reads the neighbors of this vertex and hands them to `feed`.
    Expand(i64),
    /// The walk is over; the rows are final.
    Done,
}

/// Some neighbor in `list` leads to `v`.
pub open spec fn lists_dst(list: Seq<GraphNeighbor>, v: i64) -> bool {
    exists|j: int| 0 <= j < list.len() && (#[trigger] list[j]).dst == v
}

/// `w` is a walk in `g` that starts at `s`: each vertex but the last has a
/// neighbor list in `g` that leads to the next one.
pub open spec fn is_graph_walk(g: Map<i64, Seq<GraphNeighbor>>, s: i64, w: Seq<i64>) -> bool {
    &&& w.len() >= 1
    &&& w[0] == s
    &&& forall|i: int|
        0 <= i < w.len() - 1 ==> #[trigger] g.contains_key(w[i]) && lists_dst(g[w[i]], w[i + 1])
}

/// The rows of a walk from `s` are exactly the reached vertices whose
/// distance is at least `min`, each once; the zero-step row, and only it,
/// carries no edge.
pub open spec fn rows_exact(rows: Seq<GoRow>, reached: Map<i64, nat>, s: i64, min: nat) -> bool {
    &&& forall|i: int, j: int| 0 <= i < j < rows.len() ==> #[trigger] rows[i].dst != #[trigger] rows[j].dst
    &&& forall|i: int|
        0 <= i < rows.len() ==> {
            &&& (#[trigger] rows[i]).src == s
            &&& reached.contains_key(rows[i].dst)
            &&& reached[rows[i].dst] >= min
            &&& (rows[i].edge is None <==> rows[i].dst == s)
        }
    &&& forall|v: i64|
        #[trigger] reached.contains_key(v) && reached[v] >= min ==> exists|i: int|
            0 <= i < rows.len() && (#[trigger] rows[i]).dst == v
}

/// Breadth-first walk of a GO statement from one source: every vertex is
/// reached at most once, at its hop distance, and walks stop after
/// `max_steps` hops; a row is produced for each vertex reached at a distance
/// of at least `min_steps`.
pub struct GoSearch {
    source: i64,
    min_steps: usize,
    max_steps: usize,
    hop: usize,
    frontier: Vec<i64>,
    pos: usize,
    next: Vec<i64>,
    visited: HashSet<i64>,
    rows: Vec<GoRow>,
    pending: Option<i64>,
    done: bool,
    scanned: u64,
    dist: Ghost<Map<i64, nat>>,
    adj: Ghost<Map<i64, Seq<GraphNeighbor>>>,
}

impl GoSearch {
    pub closed spec fn source(&self) -> i64 {
        self.source
    }

    pub closed spec fn min_steps(&self) -> nat {
        self.min_steps as nat
    }

    pub closed spec fn max_steps(&self) -> nat {
        self.max_steps as nat
    }

    /// Hop distance of every vertex reached so far.
    pub closed spec fn reached(&self) -> Map<i64, nat> {
        self.dist@
    }

    /// The neighbor list handed in for each expanded vertex.
    pub closed spec fn fed(&self) -> Map<i64, Seq<GraphNeighbor>> {
        self.adj@
    }

    pub closed spec fn rows_view(&self) -> Seq<GoRow> {
        self.rows@
    }

    /// The vertex whose neighbors the walk waits for.
    pub closed spec fn pending(&self) -> Option<i64> {
        self.pending
    }

    pub closed spec fn is_done(&self) -> bool {
        self.done
    }

    pub closed spec fn spec_scanned(&self) -> u64 {
        self.scanned
    }

    pub closed spec fn wf(&self) -> bool {
        let d = self.dist@;
        let a = self.adj@;
        let h = self.hop as int;
        let f = self.frontier@;
        let nx = self.next@;
        &&& d.dom() == self.visited@
        &&& d.contains_key(self.source) && d[self.source] == 0
        &&& 1 <= h
        &&& self.max_steps >= 1 ==> h <= self.max_steps
        &&& forall|v: i64| #[trigger] d.contains_key(v) ==> d[v] <= h && d[v] <= self.max_steps
        &&& self.pos <= f.len()
        &&& f.no_duplicates()
        &&& forall|j: int| 0 <= j < f.len() ==> d.contains_key(#[trigger] f[j]) && d[f[j]] + 1 == h
        &&& forall|v: i64| #[trigger] d.contains_key(v) && d[v] + 1 == h ==> f.contains(v)
        &&& nx.no_duplicates()
        &&& forall|j: int| 0 <= j < nx.len() ==> d.contains_key(#[trigger] nx[j]) && d[nx[j]] == h
        &&& forall|v: i64| #[trigger] d.contains_key(v) && d[v] == h ==> nx.contains(v)
        &&& forall|v: i64| #[trigger] a.contains_key(v) ==> d.contains_key(v) && d[v] + 1 <= h
        &&& forall|v: i64| #[trigger] d.contains_key(v) && d[v] + 1 < h ==> a.contains_key(v)
        &&& forall|j: int|
            0 <= j < self.pos && self.pending != Some(#[trigger] f[j]) ==> a.contains_key(f[j])
        &&& forall|j: int| self.pos <= j < f.len() ==> !a.contains_key(#[trigger] f[j])
        &&& match self.pending {
            Some(u) => self.pos >= 1 && f[self.pos - 1] == u && !a.contains_key(u) && !self.done,
            None => true,
        }
        &&& forall|u: i64, j: int|
            #[trigger] a.contains_key(u) && 0 <= j < a[u].len() ==> d.contains_key(
                (#[trigger] a[u][j]).dst,
            ) && d[a[u][j].dst] <= d[u] + 1
        &&& forall|v: i64|
            #[trigger] d.contains_key(v) && v != self.source ==> exists|u: i64, j: int|
                #![trigger a[u][j]]
                a.contains_key(u) && 0 <= j < a[u].len() && a[u][j].dst == v && d[u] + 1 == d[v]
        &&& rows_exact(self.rows@, d, self.source, self.min_steps as nat)
        &&& forall|i: int|
            0 <= i < self.rows@.len() && (#[trigger] self.rows@[i]).edge is Some ==> exists|
                u: i64,
                j: int,
            |
                #![trigger a[u][j]]
                a.contains_key(u) && 0 <= j < a[u].len() && a[u][j] == (GraphNeighbor {
                    dst: self.rows@[i].dst,
                    edge: self.rows@[i].edge->0,
                }) && d[u] + 1 == d[self.rows@[i].dst]
        &&& self.done ==> self.pending is None && (self.max_steps == 0 || (self.pos == f.len() && (
        nx.len() == 0 || h >= self.max_steps)))
        &&& self.max_steps == 0 ==> self.done
    }

    /// Starts the walk from `source`: it is reached at distance 0 and yields
    /// the zero-step row when `min_steps` is 0; with `max_steps` 0 nothing
    /// more is walked.
    pub fn begin(source: i64, min_steps: usize, max_steps: usize) -> (r: GoSearch)
        ensures
            r.wf(),
            r.source() == source,
            r.min_steps() == min_steps,
            r.max_steps() == max_steps,
            r.reached() == map![source => 0nat],
            r.fed() == Map::<i64, Seq<GraphNeighbor>>::empty(),
            r.pending() is None,
            r.is_done() == (max_steps == 0),
            r.spec_scanned() == 0,
            r.rows_view() == (if min_steps == 0 {
                seq![GoRow { src: source, dst: source, edge: None }]
            } else {
                Seq::<GoRow>::empty()
            }),
    {
        let mut visited: HashSet<i64> = HashSet::new();
        visited.insert(source);
        let mut rows: Vec<GoRow> = Vec::new();
        if min_steps == 0 {
            rows.push(GoRow { src: source, dst: source, edge: None });
        }
        let mut frontier: Vec<i64> = Vec::new();
        frontier.push(source);
        let r = GoSearch {
            source,
            min_steps,
            max_steps,
            hop: 1,
            frontier,
            pos: 0,
            next: Vec::new(),
            visited,
            rows,
            pending: None,
            done: max_steps == 0,
            scanned: 0,
            dist: Ghost(Map::<i64, nat>::empty().insert(source, 0nat)),
            adj: Ghost(Map::empty()),
        };
        proof {
            assert(r.frontier@ =~= seq![source]);
            assert(r.dist@.dom() =~= r.visited@);
            assert(r.frontier@.contains(source)) by {
                assert(r.frontier@[0] == source);
            }
            if min_steps == 0 {
                assert(r.rows@[0].dst == source);
            }
        }
        r
    }

    /// The next vertex to expand, or `Done` once every vertex within reach
    /// has been expanded or the hop limit is met.
    #[verifier::spinoff_prover]
    pub fn next_step(&mut self) -> (r: GoStep)
        requires
            old(self).wf(),
            old(self).pending() is None,
        ensures
            final(self).wf(),
            final(self).source() == old(self).source(),
            final(self).min_steps() == old(self).min_steps(),
            final(self).max_steps() == old(self).max_steps(),
            final(self).reached() == old(self).reached(),
            final(self).fed() == old(self).fed(),
            final(self).rows_view() == old(self).rows_view(),
            final(self).spec_scanned() == old(self).spec_scanned(),
            match r {
                GoStep::Expand(v) => {
                    &&& final(self).pending() == Some(v)
                    &&& !final(self).is_done()
                    &&& !old(self).fed().contains_key(v)
                    &&& old(self).reached().contains_key(v)
                },
                GoStep::Done => final(self).is_done() && final(self).pending() is None,
            },
    {
        if self.done {
            return GoStep::Done;
        }
        if self.pos >= self.frontier.len() {
            if self.next.len() == 0 || self.hop >= self.max_steps {
                self.finish();
                return GoStep::Done;
            }
            self.advance_level();
        }
        self.take_frontier_vertex()
    }

    /// Ends the walk once the frontier is used up and no further hop is due.
    #[verifier::spinoff_prover]
    fn finish(&mut self)
        requires
            old(self).wf(),
            old(self).pending is None,
            old(self).pos >= old(self).frontier@.len(),
            old(self).next@.len() == 0 || old(self).hop >= old(self).max_steps,
        ensures
            final(self).wf(),
            final(self).done,
            final(self).pending is None,
            final(self).source == old(self).source,
            final(self).min_steps == old(self).min_steps,
            final(self).max_steps == old(self).max_steps,
            final(self).dist@ == old(self).dist@,
            final(self).adj@ == old(self).adj@,
            final(self).rows@ == old(self).rows@,
            final(self).scanned == old(self).scanned,
    {
        self.done = true;
        proof {
            let d = self.dist@;
            let a = self.adj@;
            let h = self.hop as int;
            let f = self.frontier@;
            let nx = self.next@;
            assert(d.dom() == self.visited@);
            assert(forall|j: int|
                0 <= j < self.pos && self.pending != Some(#[trigger] f[j]) ==> a.contains_key(f[j]));
            assert(rows_exact(self.rows@, d, self.source, self.min_steps as nat));
            assert(self.done ==> self.pending is None && (self.max_steps == 0 || (self.pos == f.len() && (
            nx.len() == 0 || h >= self.max_steps))));
            assert(forall|i: int|
            0 <= i < self.rows@.len() && (#[trigger] self.rows@[i]).edge is Some ==> exists|
                u: i64,
                j: int,
            |
                #![trigger a[u][j]]
                a.contains_key(u) && 0 <= j < a[u].len() && a[u][j] == (GraphNeighbor {
                    dst: self.rows@[i].dst,
                    edge: self.rows@[i].edge->0,
                }) && d[u] + 1 == d[self.rows@[i].dst]);
            assert(match self.pending {
            Some(u) => self.pos >= 1 && f[self.pos - 1] == u && !a.contains_key(u) && !self.done,
            None => true,
        });
        }
    }

    /// Moves to the next hop: the vertices reached at the current hop become
    /// the frontier.
    #[verifier::spinoff_prover]
    fn advance_level(&mut self)
        requires
            old(self).wf(),
            old(self).pending is None,
            !old(self).done,
            old(self).pos >= old(self).frontier@.len(),
            old(self).next@.len() > 0,
            old(self).hop < old(self).max_steps,
        ensures
            final(self).wf(),
            final(self).pending is None,
            !final(self).done,
            final(self).pos < final(self).frontier@.len(),
            final(self).source == old(self).source,
            final(self).min_steps == old(self).min_steps,
            final(self).max_steps == old(self).max_steps,
            final(self).dist@ == old(self).dist@,
            final(self).adj@ == old(self).adj@,
            final(self).rows@ == old(self).rows@,
            final(self).scanned == old(self).scanned,
    {
        let ghost old_next = self.next@;
        let mut fresh: Vec<i64> = Vec::new();
        std::mem::swap(&mut fresh, &mut self.next);
        self.frontier = fresh;
        self.pos = 0;
        self.hop = self.hop + 1;
        proof {
            let d = self.dist@;
            let a = self.adj@;
            assert(self.frontier@ == old_next);
            assert forall|v: i64| #[trigger] d.contains_key(v) && d[v] + 1 < self.hop implies a.contains_key(v) by {
                if d[v] + 2 == self.hop {
                    assert(old(self).frontier@.contains(v));
                    let j = choose|j: int| 0 <= j < old(self).frontier@.len() && old(self).frontier@[j] == v;
                    assert(a.contains_key(old(self).frontier@[j]));
                }
            }
            assert forall|v: i64| #[trigger] d.contains_key(v) && d[v] == self.hop implies self.next@.contains(v) by {
                assert(d[v] <= self.hop - 1);
            }
        }
    }

    /// Takes the next frontier vertex as the pending one.
    #[verifier::spinoff_prover]
    fn take_frontier_vertex(&mut self) -> (r: GoStep)
        requires
            old(self).wf(),
            old(self).pending is None,
            !old(self).done,
            old(self).pos < old(self).frontier@.len(),
        ensures
            final(self).wf(),
            final(self).source == old(self).source,
            final(self).min_steps == old(self).min_steps,
            final(self).max_steps == old(self).max_steps,
            final(self).dist@ == old(self).dist@,
            final(self).adj@ == old(self).adj@,
            final(self).rows@ == old(self).rows@,
            final(self).scanned == old(self).scanned,
            !final(self).done,
            r matches GoStep::Expand(v) && final(self).pending == Some(v)
                && !old(self).adj@.contains_key(v) && old(self).dist@.contains_key(v),
    {
        let n = self.frontier.len();
        let p = self.pos;
        let v = self.frontier[p];
        self.pos = p + 1;
        self.pending = Some(v);
        proof {
            let f = self.frontier@;
            assert forall|j: int| self.pos <= j < f.len() implies !self.adj@.contains_key(#[trigger] f[j]) by {
                assert(f[j] != v);
            }
            assert forall|j: int|
                0 <= j < self.pos && self.pending != Some(#[trigger] f[j]) implies self.adj@.contains_key(f[j]) by {
                if j == self.pos - 1 {
                    assert(f[j] == v);
                }
            }
        }
        GoStep::Expand(v)
    }

    /// Hands in the neighbors of the pending vertex, in storage order. Each
    /// neighbor not reached before is reached at the current hop, queued for
    /// the next hop, and yields a row with its edge when the hop is at least
    /// `min_steps`.
    #[verifier::spinoff_prover]
    pub fn feed(&mut self, neighbors: Vec<GraphNeighbor>)
        requires
            old(self).wf(),
            old(self).pending() is Some,
        ensures
            final(self).wf(),
            final(self).pending() is None,
            !final(self).is_done(),
            final(self).source() == old(self).source(),
            final(self).min_steps() == old(self).min_steps(),
            final(self).max_steps() == old(self).max_steps(),
            final(self).fed() == old(self).fed().insert(old(self).pending()->0, neighbors@),
            final(self).rows_view().len() >= old(self).rows_view().len(),
            final(self).rows_view().subrange(0, old(self).rows_view().len() as int)
                == old(self).rows_view(),
            forall|v: i64| #[trigger]
                old(self).reached().contains_key(v) ==> final(self).reached().contains_key(v)
                    && final(self).reached()[v] == old(self).reached()[v],
            final(self).spec_scanned() == if old(self).spec_scanned() + neighbors@.len()
                > u64::MAX {
                u64::MAX as int
            } else {
                old(self).spec_scanned() + neighbors@.len()
            },
    {
        let u = match self.pending {
            Some(u) => u,
            None => 0,
        };
        let ghost d0 = self.dist@;
        let ghost rows0 = self.rows@;
        let ghost ns = neighbors@;
        let n = neighbors.len();
        self.scanned = self.scanned.saturating_add(n as u64);
        self.adj = Ghost(self.adj@.insert(u, neighbors@));
        let mut src = neighbors;
        let mut rev: Vec<GraphNeighbor> = Vec::new();
        while src.len() > 0
            invariant
                src@.len() + rev@.len() == n,
                n == ns.len(),
                src@ == ns.subrange(0, src@.len() as int),
                forall|k: int| 0 <= k < rev@.len() ==> rev@[k] == ns[n - 1 - k],
            decreases src@.len(),
        {
            let x = src.pop().unwrap();
            rev.push(x);
        }
        let ghost h = self.hop as nat;
        let ghost sc = self.scanned;
        let mut k: usize = 0;
        while rev.len() > 0
            invariant
                k + rev@.len() == n,
                n == ns.len(),
                forall|i: int| 0 <= i < rev@.len() ==> rev@[i] == ns[n - 1 - i],
                self.adj@ == old(self).adj@.insert(u, ns),
                self.scanned == sc,
                old(self).pending == Some(u),
                old(self).wf(),
                h == self.hop,
                self.hop == old(self).hop,
                self.pos == old(self).pos,
                self.frontier@ == old(self).frontier@,
                self.source == old(self).source,
                self.min_steps == old(self).min_steps,
                self.max_steps == old(self).max_steps,
                self.done == old(self).done,
                self.dist@.dom() == self.visited@,
                forall|v: i64| #[trigger]
                    d0.contains_key(v) ==> self.dist@.contains_key(v) && self.dist@[v] == d0[v],
                forall|v: i64| #[trigger]
                    self.dist@.contains_key(v) && !d0.contains_key(v) ==> self.dist@[v] == h
                        && exists|j: int| 0 <= j < k && ns[j].dst == v,
                forall|j: int| 0 <= j < k ==> self.dist@.contains_key(#[trigger] ns[j].dst),
                self.next@.no_duplicates(),
                forall|j: int|
                    0 <= j < self.next@.len() ==> self.dist@.contains_key(#[trigger] self.next@[j])
                        && self.dist@[self.next@[j]] == h,
                forall|v: i64| #[trigger]
                    self.dist@.contains_key(v) && self.dist@[v] == h ==> self.next@.contains(v),
                rows_exact(self.rows@, self.dist@, self.source, self.min_steps as nat),
                self.rows@.len() >= rows0.len(),
                self.rows@.subrange(0, rows0.len() as int) == rows0,
                rows0 == old(self).rows@,
                d0 == old(self).dist@,
                forall|i: int|
                    rows0.len() <= i < self.rows@.len() ==> (#[trigger] self.rows@[i]).edge is Some
                        && exists|j: int|
                        0 <= j < k && ns[j] == (GraphNeighbor {
                            dst: self.rows@[i].dst,
                            edge: self.rows@[i].edge->0,
                        }) && self.dist@[self.rows@[i].dst] == h,
            decreases rev@.len(),
        {
            let nb = rev.pop().unwrap();
            proof {
                assert(nb == ns[k as int]);
            }
            let GraphNeighbor { dst, edge } = nb;
            if self.visited.insert(dst) {
                let ghost before = self.dist@;
                let ghost rows_before = self.rows@;
                let ghost next_before = self.next@;
                self.dist = Ghost(self.dist@.insert(dst, h));
                if self.hop >= self.min_steps {
                    self.rows.push(GoRow { src: self.source, dst, edge: Some(edge) });
                }
                self.next.push(dst);
                proof {
                    assert(!before.contains_key(dst));
                    assert(dst != self.source);
                    assert forall|v: i64| #[trigger]
                        self.dist@.contains_key(v) && self.dist@[v] == h implies self.next@.contains(v) by {
                        if v != dst {
                            assert(next_before.contains(v));
                            let j = choose|j: int| 0 <= j < next_before.len() && next_before[j] == v;
                            assert(self.next@[j] == v);
                        } else {
                            assert(self.next@[self.next@.len() - 1] == dst);
                        }
                    }
                    let r = self.rows@;
                    let dd = self.dist@;
                    let m = self.min_steps as nat;
                    assert forall|v: i64| #[trigger] dd.contains_key(v) && dd[v] >= m implies exists|i: int|
                        0 <= i < r.len() && (#[trigger] r[i]).dst == v by {
                        if v == dst {
                            assert(r[r.len() - 1].dst == dst);
                        } else {
                            let i0 = choose|i: int| 0 <= i < rows_before.len() && (#[trigger] rows_before[i]).dst == v;
                            assert(r[i0] == rows_before[i0]);
                        }
                    }
                    assert forall|i: int, j: int| 0 <= i < j < r.len() implies #[trigger] r[i].dst != #[trigger] r[j].dst by {
                        if j == r.len() - 1 && r.len() > rows_before.len() {
                            assert(r[i] == rows_before[i]);
                            assert(before.contains_key(rows_before[i].dst));
                        } else {
                            assert(r[i] == rows_before[i]);
                            assert(r[j] == rows_before[j]);
                        }
                    }
                    assert forall|i: int| 0 <= i < r.len() implies {
                        &&& (#[trigger] r[i]).src == self.source
                        &&& dd.contains_key(r[i].dst)
                        &&& dd[r[i].dst] >= m
                        &&& (r[i].edge is None <==> r[i].dst == self.source)
                    } by {
                        if i < rows_before.len() {
                            assert(r[i] == rows_before[i]);
                        }
                    }
                    assert forall|i: int|
                        rows0.len() <= i < r.len() implies (#[trigger] r[i]).edge is Some
                            && exists|j: int|
                            0 <= j < k + 1 && ns[j] == (GraphNeighbor {
                                dst: r[i].dst,
                                edge: r[i].edge->0,
                            }) && dd[r[i].dst] == h by {
                        if i < rows_before.len() {
                            assert(r[i] == rows_before[i]);
                        } else {
                            assert(ns[k as int] == (GraphNeighbor { dst: r[i].dst, edge: r[i].edge->0 }));
                        }
                    }
                    assert(self.rows@.subrange(0, rows0.len() as int) =~= rows0) by {
                        assert(rows_before.subrange(0, rows0.len() as int) == rows0);
                    }
                }
            }
            k = k + 1;
        }
        self.pending = None;
        proof {
            let d = self.dist@;
            let a = self.adj@;
            let a0 = old(self).adj@;
            let f = self.frontier@;
            let hh = self.hop as int;
            assert(f[self.pos - 1] == u);
            assert(d0[u] + 1 == hh);
            assert forall|j: int|
                0 <= j < self.pos && self.pending != Some(#[trigger] f[j]) implies a.contains_key(f[j]) by {
                if j != self.pos - 1 {
                    assert(f[j] != u);
                    assert(old(self).pending != Some(f[j]));
                }
            }
            assert forall|j: int| self.pos <= j < f.len() implies !a.contains_key(#[trigger] f[j]) by {
                assert(f[j] != u);
            }
            assert forall|v: i64| #[trigger] a.contains_key(v) implies d.contains_key(v) && d[v] + 1 <= hh by {
                if v != u {
                    assert(a0.contains_key(v));
                }
            }
            assert forall|u1: i64, j: int|
                #[trigger] a.contains_key(u1) && 0 <= j < a[u1].len() implies d.contains_key(
                    (#[trigger] a[u1][j]).dst,
                ) && d[a[u1][j].dst] <= d[u1] + 1 by {
                if u1 == u {
                    assert(a[u1][j] == ns[j]);
                    assert(d.contains_key(ns[j].dst));
                    if d0.contains_key(ns[j].dst) {
                        assert(d0[ns[j].dst] <= hh);
                    }
                } else {
                    assert(a[u1] == a0[u1]);
                    assert(a0.contains_key(u1));
                    assert(d0.contains_key(a0[u1][j].dst));
                }
            }
            assert forall|v: i64| #[trigger] d.contains_key(v) && v != self.source implies exists|u1: i64, j: int|
                #![trigger a[u1][j]]
                a.contains_key(u1) && 0 <= j < a[u1].len() && a[u1][j].dst == v && d[u1] + 1 == d[v] by {
                if d0.contains_key(v) {
                    let (u1, j) = choose|u1: i64, j: int|
                        #![trigger a0[u1][j]]
                        a0.contains_key(u1) && 0 <= j < a0[u1].len() && a0[u1][j].dst == v && d0[u1] + 1 == d0[v];
                    assert(u1 != u);
                    assert(a[u1] == a0[u1]);
                    assert(a[u1][j].dst == v);
                } else {
                    let j = choose|j: int| 0 <= j < k && ns[j].dst == v;
                    assert(a[u] == ns);
                    assert(a[u][j].dst == v);
                }
            }
            let r = self.rows@;
            assert forall|i: int|
                0 <= i < r.len() && (#[trigger] r[i]).edge is Some implies exists|u1: i64, j: int|
                #![trigger a[u1][j]]
                a.contains_key(u1) && 0 <= j < a[u1].len() && a[u1][j] == (GraphNeighbor {
                    dst: r[i].dst,
                    edge: r[i].edge->0,
                }) && d[u1] + 1 == d[r[i].dst] by {
                if i < rows0.len() {
                    assert(r[i] == rows0[i]) by {
                        assert(r.subrange(0, rows0.len() as int)[i] == r[i]);
                    }
                    let (u1, j) = choose|u1: i64, j: int|
                        #![trigger a0[u1][j]]
                        a0.contains_key(u1) && 0 <= j < a0[u1].len() && a0[u1][j] == (GraphNeighbor {
                            dst: rows0[i].dst,
                            edge: rows0[i].edge->0,
                        }) && d0[u1] + 1 == d0[rows0[i].dst];
                    assert(u1 != u);
                    assert(a[u1] == a0[u1]);
                } else {
                    let j = choose|j: int|
                        0 <= j < k && ns[j] == (GraphNeighbor {
                            dst: r[i].dst,
                            edge: r[i].edge->0,
                        }) && d[r[i].dst] == h;
                    assert(a[u] == ns);
                    assert(a[u][j] == ns[j]);
                }
            }
        }
    }

    /// Neighbor entries handed in so far (saturating).
    pub fn scanned_neighbors(&self) -> (n: u64)
        ensures
            n == self.spec_scanned(),
    {
        self.scanned
    }

    /// The rows produced, in the order their vertices were reached.
    pub fn into_rows(self) -> (r: Vec<GoRow>)
        ensures
            r@ == self.rows_view(),
    {
        self.rows
    }

    /// The rows are exactly the reached vertices at distance `min_steps` or
    /// more, each once; no vertex is reached beyond `max_steps` hops.
    #[verifier::spinoff_prover]
    pub proof fn lemma_rows_are_distance_band(&self)
        requires
            self.wf(),
        ensures
            rows_exact(self.rows_view(), self.reached(), self.source(), self.min_steps()),
            self.reached().contains_key(self.source()),
            self.reached()[self.source()] == 0,
            forall|v: i64| #[trigger]
                self.reached().contains_key(v) ==> self.reached()[v] <= self.max_steps(),
    {
    }

    /// Every reached vertex is the end of a walk from the source, over the
    /// neighbor lists handed in, whose length is its distance.
    #[verifier::spinoff_prover]
    pub proof fn lemma_walk_to(&self, v: i64) -> (w: Seq<i64>)
        requires
            self.wf(),
            self.reached().contains_key(v),
        ensures
            is_graph_walk(self.fed(), self.source(), w),
            w.last() == v,
            w.len() == self.reached()[v] + 1,
        decreases self.reached()[v],
    {
        let d = self.dist@;
        let a = self.adj@;
        if v == self.source {
            let w = seq![v];
            assert(w[0] == v);
            w
        } else {
            let (u, j) = choose|u: i64, j: int|
                #![trigger a[u][j]]
                a.contains_key(u) && 0 <= j < a[u].len() && a[u][j].dst == v && d[u] + 1 == d[v];
            let p = self.lemma_walk_to(u);
            let w = p.push(v);
            assert forall|i: int|
                0 <= i < w.len() - 1 implies #[trigger] a.contains_key(w[i]) && lists_dst(a[w[i]], w[i + 1]) by {
                if i < p.len() - 1 {
                    assert(w[i] == p[i]);
                    assert(w[i + 1] == p[i + 1]);
                } else {
                    assert(w[i] == u);
                    assert(w[i + 1] == v);
                    assert(a[u][j].dst == v);
                }
            }
            w
        }
    }

    /// No walk from the source over the neighbor lists handed in is shorter
    /// than the distance at which its end was reached.
    #[verifier::spinoff_prover]
    pub proof fn lemma_no_shorter_walk(&self, w: Seq<i64>)
        requires
            self.wf(),
            is_graph_walk(self.fed(), self.source(), w),
        ensures
            self.reached().contains_key(w.last()),
            self.reached()[w.last()] <= w.len() - 1,
        decreases w.len(),
    {
        let d = self.dist@;
        let a = self.adj@;
        if w.len() > 1 {
            let p = w.drop_last();
            assert forall|i: int|
                0 <= i < p.len() - 1 implies #[trigger] a.contains_key(p[i]) && lists_dst(a[p[i]], p[i + 1]) by {
                assert(p[i] == w[i]);
                assert(p[i + 1] == w[i + 1]);
            }
            self.lemma_no_shorter_walk(p);
            let u = w[w.len() - 2];
            assert(a.contains_key(u) && lists_dst(a[u], w.last()));
            let j = choose|j: int| 0 <= j < a[u].len() && (#[trigger] a[u][j]).dst == w.last();
            assert(d.contains_key(a[u][j].dst));
        }
    }

    /// Once the walk is done, every vertex reached within fewer than
    /// `max_steps` hops has been expanded.
    #[verifier::spinoff_prover]
    pub proof fn lemma_expanded_when_done(&self, v: i64)
        requires
            self.wf(),
            self.is_done(),
            self.reached().contains_key(v),
            self.reached()[v] < self.max_steps(),
        ensures
            self.fed().contains_key(v),
    {
        let d = self.dist@;
        let f = self.frontier@;
        if d[v] + 1 == self.hop {
            assert(f.contains(v));
            let j = choose|j: int| 0 <= j < f.len() && f[j] == v;
            assert(self.pending != Some(f[j]));
        } else if d[v] == self.hop {
            assert(self.next@.contains(v));
        }
    }

    /// When the caller handed in the neighbor lists of a graph `g`, every
    /// vertex that a walk of at most `max_steps` hops in `g` leads to from the
    /// source has been reached, at a distance no greater than that walk.
    #[verifier::spinoff_prover]
    pub proof fn lemma_done_covers_graph(&self, g: Map<i64, Seq<GraphNeighbor>>, w: Seq<i64>)
        requires
            self.wf(),
            self.is_done(),
            forall|v: i64| #[trigger]
                self.fed().contains_key(v) ==> g.contains_key(v) && self.fed()[v] == g[v],
            is_graph_walk(g, self.source(), w),
            w.len() - 1 <= self.max_steps(),
        ensures
            self.reached().contains_key(w.last()),
            self.reached()[w.last()] <= w.len() - 1,
        decreases w.len(),
    {
        let d = self.dist@;
        let a = self.adj@;
        if w.len() > 1 {
            let p = w.drop_last();
            assert forall|i: int|
                0 <= i < p.len() - 1 implies #[trigger] g.contains_key(p[i]) && lists_dst(g[p[i]], p[i + 1]) by {
                assert(p[i] == w[i]);
                assert(p[i + 1] == w[i + 1]);
            }
            self.lemma_done_covers_graph(g, p);
            let u = w[w.len() - 2];
            assert(u == p.last());
            self.lemma_expanded_when_done(u);
            assert(g.contains_key(u) && lists_dst(g[u], w.last()));
            assert(a[u] == g[u]);
            let j = choose|j: int| 0 <= j < g[u].len() && (#[trigger] g[u][j]).dst == w.last();
            assert(a[u][j] == g[u][j]);
            assert(d.contains_key(a[u][j].dst));
        }
    }
}


/// How many hops a GO statement walks: exactly `n`, or from `min` to `max`.
#[derive(Debug, Clone, Copy, PartialEq, Eq, Structural)]
pub enum StepClause {
    Exactly(usize),
    Range(usize, usize),
}

/// The least and greatest hop counts of a step clause.
pub open spec fn step_bounds(s: StepClause) -> (nat, nat) {
    match s {
        StepClause::Exactly(n) => (n as nat, n as nat),
        StepClause::Range(lo, hi) => (lo as nat, hi as nat),
    }
}

/// The detail of the error for a GO walk longer than the configured cap.
pub open spec fn go_steps_detail(steps: nat, cap: nat) -> Seq<char> {
    "GO step count "@ + decimal(steps) + " exceeds maximum allowed "@ + decimal(cap)
}

/// The hop range of a GO statement, refused when its upper end is above a
/// non-zero `max_go_steps`.
pub fn go_step_range(steps: StepClause, max_go_steps: u32) -> (r: Result<(usize, usize), ExecutionError>)
    ensures
        max_go_steps > 0 && step_bounds(steps).1 > max_go_steps ==> fails_with(
            r,
            ErrorKind::InvalidOperation,
            go_steps_detail(step_bounds(steps).1, max_go_steps as nat),
        ),
        !(max_go_steps > 0 && step_bounds(steps).1 > max_go_steps) ==> (r matches Ok((lo, hi))
            && lo == step_bounds(steps).0 && hi == step_bounds(steps).1),
{
    let (lo, hi) = match steps {
        StepClause::Exactly(n) => (n, n),
        StepClause::Range(a, b) => (a, b),
    };
    if max_go_steps > 0 && hi > max_go_steps as usize {
        let mut detail = String::from_str("GO step count ");
        push_decimal(&mut detail, hi as u64);
        detail.append(" exceeds maximum allowed ");
        push_decimal(&mut detail, max_go_steps as u64);
        return Err(make_error(ErrorKind::InvalidOperation, detail));
    }
    Ok((lo, hi))
}

/// Whether a YIELD expression reads the destination vertex itself.
pub fn go_expr_needs_dst_vertex(expr: &Expression) -> (r: bool)
    ensures
        r == match *expr {
            Expression::DstVertexProp { .. } => true,
            Expression::Identifier(name) => name@ == "vertex"@,
            _ => false,
        },
{
    match expr {
        Expression::DstVertexProp { .. } => true,
        Expression::Identifier(name) => str_is(name.as_str(), "vertex"),
        _ => false,
    }
}

/// A YIELD column: an expression and an optional alias.
pub struct YieldColumn {
    pub expression: Expression,
    pub alias: Option<String>,
}

/// The header of a YIELD column: its alias, else a name read off the
/// expression; `None` for an expression that has no such name, whose header
/// is its debug text.
pub fn go_yield_column_name(col: &YieldColumn) -> (r: Option<String>)
    ensures
        match col.alias {
            Some(a) => (r matches Some(n) && n@ == a@),
            None => match col.expression {
                Expression::Identifier(name) => (r matches Some(n) && n@ == name@),
                Expression::PropRef { object, prop } => (r matches Some(n) && n@ == object@ + "."@
                    + prop@),
                Expression::DstVertexProp { tag, prop } => (r matches Some(n) && n@ == tag@ + "."@
                    + prop@),
                Expression::FunctionCall { name, args } => (r matches Some(n) && (if args.len() > 0
                    && args[0] is Identifier {
                    n@ == name@ + "("@ + args[0]->Identifier_0@ + ")"@
                } else {
                    n@ == name@
                })),
                _ => r is None,
            },
        },
{
    if let Some(a) = &col.alias {
        return Some(a.clone());
    }
    match &col.expression {
        Expression::Identifier(name) => Some(name.clone()),
        Expression::PropRef { object, prop } => {
            let mut n = object.clone();
            n.append(".");
            n.append(prop.as_str());
            Some(n)
        },
        Expression::DstVertexProp { tag, prop } => {
            let mut n = tag.clone();
            n.append(".");
            n.append(prop.as_str());
            Some(n)
        },
        Expression::FunctionCall { name, args } => {
            if args.len() > 0 {
                if let Expression::Identifier(a) = &args[0] {
                    let mut n = name.clone();
                    n.append("(");
                    n.append(a.as_str());
                    n.append(")");
                    return Some(n);
                }
            }
            Some(name.clone())
        },
        _ => None,
    }
}

/// The context a GO WHERE predicate is evaluated in: the row's edge
/// properties as the current properties (none for the zero-step row), the
/// source vertex as `$^` and the destination vertex as `$$`.
pub open spec fn is_go_row_context(
    c: EvalContext,
    edge: Option<EdgeRecord>,
    source: Seq<TagRecord>,
    destination: Seq<TagRecord>,
) -> bool {
    &&& c.current@ == match edge {
        Some(e) => edge_flat_view(e),
        None => Map::empty(),
    }
    &&& c.source@ == vertex_flat_view(source)
    &&& c.destination@ == vertex_flat_view(destination)
    &&& c.variables@.len() == 0
}

/// Builds the evaluation context of a GO row.
pub fn go_row_context(
    edge: Option<&EdgeRecord>,
    source: &Vec<TagRecord>,
    destination: &Vec<TagRecord>,
) -> (c: EvalContext)
    ensures
        is_go_row_context(
            c,
            match edge {
                Some(e) => Some(*e),
                None => None,
            },
            source@,
            destination@,
        ),
{
    let current = match edge {
        Some(e) => edge_props_flat(e),
        None => PropMap::new(),
    };
    EvalContext {
        current,
        source: vertex_props_flat(source),
        destination: vertex_props_flat(destination),
        variables: Vec::new(),
    }
}

/// Whether a GO row passes the WHERE predicate: `None` where evaluating it
/// would overflow 64-bit arithmetic, else the condition's outcome in the
/// row's context.
pub fn go_row_matches_where(
    edge: Option<&EdgeRecord>,
    source: &Vec<TagRecord>,
    destination: &Vec<TagRecord>,
    where_expr: &Expression,
) -> (r: Option<Result<bool, ExecutionError>>)
    ensures
        exists|c: EvalContext|
            #![trigger is_go_row_context(c, edge_opt(edge), source@, destination@)]
            is_go_row_context(c, edge_opt(edge), source@, destination@) && match (
                r,
                condition_outcome(*where_expr, ctx_lookup(c)),
            ) {
                (None, None) => true,
                (Some(Ok(b)), Some(Ok(x))) => b == x,
                (Some(Err(e)), Some(Err(k))) => e.spec_kind() == k,
                _ => false,
            },
{
    let ctx = go_row_context(edge, source, destination);
    let r = Evaluator::try_evaluate_condition(where_expr, &ctx);
    assert(is_go_row_context(ctx, edge_opt(edge), source@, destination@));
    r
}

pub open spec fn edge_opt(edge: Option<&EdgeRecord>) -> Option<EdgeRecord> {
    match edge {
        Some(e) => Some(*e),
        None => None,
    }
}


/// What a YIELD expression gives for a GO row. Vertex ids are shown as the
/// client wrote them, which needs the space's id mapping: those, and the
/// JSON texts, are left to the caller.
pub enum GoYield {
    /// This value.
    Value(Value),
    /// This vertex id, as shown to the client.
    Vid(i64),
    /// The destination vertex as JSON, with its shown id.
    VertexJson,
    /// The row's edge as JSON: its shown endpoints, its type and its rank.
    EdgeJson,
}

/// The model of a [`GoYield`].
pub enum YieldPlan {
    Val(VModel),
    Vid(i64),
    VertexJson,
    EdgeJson,
}

pub open spec fn plan_of(y: GoYield) -> YieldPlan {
    match y {
        GoYield::Value(v) => YieldPlan::Val(value_model(v)),
        GoYield::Vid(v) => YieldPlan::Vid(v),
        GoYield::VertexJson => YieldPlan::VertexJson,
        GoYield::EdgeJson => YieldPlan::EdgeJson,
    }
}

/// The first tag whose name equals `tag` up to ASCII case.
pub open spec fn first_tag_named(tags: Seq<TagRecord>, tag: Seq<char>) -> Option<TagRecord>
    decreases tags.len(),
{
    if tags.len() == 0 {
        None
    } else if eq_ignore_ascii_case_spec(tags[0].name@, tag) {
        Some(tags[0])
    } else {
        first_tag_named(tags.drop_first(), tag)
    }
}

/// A looked-up property, null when absent.
pub open spec fn or_null(v: Option<VModel>) -> YieldPlan {
    match v {
        Some(m) => YieldPlan::Val(m),
        None => YieldPlan::Val(VModel::Null),
    }
}

/// The value of a YIELD expression for the row from `src_vid` to `dst_vid`
/// over `edge` (`None` for the zero-step row), with the destination's tags
/// when they were read.
pub open spec fn go_yield_spec(
    expr: Expression,
    src_vid: i64,
    dst_vid: i64,
    edge: Option<EdgeRecord>,
    dst: Option<Seq<TagRecord>>,
) -> YieldPlan {
    match expr {
        Expression::Identifier(name) => if name@ == "src"@ || name@ == "_src_vid"@ {
            YieldPlan::Vid(src_vid)
        } else if name@ == "dst"@ || name@ == "_dst_vid"@ {
            YieldPlan::Vid(dst_vid)
        } else if name@ == "vertex"@ {
            if dst is Some {
                YieldPlan::VertexJson
            } else {
                YieldPlan::Val(VModel::Null)
            }
        } else if name@ == "edge"@ {
            if edge is Some {
                YieldPlan::EdgeJson
            } else {
                YieldPlan::Val(VModel::Null)
            }
        } else {
            YieldPlan::Val(VModel::Null)
        },
        Expression::PropRef { prop, .. } => match edge {
            Some(e) => if prop@ == "_dst"@ || prop@ == "dst_id"@ {
                YieldPlan::Vid(e.dst_vid)
            } else if prop@ == "_src"@ || prop@ == "src_id"@ {
                YieldPlan::Vid(e.src_vid)
            } else if prop@ == "_type"@ {
                YieldPlan::Val(VModel::Str(e.edge_type@))
            } else if prop@ == "_rank"@ {
                YieldPlan::Val(VModel::Int(e.ranking))
            } else {
                or_null(e.properties.spec_get(prop@))
            },
            None => YieldPlan::Val(VModel::Null),
        },
        Expression::DstVertexProp { tag, prop } => match dst {
            Some(tags) => match first_tag_named(tags, tag@) {
                Some(t) => or_null(t.properties.spec_get(prop@)),
                None => YieldPlan::Val(VModel::Null),
            },
            None => YieldPlan::Val(VModel::Null),
        },
        Expression::Literal(l) => match l {
            Literal::Int(i) => YieldPlan::Val(VModel::Int(i)),
            Literal::String(s) => YieldPlan::Val(VModel::Str(s@)),
            Literal::Bool(b) => YieldPlan::Val(VModel::Bool(b)),
            Literal::Null => YieldPlan::Val(VModel::Null),
        },
        Expression::FunctionCall { name, .. } => match edge {
            Some(e) => {
                let n = lowercase_of(name@);
                if n == "type"@ {
                    YieldPlan::Val(VModel::Str(e.edge_type@))
                } else if n == "dst"@ {
                    YieldPlan::Vid(e.dst_vid)
                } else if n == "src"@ {
                    YieldPlan::Vid(e.src_vid)
                } else if n == "rank"@ || n == "ranking"@ {
                    YieldPlan::Val(VModel::Int(e.ranking))
                } else {
                    YieldPlan::Val(VModel::Null)
                }
            },
            None => YieldPlan::Val(VModel::Null),
        },
        _ => YieldPlan::Val(VModel::Null),
    }
}

fn copy_or_null(v: Option<&Value>) -> (r: GoYield)
    ensures
        plan_of(r) == or_null(
            match v {
                Some(x) => Some(value_model(*x)),
                None => None,
            },
        ),
{
    match v {
        Some(x) => GoYield::Value(x.duplicate()),
        None => GoYield::Value(Value::Null),
    }
}

fn find_tag<'a>(tags: &'a Vec<TagRecord>, tag: &str) -> (r: Option<&'a TagRecord>)
    ensures
        match r {
            Some(t) => first_tag_named(tags@, tag@) == Some(*t),
            None => first_tag_named(tags@, tag@) is None,
        },
{
    let mut i: usize = 0;
    assert(tags@.skip(0) =~= tags@);
    while i < tags.len()
        invariant
            i <= tags.len(),
            first_tag_named(tags@, tag@) == first_tag_named(tags@.skip(i as int), tag@),
        decreases tags.len() - i,
    {
        assert(tags@.skip(i as int).drop_first() =~= tags@.skip(i + 1));
        if eq_ignore_ascii_case(tags[i].name.as_str(), tag) {
            return Some(&tags[i]);
        }
        i = i + 1;
    }
    None
}

/// The value of a YIELD expression for one GO row.
pub fn go_yield_value(
    expr: &Expression,
    src_vid: i64,
    dst_vid: i64,
    edge: Option<&EdgeRecord>,
    dst: Option<&Vec<TagRecord>>,
) -> (r: GoYield)
    ensures
        plan_of(r) == go_yield_spec(
            *expr,
            src_vid,
            dst_vid,
            edge_opt(edge),
            match dst {
                Some(t) => Some(t@),
                None => None,
            },
        ),
{
    match expr {
        Expression::Identifier(name) => {
            let n = name.as_str();
            if str_is(n, "src") || str_is(n, "_src_vid") {
                GoYield::Vid(src_vid)
            } else if str_is(n, "dst") || str_is(n, "_dst_vid") {
                GoYield::Vid(dst_vid)
            } else if str_is(n, "vertex") {
                if dst.is_some() {
                    GoYield::VertexJson
                } else {
                    GoYield::Value(Value::Null)
                }
            } else if str_is(n, "edge") {
                if edge.is_some() {
                    GoYield::EdgeJson
                } else {
                    GoYield::Value(Value::Null)
                }
            } else {
                GoYield::Value(Value::Null)
            }
        },
        Expression::PropRef { prop, .. } => match edge {
            Some(e) => {
                let p = prop.as_str();
                if str_is(p, "_dst") || str_is(p, "dst_id") {
                    GoYield::Vid(e.dst_vid)
                } else if str_is(p, "_src") || str_is(p, "src_id") {
                    GoYield::Vid(e.src_vid)
                } else if str_is(p, "_type") {
                    GoYield::Value(Value::String(e.edge_type.clone()))
                } else if str_is(p, "_rank") {
                    GoYield::Value(Value::Int(e.ranking))
                } else {
                    copy_or_null(e.properties.get(p))
                }
            },
            None => GoYield::Value(Value::Null),
        },
        Expression::DstVertexProp { tag, prop } => match dst {
            Some(tags) => match find_tag(tags, tag.as_str()) {
                Some(t) => copy_or_null(t.properties.get(prop.as_str())),
                None => GoYield::Value(Value::Null),
            },
            None => GoYield::Value(Value::Null),
        },
        Expression::Literal(l) => match l {
            Literal::Int(i) => GoYield::Value(Value::Int(*i)),
            Literal::String(s) => GoYield::Value(Value::String(s.clone())),
            Literal::Bool(b) => GoYield::Value(Value::Bool(*b)),
            Literal::Null => GoYield::Value(Value::Null),
        },
        Expression::FunctionCall { name, .. } => {
            let n = to_lowercase(name.as_str());
            match edge {
                Some(e) => {
                    let s = n.as_str();
                    if str_is(s, "type") {
                        GoYield::Value(Value::String(e.edge_type.clone()))
                    } else if str_is(s, "dst") {
                        GoYield::Vid(e.dst_vid)
                    } else if str_is(s, "src") {
                        GoYield::Vid(e.src_vid)
                    } else if str_is(s, "rank") || str_is(s, "ranking") {
                        GoYield::Value(Value::Int(e.ranking))
                    } else {
                        GoYield::Value(Value::Null)
                    }
                },
                None => GoYield::Value(Value::Null),
            }
        },
        _ => GoYield::Value(Value::Null),
    }
}

/// Law: `$$.tag.prop` projects as NULL when the destination vertex is
/// missing, carries no tag of that name, or that tag lacks the property.
pub proof fn lemma_missing_destination_data_projects_null(
    tag: String,
    prop: String,
    src_vid: i64,
    dst_vid: i64,
    edge: Option<EdgeRecord>,
    dst: Option<Seq<TagRecord>>,
)
    requires
        match dst {
            None => true,
            Some(tags) => match first_tag_named(tags, tag@) {
                None => true,
                Some(t) => t.properties.spec_get(prop@) is None,
            },
        },
    ensures
        go_yield_spec(Expression::DstVertexProp { tag, prop }, src_vid, dst_vid, edge, dst) == YieldPlan::Val(
            VModel::Null,
        ),
{
}


/// Law: on a row over edge `e`, `<edge>._src` and `<edge>.src_id` yield the
/// edge's source, and `<edge>._dst` and `<edge>.dst_id` its destination,
/// whatever the row's own endpoints.
pub proof fn lemma_edge_endpoint_yields(
    object: String,
    prop: String,
    src_vid: i64,
    dst_vid: i64,
    e: EdgeRecord,
    dst: Option<Seq<TagRecord>>,
)
    ensures
        prop@ == "_src"@ || prop@ == "src_id"@ ==> go_yield_spec(
            Expression::PropRef { object, prop },
            src_vid,
            dst_vid,
            Some(e),
            dst,
        ) == YieldPlan::Vid(e.src_vid),
        prop@ == "_dst"@ || prop@ == "dst_id"@ ==> go_yield_spec(
            Expression::PropRef { object, prop },
            src_vid,
            dst_vid,
            Some(e),
            dst,
        ) == YieldPlan::Vid(e.dst_vid),
{
    reveal_strlit("_src");
    reveal_strlit("src_id");
    reveal_strlit("_dst");
    reveal_strlit("dst_id");
    assert("_src"@ != "_dst"@) by {
        assert("_src"@[1] != "_dst"@[1]);
    }
    assert("_src"@ != "dst_id"@) by {
        assert("_src"@.len() != "dst_id"@.len());
    }
    assert("src_id"@ != "_dst"@) by {
        assert("src_id"@.len() != "_dst"@.len());
    }
    assert("src_id"@ != "dst_id"@) by {
        assert("src_id"@[0] != "dst_id"@[0]);
    }
}

} // verus!
