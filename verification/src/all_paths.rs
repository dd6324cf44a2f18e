//! All minimum-hop paths between two vertices: a level-synchronous
//! breadth-first search that records every shortest predecessor of each
//! vertex, then enumerates the paths of that predecessor graph. Neighbor
//! lists are supplied by the caller one vertex at a time.
use vstd::prelude::*;
use std::collections::HashMap;
use crate::traversal::{TraversalMetrics, has_edge, is_shortest_walk, is_walk};

verus! {

broadcast use vstd::std_specs::hash::group_hash_axioms;

/// What the search needs next.
pub enum PathsStep {
    /// The caller supplies the neighbor vertices of this vertex to `feed`.
    Expand(i64),
    /// The search is over, with the paths found.
    Done(Vec<Vec<i64>>),
}

/// Search for every minimum-hop path from `start` to `target` of at most
/// `max_steps` hops, expanding at most `max_nodes` vertices (0: no cap) and
/// returning at most `max_paths` paths (0: all of them).
pub struct AllPathsSearch {
    start: i64,
    target: i64,
    max_steps: usize,
    max_nodes: usize,
    max_paths: usize,
    /// Hops from `start` at which each reached vertex was first seen.
    depth: HashMap<i64, usize>,
    /// Every predecessor one level closer to `start`, in discovery order.
    parents: HashMap<i64, Vec<i64>>,
    /// Reached vertices in discovery order: the levels one after another.
    order: Vec<i64>,
    head: usize,
    level_start: usize,
    level_end: usize,
    level: usize,
    started: bool,
    found: bool,
    current: Option<i64>,
    finished: bool,
    metrics: TraversalMetrics,
    observed: Ghost<Map<i64, Seq<i64>>>,
}

impl AllPathsSearch {
    pub closed spec fn start_vertex(&self) -> i64 {
        self.start
    }

    pub closed spec fn target_vertex(&self) -> i64 {
        self.target
    }

    pub closed spec fn step_limit(&self) -> usize {
        self.max_steps
    }

    pub closed spec fn node_limit(&self) -> usize {
        self.max_nodes
    }

    pub closed spec fn path_limit(&self) -> usize {
        self.max_paths
    }

    /// Neighbor lists supplied so far, per expanded vertex.
    pub closed spec fn observed(&self) -> Map<i64, Seq<i64>> {
        self.observed@
    }

    /// Whether the target has been reached.
    pub closed spec fn reached_target(&self) -> bool {
        self.depth@.contains_key(self.target)
    }

    /// The vertex whose neighbors the search waits for.
    pub closed spec fn awaiting(&self) -> Option<i64> {
        self.current
    }

    pub closed spec fn is_finished(&self) -> bool {
        self.finished
    }

    pub closed spec fn spec_metrics(&self) -> TraversalMetrics {
        self.metrics
    }

    pub closed spec fn wf(&self) -> bool {
        let d = self.depth@;
        let p = self.parents@;
        let o = self.order@;
        let g = self.observed@;
        &&& self.start != self.target
        &&& self.level_start <= self.head <= self.level_end <= o.len()
        &&& self.metrics.visited_vertices == self.head
        &&& d.contains_key(self.start) && d[self.start] == 0
        &&& o.len() >= 1 && o[0] == self.start
        &&& !self.started ==> self.level_end == 0 && self.level == 0 && o.len() == 1
        &&& self.started && !self.finished ==> self.level < self.max_steps
        &&& forall|i: int| 0 <= i < o.len() ==> #[trigger] d.contains_key(o[i])
        &&& forall|v: i64| #[trigger] d.contains_key(v) ==> exists|i: int| 0 <= i < o.len() && o[i] == v
        &&& forall|i: int, j: int| 0 <= i < j < o.len() ==> #[trigger] o[i] != #[trigger] o[j]
        &&& forall|i: int|
            self.level_start <= i < self.level_end ==> #[trigger] d[o[i]] == self.level
        &&& self.started ==> forall|i: int|
            self.level_end <= i < o.len() ==> #[trigger] d[o[i]] == self.level + 1
        &&& forall|v: i64| #[trigger] d.contains_key(v) ==> d[v] <= self.level + 1 && d[v] <= self.max_steps
        &&& forall|v: i64| #[trigger] p.contains_key(v) ==> v != self.start && d.contains_key(v)
        &&& forall|v: i64|
            #[trigger] d.contains_key(v) && v != self.start ==> p.contains_key(v) && p[v]@.len() > 0
                && d[v] >= 1
        &&& forall|v: i64, k: int|
            #[trigger] p.contains_key(v) && 0 <= k < p[v]@.len() ==> d.contains_key(#[trigger] p[v]@[k])
                && d[p[v]@[k]] + 1 == d[v] && has_edge(g, p[v]@[k], v)
        &&& forall|u: i64, w: i64|
            #[trigger] has_edge(g, u, w) ==> d.contains_key(u) && d.contains_key(w) && d[w] <= d[u] + 1
                && (d[w] == d[u] + 1 ==> p.contains_key(w) && p[w]@.contains(u))
        &&& forall|u: i64|
            #[trigger] g.contains_key(u) ==> exists|i: int| 0 <= i < self.head && o[i] == u
        &&& self.found == d.contains_key(self.target)
        &&& !self.finished ==> !self.metrics.cap_reached
        &&& match self.current {
            Some(u) => {
                &&& !self.finished
                &&& self.started
                &&& self.head > self.level_start
                &&& o[self.head - 1] == u
                &&& g.contains_key(u)
            },
            None => true,
        }
    }

    /// A reversed partial path: from the target back along predecessor links.
    closed spec fn back_path(&self, r: Seq<i64>) -> bool {
        let d = self.depth@;
        let p = self.parents@;
        &&& r.len() >= 1
        &&& r[0] == self.target
        &&& d.contains_key(self.target)
        &&& forall|j: int| 0 <= j < r.len() ==> #[trigger] d.contains_key(r[j]) && d[r[j]] + j == d[self.target]
        &&& forall|j: int|
            0 <= j < r.len() - 1 ==> p.contains_key(#[trigger] r[j]) && p[r[j]]@.contains(r[j + 1])
    }

    /// What a finished search reports.
    pub open spec fn result_ok(&self, paths: Seq<Vec<i64>>) -> bool {
        &&& self.is_finished()
        &&& self.spec_metrics().cap_reached ==> paths.len() == 0
        &&& !self.spec_metrics().cap_reached && self.reached_target() ==> paths.len() >= 1
        &&& !self.reached_target() ==> paths.len() == 0
        &&& self.path_limit() > 0 ==> paths.len() <= self.path_limit()
        &&& !self.spec_metrics().cap_reached && self.path_limit() == 0 ==> forall|w: Seq<i64>|
            #[trigger] is_shortest_walk(
                self.observed(),
                self.start_vertex(),
                self.target_vertex(),
                self.step_limit() as int,
                w,
            ) ==> holds_path(paths, w)
        &&& forall|i: int|
            0 <= i < paths.len() ==> is_shortest_walk(
                self.observed(),
                self.start_vertex(),
                self.target_vertex(),
                self.step_limit() as int,
                #[trigger] paths[i]@,
            )
    }

    /// What the caller may rely on after a step.
    pub open spec fn step_ok(&self, step: PathsStep) -> bool {
        match step {
            PathsStep::Expand(v) => {
                &&& self.wf()
                &&& self.awaiting() == Some(v)
                &&& !self.is_finished()
            },
            PathsStep::Done(paths) => self.result_ok(paths@),
        }
    }

    /// Starts a search and returns its first step.
    pub fn begin(start: i64, target: i64, max_steps: usize, max_nodes: usize, max_paths: usize) -> (res: (
        AllPathsSearch,
        PathsStep,
    ))
        ensures
            res.0.step_ok(res.1),
            res.0.start_vertex() == start,
            res.0.target_vertex() == target,
            res.0.step_limit() == max_steps,
            res.0.node_limit() == max_nodes,
            res.0.path_limit() == max_paths,
            forall|v: i64| #[trigger] res.0.observed().contains_key(v) ==> res.0.awaiting() == Some(v)
                && res.0.observed()[v].len() == 0,
            start == target ==> (res.1 matches PathsStep::Done(ps) && ps@.len() == 1 && ps@[0]@
                == seq![start] && res.0.spec_metrics().visited_vertices == 1),
    {
        let mut metrics = TraversalMetrics::new();
        let mut depth: HashMap<i64, usize> = HashMap::new();
        depth.insert(start, 0);
        let mut order: Vec<i64> = Vec::new();
        order.push(start);
        if start == target {
            metrics.visited_vertices = 1;
            let mut only: Vec<i64> = Vec::new();
            only.push(start);
            let mut paths: Vec<Vec<i64>> = Vec::new();
            paths.push(only);
            let mut search = AllPathsSearch {
                start,
                target,
                max_steps,
                max_nodes,
                max_paths,
                depth,
                parents: HashMap::new(),
                order,
                head: 0,
                level_start: 0,
                level_end: 0,
                level: 0,
                started: false,
                found: true,
                current: None,
                finished: true,
                metrics,
                observed: Ghost(Map::empty()),
            };
            proof {
                let p = paths@[0]@;
                assert(p =~= seq![start]);
                assert forall|w: Seq<i64>|
                    #[trigger] is_walk(search.observed@, w) && w[0] == start && w.last() == target
                    implies p.len() <= w.len() by {}
                assert(is_walk(search.observed@, p));
                assert(search.depth@.contains_key(search.target));
                assert forall|w: Seq<i64>|
                    #[trigger] is_shortest_walk(search.observed@, start, target, max_steps as int, w)
                    implies holds_path(paths@, w) by {
                    assert(w.len() <= p.len());
                    assert(w =~= p);
                }
            }
            return (search, PathsStep::Done(paths));
        }
        let mut search = AllPathsSearch {
            start,
            target,
            max_steps,
            max_nodes,
            max_paths,
            depth,
            parents: HashMap::new(),
            order,
            head: 0,
            level_start: 0,
            level_end: 0,
            level: 0,
            started: false,
            found: false,
            current: None,
            finished: false,
            metrics,
            observed: Ghost(Map::empty()),
        };
        proof {
            assert(search.order@[0] == start);
            assert forall|v: i64| #[trigger] search.depth@.contains_key(v) implies exists|i: int|
                0 <= i < search.order@.len() && search.order@[i] == v by {
                assert(search.order@[0] == v);
            }
            assert(search.wf());
        }
        let step = search.advance();
        (search, step)
    }

    /// Opens the next level when the current one is done, and takes the next
    /// vertex to expand; or ends the search.
    fn advance(&mut self) -> (step: PathsStep)
        requires
            old(self).wf(),
            old(self).current is None,
            !old(self).finished,
        ensures
            final(self).step_ok(step),
            final(self).awaiting() is None ==> final(self).observed() == old(self).observed(),
            final(self).awaiting() is Some ==> !old(self).observed().contains_key(final(self).awaiting()->0)
                && final(self).observed() == old(self).observed().insert(
                final(self).awaiting()->0,
                Seq::empty(),
            ),
            final(self).start_vertex() == old(self).start_vertex(),
            final(self).target_vertex() == old(self).target_vertex(),
            final(self).step_limit() == old(self).step_limit(),
            final(self).node_limit() == old(self).node_limit(),
            final(self).path_limit() == old(self).path_limit(),
    {
        if self.head == self.level_end {
            if self.started {
                self.level = self.level + 1;
            }
            self.level_start = self.level_end;
            self.level_end = self.order.len();
            self.started = true;
            proof {
                let d = self.depth@;
                let o = self.order@;
                assert forall|i: int| self.level_start <= i < self.level_end implies #[trigger] d[o[i]]
                    == self.level by {
                    if !old(self).started {
                        assert(i == 0);
                    }
                }
            }
            if self.level_start == self.level_end || self.level >= self.max_steps || self.found {
                self.finished = true;
                assert(self.wf());
                let paths = self.collect_all();
                return PathsStep::Done(paths);
            }
            self.metrics.record_frontier(self.level_end - self.level_start);
            proof {
                assert(self.wf());
            }
        }
        let u = self.order[self.head];
        self.head = self.head + 1;
        self.metrics.visited_vertices = self.metrics.visited_vertices + 1;
        if self.max_nodes > 0 && self.metrics.visited_vertices > self.max_nodes as u64 {
            self.metrics.cap_reached = true;
            self.finished = true;
            return PathsStep::Done(Vec::new());
        }
        proof {
            let h = (self.head - 1) as int;
            if self.observed@.contains_key(u) {
                let i = choose|i: int| 0 <= i < h && self.order@[i] == u;
                assert(self.order@[i] != self.order@[h]);
            }
            let g0 = self.observed@;
            self.observed@ = self.observed@.insert(u, Seq::empty());
            assert forall|a: i64, b: i64| #[trigger] has_edge(self.observed@, a, b) implies has_edge(
                g0,
                a,
                b,
            ) by {
                if a == u {
                    assert(!Seq::<i64>::empty().contains(b));
                }
            }
            assert forall|a: i64| #[trigger] self.observed@.contains_key(a) implies exists|i: int|
                0 <= i < self.head && self.order@[i] == a by {
                if a == u {
                    assert(self.order@[h] == u);
                }
            }
            assert(self.depth@.contains_key(u));
        }
        self.current = Some(u);
        proof {
            assert(self.wf());
        }
        PathsStep::Expand(u)
    }

    /// Takes the neighbor vertices of the vertex being expanded and continues
    /// the search.
    pub fn feed(&mut self, neighbors: &[i64]) -> (step: PathsStep)
        requires
            old(self).wf(),
            old(self).awaiting() is Some,
            old(self).observed()[old(self).awaiting()->0].len() == 0,
        ensures
            final(self).step_ok(step),
            final(self).observed().contains_key(old(self).awaiting()->0),
            final(self).observed()[old(self).awaiting()->0] == neighbors@,
            forall|v: i64| #[trigger] old(self).observed().contains_key(v) && v != old(self).awaiting()->0
                ==> final(self).observed().contains_key(v) && final(self).observed()[v] == old(
                self,
            ).observed()[v],
            forall|v: i64| #[trigger] final(self).observed().contains_key(v) && !old(self).observed().contains_key(v)
                ==> final(self).awaiting() == Some(v) && final(self).observed()[v].len() == 0,
            final(self).awaiting() is Some ==> final(self).observed()[final(self).awaiting()->0].len() == 0,
            final(self).start_vertex() == old(self).start_vertex(),
            final(self).target_vertex() == old(self).target_vertex(),
            final(self).step_limit() == old(self).step_limit(),
            final(self).node_limit() == old(self).node_limit(),
            final(self).path_limit() == old(self).path_limit(),
    {
        let u = match self.current {
            Some(c) => c,
            None => {
                assert(false);
                0
            },
        };
        let ghost g0 = self.observed@;
        assert(neighbors@.take(0) =~= Seq::<i64>::empty());
        assert(g0[u] =~= Seq::<i64>::empty());
        assert(g0.insert(u, neighbors@.take(0)) =~= g0);
        let mut i: usize = 0;
        while i < neighbors.len()
            invariant
                self.wf(),
                self.current == Some(u),
                i <= neighbors.len(),
                self.observed@ == g0.insert(u, neighbors@.take(i as int)),
                g0.contains_key(u),
                g0 == old(self).observed@,
                self.start == old(self).start,
                self.target == old(self).target,
                self.max_steps == old(self).max_steps,
                self.max_nodes == old(self).max_nodes,
                self.max_paths == old(self).max_paths,
            decreases neighbors.len() - i,
        {
            let v = neighbors[i];
            assert(neighbors@.take(i + 1) =~= neighbors@.take(i as int).push(v));
            self.visit(u, v, Ghost(neighbors@.take(i as int)));
            assert(g0.insert(u, neighbors@.take(i as int)).insert(u, neighbors@.take(i + 1)) =~= g0.insert(
                u,
                neighbors@.take(i + 1),
            ));
            i = i + 1;
        }
        assert(neighbors@.take(neighbors.len() as int) =~= neighbors@);
        self.current = None;
        proof {
            assert(self.wf());
        }
        let ghost pre = self.observed@;
        let next = self.advance();
        assert(pre.contains_key(u));
        next
    }

    /// Records that `v` is a neighbor of the vertex `u` being expanded, whose
    /// neighbor list so far is `seen`.
    fn visit(&mut self, u: i64, v: i64, Ghost(seen): Ghost<Seq<i64>>)
        requires
            old(self).wf(),
            old(self).current == Some(u),
            old(self).observed@.contains_key(u),
            old(self).observed@[u] == seen,
        ensures
            final(self).wf(),
            final(self).current == Some(u),
            final(self).observed@ == old(self).observed@.insert(u, seen.push(v)),
            final(self).start == old(self).start,
            final(self).target == old(self).target,
            final(self).max_steps == old(self).max_steps,
            final(self).max_nodes == old(self).max_nodes,
            final(self).max_paths == old(self).max_paths,
    {
        let ghost g0 = self.observed@;
        let ghost d0 = self.depth@;
        let ghost p0 = self.parents@;
        let ghost o0 = self.order@;
        let h = (self.head - 1) as usize;
        proof {
            assert(self.order@[h as int] == u);
            assert(self.depth@[u] == self.level);
            self.observed@ = g0.insert(u, seen.push(v));
            assert forall|a: i64, b: i64| #[trigger] has_edge(g0, a, b) implies has_edge(self.observed@, a, b) by {
                if a == u {
                    let k = choose|k: int| 0 <= k < seen.len() && seen[k] == b;
                    assert(seen.push(v)[k] == b);
                }
            }
        }
        let next_depth = self.level + 1;
        match self.depth.get(&v) {
            None => {
                self.depth.insert(v, next_depth);
                let mut first: Vec<i64> = Vec::new();
                first.push(u);
                self.parents.insert(v, first);
                self.order.push(v);
                if v == self.target {
                    self.found = true;
                }
                proof {
                    let d = self.depth@;
                    let o = self.order@;
                    let n = o0.len() as int;
                    assert(o[n] == v);
                    assert(!p0.contains_key(v));
                    assert forall|i: int| 0 <= i < o.len() implies #[trigger] d.contains_key(o[i]) by {
                        if i < n {
                            assert(o[i] == o0[i]);
                        }
                    }
                    assert forall|x: i64| #[trigger] d.contains_key(x) implies exists|i: int|
                        0 <= i < o.len() && o[i] == x by {
                        if x == v {
                            assert(o[n] == x);
                        } else {
                            let i = choose|i: int| 0 <= i < o0.len() && o0[i] == x;
                            assert(o[i] == x);
                        }
                    }
                    assert forall|i: int, j: int| 0 <= i < j < o.len() implies #[trigger] o[i] != #[trigger] o[j] by {
                        if j == n {
                            assert(d0.contains_key(o0[i]));
                        } else {
                            assert(o[i] == o0[i] && o[j] == o0[j]);
                        }
                    }
                    assert forall|i: int| self.level_start <= i < self.level_end implies #[trigger] d[o[i]]
                        == self.level by {
                        assert(o[i] == o0[i]);
                        assert(d0.contains_key(o0[i]));
                    }
                    assert forall|i: int| self.level_end <= i < o.len() implies #[trigger] d[o[i]]
                        == self.level + 1 by {
                        if i < n {
                            assert(o[i] == o0[i]);
                            assert(d0.contains_key(o0[i]));
                        }
                    }
                    assert forall|x: i64, k: int|
                        #[trigger] self.parents@.contains_key(x) && 0 <= k < self.parents@[x]@.len()
                        implies d.contains_key(#[trigger] self.parents@[x]@[k]) && d[self.parents@[x]@[k]] + 1 == d[x]
                        && has_edge(self.observed@, self.parents@[x]@[k], x) by {
                        if x == v {
                            assert(self.parents@[x]@[k] == u);
                            assert(seen.push(v)[seen.len() as int] == v);
                        } else {
                            assert(self.parents@[x] == p0[x]);
                            assert(has_edge(g0, p0[x]@[k], x));
                        }
                    }
                    assert forall|a: i64, b: i64| #[trigger] has_edge(self.observed@, a, b) implies d.contains_key(a)
                        && d.contains_key(b) && d[b] <= d[a] + 1 && (d[b] == d[a] + 1
                        ==> self.parents@.contains_key(b) && self.parents@[b]@.contains(a)) by {
                        if a == u && !seen.contains(b) {
                            assert(seen.push(v).contains(b));
                            let k = choose|k: int| 0 <= k < seen.push(v).len() && seen.push(v)[k] == b;
                            if k < seen.len() {
                                assert(seen[k] == b);
                            }
                            assert(b == v);
                            assert(self.parents@[b]@[0] == a);
                        } else {
                            assert(has_edge(g0, a, b));
                            assert(b != v);
                            if d[b] == d[a] + 1 {
                                assert(p0.contains_key(b));
                                assert(self.parents@[b] == p0[b]);
                            }
                        }
                    }
                    assert forall|x: i64| #[trigger] self.observed@.contains_key(x) implies exists|i: int|
                        0 <= i < self.head && o[i] == x by {
                        assert(g0.contains_key(x));
                        let i = choose|i: int| 0 <= i < self.head && o0[i] == x;
                        assert(o[i] == o0[i]);
                    }
                    assert(self.wf());
                }
            },
            Some(dv) => {
                let ghost mut pushed = false;
                if *dv == next_depth {
                    let mut list: Vec<i64> = match self.parents.get(&v) {
                        Some(l) => l.clone(),
                        None => {
                            assert(false);
                            Vec::new()
                        },
                    };
                    assert(list@ =~= p0[v]@);
                    if list[list.len() - 1] != u {
                        list.push(u);
                        self.parents.insert(v, list);
                        proof {
                            pushed = true;
                        }
                    } else {
                        assert(p0[v]@[p0[v]@.len() - 1] == u);
                    }
                }
                proof {
                    let d = self.depth@;
                    assert(d == d0);
                    assert(pushed ==> d0[v] == self.level + 1 && self.parents@[v]@ == p0[v]@.push(u));
                    assert(!pushed ==> self.parents@ == p0);
                    assert forall|x: i64, k: int|
                        #[trigger] self.parents@.contains_key(x) && 0 <= k < self.parents@[x]@.len()
                        implies d.contains_key(#[trigger] self.parents@[x]@[k]) && d[self.parents@[x]@[k]] + 1 == d[x]
                        && has_edge(self.observed@, self.parents@[x]@[k], x) by {
                        if pushed && x == v && k == p0[v]@.len() {
                            assert(self.parents@[x]@[k] == u);
                            assert(seen.push(v)[seen.len() as int] == v);
                        } else {
                            assert(self.parents@[x]@[k] == p0[x]@[k]);
                            assert(has_edge(g0, p0[x]@[k], x));
                        }
                    }
                    if d0[v] == self.level + 1 {
                        if pushed {
                            assert(self.parents@[v]@[p0[v]@.len() as int] == u);
                        } else {
                            assert(self.parents@[v]@[p0[v]@.len() - 1] == u);
                        }
                    }
                    assert(d0[v] == self.level + 1 ==> self.parents@.contains_key(v) && self.parents@[v]@.contains(u));
                    assert forall|x: i64| #[trigger] p0.contains_key(x) implies self.parents@.contains_key(x)
                        && forall|y: i64| p0[x]@.contains(y) ==> #[trigger] self.parents@[x]@.contains(y) by {
                        assert forall|y: i64| p0[x]@.contains(y) implies #[trigger] self.parents@[x]@.contains(y) by {
                            if pushed && x == v {
                                let k = choose|k: int| 0 <= k < p0[x]@.len() && p0[x]@[k] == y;
                                assert(self.parents@[x]@[k] == y);
                            }
                        }
                    }
                    assert forall|a: i64, b: i64| #[trigger] has_edge(self.observed@, a, b) implies d.contains_key(a)
                        && d.contains_key(b) && d[b] <= d[a] + 1 && (d[b] == d[a] + 1
                        ==> self.parents@.contains_key(b) && self.parents@[b]@.contains(a)) by {
                        if a == u && !seen.contains(b) {
                            let k = choose|k: int| 0 <= k < seen.push(v).len() && seen.push(v)[k] == b;
                            if k < seen.len() {
                                assert(seen[k] == b);
                            }
                            assert(b == v);
                        } else {
                            assert(has_edge(g0, a, b));
                            if d[b] == d[a] + 1 {
                                assert(p0.contains_key(b) && p0[b]@.contains(a));
                            }
                        }
                    }
                    assert forall|x: i64| #[trigger] self.observed@.contains_key(x) implies exists|i: int|
                        0 <= i < self.head && self.order@[i] == x by {
                        assert(g0.contains_key(x));
                    }
                    let pp = self.parents@;
                    assert forall|x: i64| #[trigger] pp.contains_key(x) implies x != self.start && d.contains_key(x) by {
                        if x != v {
                            assert(p0.contains_key(x));
                        }
                    }
                    assert forall|x: i64| #[trigger] d.contains_key(x) && x != self.start implies pp.contains_key(x)
                        && pp[x]@.len() > 0 && d[x] >= 1 by {
                        assert(p0.contains_key(x));
                    }
                    assert(self.wf());
                }
            },
        }
    }

    /// Enumerates the paths of the predecessor graph from `start` to `target`.
    fn collect_all(&self) -> (paths: Vec<Vec<i64>>)
        requires
            self.wf(),
            self.finished,
            !self.metrics.cap_reached,
            self.current is None,
        ensures
            self.result_ok(paths@),
    {
        let mut paths: Vec<Vec<i64>> = Vec::new();
        if self.found {
            let mut seed: Vec<i64> = Vec::new();
            seed.push(self.target);
            proof {
                assert(self.back_path(seed@));
            }
            let ghost s0 = seed@;
            self.collect(seed, &mut paths);
            proof {
                if self.max_paths == 0 {
                    let p0 = paths@[0]@;
                    assert(self.good_path(p0));
                    assert forall|w: Seq<i64>|
                        #[trigger] is_shortest_walk(
                            self.observed@,
                            self.start,
                            self.target,
                            self.max_steps as int,
                            w,
                        ) implies holds_path(paths@, w) by {
                        self.lemma_shortest_walk_is_back_path(w, p0);
                        let r = w.reverse();
                        assert(r.subrange(0, 1) =~= s0);
                        assert(r.reverse() =~= w);
                    }
                }
            }
        } else {
            proof {
                assert forall|w: Seq<i64>|
                    #[trigger] is_shortest_walk(
                        self.observed@,
                        self.start,
                        self.target,
                        self.max_steps as int,
                        w,
                    ) implies holds_path(paths@, w) by {
                    self.lemma_walk_depth(w, w.len() - 1);
                }
            }
        }
        proof {
            assert forall|i: int| 0 <= i < paths@.len() implies is_shortest_walk(
                self.observed@,
                self.start,
                self.target,
                self.max_steps as int,
                #[trigger] paths@[i]@,
            ) by {
                assert(self.good_path(paths@[i]@));
                self.lemma_shortest(paths@[i]@);
            }
        }
        paths
    }

    /// The counters so far.
    pub fn metrics(&self) -> (m: TraversalMetrics)
        ensures
            m == self.spec_metrics(),
    {
        self.metrics
    }

    /// A path of the predecessor graph is a minimum-hop walk.
    proof fn lemma_shortest(&self, p: Seq<i64>)
        requires
            self.wf(),
            self.found,
            is_walk(self.observed@, p),
            p[0] == self.start,
            p.last() == self.target,
            p.len() == self.depth@[self.target] + 1,
        ensures
            is_shortest_walk(self.observed@, self.start, self.target, self.max_steps as int, p),
    {
        assert forall|w: Seq<i64>|
            #[trigger] is_walk(self.observed@, w) && w[0] == self.start && w.last() == self.target
            implies p.len() <= w.len() by {
            self.lemma_walk_depth(w, w.len() - 1);
        }
    }

    /// A minimum-hop walk from `start` to `target`, read backwards, follows
    /// predecessor links all the way.
    proof fn lemma_shortest_walk_is_back_path(&self, w: Seq<i64>, p: Seq<i64>)
        requires
            self.wf(),
            self.good_path(p),
            is_shortest_walk(self.observed@, self.start, self.target, self.max_steps as int, w),
        ensures
            self.back_path(w.reverse()),
            w.reverse().last() == self.start,
    {
        let n = w.len();
        let dd = self.depth@[self.target];
        self.lemma_walk_depth(w, n - 1);
        assert(n <= p.len());
        assert(n == dd + 1);
        assert forall|i: int| 0 <= i < n implies #[trigger] self.depth@.contains_key(w[i]) && self.depth@[w[i]]
            == i by {
            self.lemma_walk_depth(w, i);
            self.lemma_walk_depth_to_end(w, i);
        }
        let r = w.reverse();
        assert forall|j: int| 0 <= j < r.len() implies #[trigger] self.depth@.contains_key(r[j])
            && self.depth@[r[j]] + j == dd by {
            assert(r[j] == w[n - 1 - j]);
        }
        assert forall|j: int| 0 <= j < r.len() - 1 implies self.parents@.contains_key(#[trigger] r[j])
            && self.parents@[r[j]]@.contains(r[j + 1]) by {
            let i = n - 2 - j;
            assert(r[j] == w[i + 1]);
            assert(r[j + 1] == w[i]);
            assert(has_edge(self.observed@, w[i], w[i + 1]));
            assert(self.depth@[w[i + 1]] == self.depth@[w[i]] + 1);
        }
        assert(r[0] == w[n - 1]);
        assert(r.last() == w[0]);
    }

    /// Along a walk, the last vertex is at most one level deeper per
    /// remaining hop.
    proof fn lemma_walk_depth_to_end(&self, w: Seq<i64>, i: int)
        requires
            self.wf(),
            is_walk(self.observed@, w),
            w[0] == self.start,
            0 <= i < w.len(),
        ensures
            self.depth@.contains_key(w[i]),
            self.depth@[w.last()] <= self.depth@[w[i]] + (w.len() - 1 - i),
        decreases w.len() - i,
    {
        self.lemma_walk_depth(w, i);
        self.lemma_walk_depth(w, w.len() - 1);
        if i < w.len() - 1 {
            self.lemma_walk_depth_to_end(w, i + 1);
            assert(has_edge(self.observed@, w[i], w[i + 1]));
        }
    }

    /// Depths grow by at most one along every supplied edge.
    proof fn lemma_walk_depth(&self, w: Seq<i64>, i: int)
        requires
            self.wf(),
            is_walk(self.observed@, w),
            w[0] == self.start,
            0 <= i < w.len(),
        ensures
            self.depth@.contains_key(w[i]),
            self.depth@[w[i]] <= i,
        decreases i,
    {
        if i > 0 {
            self.lemma_walk_depth(w, i - 1);
            assert(has_edge(self.observed@, w[i - 1], w[i - 1 + 1]));
        }
    }

    /// Extends the reversed partial path `partial` along every predecessor,
    /// most recently discovered first, adding each complete path to `paths`
    /// until `max_paths` are found.
    fn collect(&self, partial: Vec<i64>, paths: &mut Vec<Vec<i64>>)
        requires
            self.wf(),
            self.back_path(partial@),
            self.max_paths > 0 ==> old(paths)@.len() <= self.max_paths,
            forall|i: int|
                0 <= i < old(paths)@.len() ==> #[trigger] self.good_path(old(paths)@[i]@),
        ensures
            final(paths)@.len() >= old(paths)@.len(),
            self.max_paths > 0 ==> final(paths)@.len() <= self.max_paths,
            (self.max_paths == 0 || old(paths)@.len() < self.max_paths) ==> final(paths)@.len()
                > old(paths)@.len(),
            forall|i: int|
                0 <= i < final(paths)@.len() ==> #[trigger] self.good_path(final(paths)@[i]@),
            forall|i: int| 0 <= i < old(paths)@.len() ==> #[trigger] final(paths)@[i]@ == old(paths)@[i]@,
            self.max_paths == 0 ==> forall|r: Seq<i64>|
                #[trigger] self.back_path(r) && r.last() == self.start && partial@.len() <= r.len()
                    && r.subrange(0, partial@.len() as int) == partial@ ==> holds_path(
                    final(paths)@,
                    r.reverse(),
                ),
        decreases self.depth@[partial@.last()],
    {
        if self.max_paths > 0 && paths.len() >= self.max_paths {
            return;
        }
        let head = partial[partial.len() - 1];
        let ghost r = partial@;
        if head == self.start {
            let path = reversed(&partial);
            proof {
                self.lemma_back_path_complete(r, path@);
            }
            let ghost before = paths@;
            paths.push(path);
            proof {
                assert forall|q: Seq<i64>|
                    #[trigger] self.back_path(q) && q.last() == self.start && r.len() <= q.len()
                        && q.subrange(0, r.len() as int) == r implies holds_path(paths@, q.reverse()) by {
                    assert(q[r.len() - 1] == r[r.len() - 1]);
                    assert(self.depth@[q[q.len() - 1]] + (q.len() - 1) == self.depth@[self.target]);
                    assert(self.depth@[r[r.len() - 1]] + (r.len() - 1) == self.depth@[self.target]);
                    assert(q =~= r);
                    assert(paths@[before.len() as int]@ == q.reverse());
                }
            }
            return;
        }
        proof {
            assert(self.depth@.contains_key(head));
            assert(self.depth@[head] + (r.len() - 1) == self.depth@[self.target]);
        }
        let preds: &Vec<i64> = match self.parents.get(&head) {
            Some(l) => l,
            None => {
                assert(false);
                return;
            },
        };
        let mut k = preds.len();
        while k > 0
            invariant
                self.wf(),
                self.back_path(r),
                r.last() == head,
                head != self.start,
                self.parents@.contains_key(head),
                preds@ == self.parents@[head]@,
                k <= preds@.len(),
                partial@ == r,
                paths@.len() >= old(paths)@.len(),
                self.max_paths > 0 ==> paths@.len() <= self.max_paths,
                k < preds@.len() && (self.max_paths == 0 || old(paths)@.len() < self.max_paths)
                    ==> paths@.len() > old(paths)@.len(),
                forall|i: int| 0 <= i < paths@.len() ==> #[trigger] self.good_path(paths@[i]@),
                forall|i: int| 0 <= i < old(paths)@.len() ==> #[trigger] paths@[i]@ == old(paths)@[i]@,
                self.max_paths == 0 ==> forall|q: Seq<i64>|
                    #[trigger] self.back_path(q) && q.last() == self.start && r.len() < q.len()
                        && q.subrange(0, r.len() as int) == r && (exists|x: int|
                        k <= x < preds@.len() && preds@[x] == q[r.len() as int]) ==> holds_path(
                        paths@,
                        q.reverse(),
                    ),
            decreases k,
        {
            let ghost before = paths@;
            k = k - 1;
            let pred = preds[k];
            let mut extended = partial.clone();
            assert(extended@ =~= r);
            extended.push(pred);
            proof {
                let e = extended@;
                assert(self.depth@.contains_key(pred));
                assert(self.depth@[pred] + 1 == self.depth@[head]);
                assert(self.parents@[head]@.contains(pred)) by {
                    assert(self.parents@[head]@[k as int] == pred);
                }
                assert forall|j: int| 0 <= j < e.len() implies #[trigger] self.depth@.contains_key(e[j])
                    && self.depth@[e[j]] + j == self.depth@[self.target] by {
                    if j < r.len() {
                        assert(e[j] == r[j]);
                    }
                }
                assert forall|j: int| 0 <= j < e.len() - 1 implies self.parents@.contains_key(#[trigger] e[j])
                    && self.parents@[e[j]]@.contains(e[j + 1]) by {
                    if j < r.len() - 1 {
                        assert(e[j] == r[j] && e[j + 1] == r[j + 1]);
                    } else {
                        assert(e[j] == head);
                    }
                }
                assert(self.back_path(e));
                assert(e.last() == pred);
            }
            let ghost e = extended@;
            self.collect(extended, paths);
            proof {
                assert forall|i: int| 0 <= i < old(paths)@.len() implies #[trigger] paths@[i]@ == old(
                    paths,
                )@[i]@ by {
                    assert(paths@[i]@ == before[i]@);
                }
                if self.max_paths == 0 {
                    assert forall|q: Seq<i64>|
                        #[trigger] self.back_path(q) && q.last() == self.start && r.len() < q.len()
                            && q.subrange(0, r.len() as int) == r && (exists|x: int|
                            k <= x < preds@.len() && preds@[x] == q[r.len() as int]) implies holds_path(
                        paths@,
                        q.reverse(),
                    ) by {
                        if q[r.len() as int] == pred {
                            assert(q.subrange(0, e.len() as int) =~= e);
                        } else {
                            let x = choose|x: int| k <= x < preds@.len() && preds@[x] == q[r.len() as int];
                            assert(x != k);
                            assert(holds_path(before, q.reverse()));
                            let i = choose|i: int| 0 <= i < before.len() && #[trigger] before[i]@ == q.reverse();
                            assert(paths@[i]@ == before[i]@);
                        }
                    }
                }
            }
        }
        proof {
            if self.max_paths == 0 {
                assert forall|q: Seq<i64>|
                    #[trigger] self.back_path(q) && q.last() == self.start && r.len() <= q.len()
                        && q.subrange(0, r.len() as int) == r implies holds_path(paths@, q.reverse()) by {
                    assert(q[r.len() - 1] == head);
                    assert(q.len() != r.len());
                    let j = r.len() - 1;
                    assert(self.parents@[q[j]]@.contains(q[j + 1]));
                    let x = choose|x: int| 0 <= x < preds@.len() && preds@[x] == q[j + 1];
                }
            }
        }
    }

    /// A finished path: a walk from `start` to `target` of exactly as many
    /// hops as the target's depth.
    closed spec fn good_path(&self, p: Seq<i64>) -> bool {
        &&& self.depth@.contains_key(self.target)
        &&& is_walk(self.observed@, p)
        &&& p[0] == self.start
        &&& p.last() == self.target
        &&& p.len() == self.depth@[self.target] + 1
    }

    proof fn lemma_back_path_complete(&self, r: Seq<i64>, p: Seq<i64>)
        requires
            self.wf(),
            self.back_path(r),
            r.last() == self.start,
            p == r.reverse(),
        ensures
            self.good_path(p),
    {
        let n = r.len();
        assert(self.depth@[r[n - 1]] + (n - 1) == self.depth@[self.target]);
        assert forall|i: int| 0 <= i < p.len() - 1 implies #[trigger] has_edge(self.observed@, p[i], p[i + 1]) by {
            let j = n - 2 - i;
            assert(p[i] == r[j + 1]);
            assert(p[i + 1] == r[j]);
            assert(self.parents@.contains_key(r[j]));
            let k = choose|k: int| 0 <= k < self.parents@[r[j]]@.len() && self.parents@[r[j]]@[k] == r[j + 1];
            assert(has_edge(self.observed@, self.parents@[r[j]]@[k], r[j]));
        }
    }
}

/// `paths` holds the path `p`.
pub open spec fn holds_path(paths: Seq<Vec<i64>>, p: Seq<i64>) -> bool {
    exists|i: int| 0 <= i < paths.len() && #[trigger] paths[i]@ == p
}

/// `v` in reverse order.
fn reversed(v: &Vec<i64>) -> (r: Vec<i64>)
    ensures
        r@ == v@.reverse(),
{
    let mut out: Vec<i64> = Vec::new();
    let mut k = v.len();
    while k > 0
        invariant
            k <= v.len(),
            out@ =~= v@.subrange(k as int, v.len() as int).reverse(),
        decreases k,
    {
        k = k - 1;
        out.push(v[k]);
        assert(v@.subrange(k as int, v.len() as int).reverse() =~= v@.subrange(
            k + 1,
            v.len() as int,
        ).reverse().push(v@[k as int]));
    }
    assert(v@.subrange(0, v.len() as int) =~= v@);
    out
}

} // verus!
