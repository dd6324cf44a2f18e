//! Shortest-path search over a graph whose neighbor lists are supplied one
//! vertex at a time by the caller.
use vstd::prelude::*;
use std::collections::HashMap;

verus! {

broadcast use vstd::std_specs::hash::group_hash_axioms;

/// Per-query traversal counters returned alongside a path result.
#[derive(Debug, Default, Clone, Copy)]
pub struct TraversalMetrics {
    /// Vertices taken from the frontier.
    pub visited_vertices: u64,
    /// Edge entries that passed the edge-type filter.
    pub scanned_edges: u64,
    /// Edge entries that decoded successfully.
    pub decoded_edges: u64,
    /// Largest frontier size seen during the run.
    pub max_frontier_size: u64,
    /// True iff the traversal stopped at the node cap.
    pub cap_reached: bool,
}

impl TraversalMetrics {
    /// All counters zero.
    pub fn new() -> (m: TraversalMetrics)
        ensures
            m.visited_vertices == 0,
            m.scanned_edges == 0,
            m.decoded_edges == 0,
            m.max_frontier_size == 0,
            !m.cap_reached,
    {
        TraversalMetrics {
            visited_vertices: 0,
            scanned_edges: 0,
            decoded_edges: 0,
            max_frontier_size: 0,
            cap_reached: false,
        }
    }

    /// Raise `max_frontier_size` to `size` when `size` is larger.
    pub fn record_frontier(&mut self, size: usize)
        ensures
            final(self).max_frontier_size == if size as u64 > old(self).max_frontier_size {
                size as u64
            } else {
                old(self).max_frontier_size
            },
            final(self).visited_vertices == old(self).visited_vertices,
            final(self).scanned_edges == old(self).scanned_edges,
            final(self).decoded_edges == old(self).decoded_edges,
            final(self).cap_reached == old(self).cap_reached,
    {
        let size = size as u64;
        if size > self.max_frontier_size {
            self.max_frontier_size = size;
        }
    }
}

/// Parent links whose rank strictly falls along every link, so that following
/// them from any vertex ends.
pub open spec fn parent_ranked(parent: Map<i64, i64>, start: i64, rank: Map<i64, nat>) -> bool {
    forall|v: i64|
        #[trigger] parent.contains_key(v) && v != start ==> rank.contains_key(v)
            && rank.contains_key(parent[v]) && rank[parent[v]] < rank[v]
}

/// Following parent links from `v` reaches `start` or a vertex without a
/// parent within `n` links.
pub open spec fn chain_stops(parent: Map<i64, i64>, start: i64, v: i64, n: nat) -> bool
    decreases n,
{
    v == start || !parent.contains_key(v) || (n > 0 && chain_stops(parent, start, parent[v], (n - 1) as nat))
}

/// Ranked parent links stop from every vertex within its rank.
pub proof fn lemma_ranked_chain_stops(parent: Map<i64, i64>, start: i64, rank: Map<i64, nat>, v: i64, n: nat)
    requires
        parent_ranked(parent, start, rank),
        parent.contains_key(v) && v != start ==> rank[v] <= n,
    ensures
        chain_stops(parent, start, v, n),
    decreases n,
{
    if v != start && parent.contains_key(v) {
        let p = parent[v];
        assert(rank[p] < rank[v]);
        if parent.contains_key(p) && p != start {
            assert(rank.contains_key(p));
        }
        lemma_ranked_chain_stops(parent, start, rank, p, (n - 1) as nat);
    }
}

/// The walk from `target` back along parent links, in forward order: it ends
/// at `target`, every vertex after the first is not `start` and has the
/// previous vertex as its parent, and the first vertex is `start` or has no
/// parent.
pub open spec fn is_parent_walk(parent: Map<i64, i64>, start: i64, target: i64, r: Seq<i64>) -> bool {
    &&& r.len() >= 1
    &&& r.last() == target
    &&& forall|i: int|
        1 <= i < r.len() ==> #[trigger] r[i] != start && parent.contains_key(r[i]) && parent[r[i]]
            == r[i - 1]
    &&& (r[0] == start || !parent.contains_key(r[0]))
}

/// Rebuilds the path to `target` by following parent links back to `start`.
pub fn reconstruct_path(parent: &HashMap<i64, i64>, start: i64, target: i64) -> (r: Vec<i64>)
    requires
        exists|n: nat| chain_stops(parent@, start, target, n),
    ensures
        is_parent_walk(parent@, start, target, r@),
{
    let ghost mut fuel: nat = choose|n: nat| chain_stops(parent@, start, target, n);
    let mut back: Vec<i64> = Vec::new();
    back.push(target);
    let mut curr = target;
    loop
        invariant
            chain_stops(parent@, start, curr, fuel),
            back@.len() >= 1,
            back@[0] == target,
            curr == back@.last(),
            forall|i: int|
                0 <= i < back@.len() - 1 ==> #[trigger] back@[i] != start && parent@.contains_key(
                    back@[i],
                ) && parent@[back@[i]] == back@[i + 1],
        ensures
            back@.len() >= 1,
            back@[0] == target,
            curr == back@.last(),
            curr == start || !parent@.contains_key(curr),
            forall|i: int|
                0 <= i < back@.len() - 1 ==> #[trigger] back@[i] != start && parent@.contains_key(
                    back@[i],
                ) && parent@[back@[i]] == back@[i + 1],
        decreases fuel,
    {
        if curr == start {
            break;
        }
        match parent.get(&curr) {
            Some(p) => {
                let p = *p;
                proof {
                    assert(parent@.contains_key(curr));
                }
                let ghost prev = curr;
                curr = p;
                back.push(curr);
                proof {
                    assert(prev != start);
                    assert(fuel > 0 && chain_stops(parent@, start, curr, (fuel - 1) as nat));
                    fuel = (fuel - 1) as nat;
                }
            },
            None => {
                break;
            },
        }
    }
    let mut r: Vec<i64> = Vec::new();
    let mut k: usize = back.len();
    while k > 0
        invariant
            k <= back.len(),
            back@.len() >= 1,
            back@[0] == target,
            curr == back@.last(),
            curr == start || !parent@.contains_key(curr),
            forall|i: int|
                0 <= i < back@.len() - 1 ==> #[trigger] back@[i] != start && parent@.contains_key(
                    back@[i],
                ) && parent@[back@[i]] == back@[i + 1],
            r@.len() == back.len() - k,
            forall|j: int| 0 <= j < r@.len() ==> r@[j] == back@[back@.len() - 1 - j],
        decreases k,
    {
        k = k - 1;
        r.push(back[k]);
    }
    assert forall|i: int| 1 <= i < r@.len() implies #[trigger] r@[i] != start
        && parent@.contains_key(r@[i]) && parent@[r@[i]] == r@[i - 1] by {
        let j = back@.len() - 1 - i;
        assert(r@[i] == back@[j]);
        assert(r@[i - 1] == back@[j + 1]);
    }
    r
}

/// Whether `g` has an edge from `a` to `b`: `b` is among the neighbors of `a`.
pub open spec fn has_edge(g: Map<i64, Seq<i64>>, a: i64, b: i64) -> bool {
    g.contains_key(a) && g[a].contains(b)
}

/// `w` is a walk in `g`: consecutive vertices are joined by edges.
pub open spec fn is_walk(g: Map<i64, Seq<i64>>, w: Seq<i64>) -> bool {
    w.len() >= 1 && forall|i: int| 0 <= i < w.len() - 1 ==> #[trigger] has_edge(g, w[i], w[i + 1])
}

/// What the search needs next.
pub enum SearchStep {
    /// The caller supplies the neighbor vertices of this vertex to `feed`.
    Expand(i64),
    /// The search is over, with the path found, if any.
    Done(Option<Vec<i64>>),
}

/// Breadth-first search for a minimum-hop path from `start` to `target` of at
/// most `max_steps` hops, expanding at most `max_nodes` vertices (0: no cap).
pub struct ShortestPathSearch {
    start: i64,
    target: i64,
    max_steps: usize,
    max_nodes: usize,
    queue: Vec<(i64, usize)>,
    head: usize,
    parent: HashMap<i64, i64>,
    metrics: TraversalMetrics,
    current: Option<(i64, usize)>,
    finished: bool,
    depth: Ghost<Map<i64, nat>>,
    observed: Ghost<Map<i64, Seq<i64>>>,
    level: Ghost<nat>,
}

impl ShortestPathSearch {
    pub closed spec fn start_vertex(&self) -> i64 {
        self.start
    }

    pub closed spec fn target_vertex(&self) -> i64 {
        self.target
    }

    pub closed spec fn step_limit(&self) -> usize {
        self.max_steps
    }

    pub closed spec fn node_limit(&self) -> usize {
        self.max_nodes
    }

    /// Neighbor lists supplied so far, per expanded vertex.
    pub closed spec fn observed(&self) -> Map<i64, Seq<i64>> {
        self.observed@
    }

    /// Whether `v` has been reached.
    pub closed spec fn visited(&self, v: i64) -> bool {
        v == self.start || self.parent@.contains_key(v)
    }

    /// Hops from `start` at which `v` was first reached.
    pub closed spec fn depth_of(&self, v: i64) -> nat {
        self.depth@[v]
    }

    /// The vertex whose neighbors the search waits for.
    pub closed spec fn awaiting(&self) -> Option<i64> {
        match self.current {
            Some((u, _)) => Some(u),
            None => None,
        }
    }

    pub closed spec fn is_finished(&self) -> bool {
        self.finished
    }

    pub closed spec fn spec_metrics(&self) -> TraversalMetrics {
        self.metrics
    }

    pub closed spec fn wf(&self) -> bool {
        let q = self.queue@;
        let d = self.depth@;
        let g = self.observed@;
        &&& self.start != self.target
        &&& self.head <= q.len()
        &&& self.metrics.visited_vertices == self.head
        &&& forall|v: i64| #[trigger] d.contains_key(v) <==> self.visited(v)
        &&& d.contains_key(self.start) && d[self.start] == 0
        &&& !self.parent@.contains_key(self.start)
        &&& forall|v: i64|
            #[trigger] self.parent@.contains_key(v) ==> d.contains_key(self.parent@[v]) && d[v]
                == d[self.parent@[v]] + 1 && has_edge(g, self.parent@[v], v)
        &&& forall|v: i64| #[trigger] d.contains_key(v) ==> d[v] <= self.max_steps && d[v]
            <= self.level@ + 1
        &&& forall|i: int|
            0 <= i < q.len() ==> #[trigger] d.contains_key(q[i].0) && q[i].1 == d[q[i].0]
        &&& forall|v: i64| #[trigger] d.contains_key(v) ==> exists|i: int| 0 <= i < q.len() && q[i].0 == v
        &&& forall|i: int| 0 <= i < self.head ==> #[trigger] q[i].1 <= self.level@
        &&& forall|i: int| self.head <= i < q.len() ==> self.level@ <= #[trigger] q[i].1
        &&& forall|i: int, j: int| self.head <= i <= j < q.len() ==> #[trigger] q[i].1 <= #[trigger] q[j].1
        &&& forall|i: int, j: int| 0 <= i < j < q.len() ==> #[trigger] q[i].0 != #[trigger] q[j].0
        &&& forall|u: i64|
            #[trigger] g.contains_key(u) ==> exists|i: int| 0 <= i < self.head && q[i].0 == u
        &&& forall|u: i64|
            #[trigger] g.contains_key(u) ==> d.contains_key(u) && d[u] < self.max_steps
        &&& forall|u: i64, w: i64|
            #[trigger] has_edge(g, u, w) ==> d.contains_key(w) && d[w] <= d[u] + 1
        &&& !self.metrics.cap_reached ==> forall|i: int|
            0 <= i < self.head && #[trigger] q[i].1 < self.max_steps ==> g.contains_key(q[i].0)
        &&& !self.finished ==> !self.visited(self.target)
        &&& !self.finished ==> !self.metrics.cap_reached
        &&& match self.current {
            Some((u, s)) => {
                &&& !self.finished
                &&& self.head > 0
                &&& q[self.head - 1] == (u, s)
                &&& s == self.level@
                &&& s < self.max_steps
                &&& g.contains_key(u)
            },
            None => true,
        }
    }

    /// Whether the search ran out of vertices without hitting the cap.
    pub closed spec fn exhausted(&self) -> bool {
        &&& self.wf()
        &&& self.finished
        &&& !self.metrics.cap_reached
        &&& self.head == self.queue@.len()
        &&& !self.visited(self.target)
        &&& self.current is None
    }

    /// What the caller may rely on after a step.
    pub open spec fn step_ok(&self, step: SearchStep) -> bool {
        match step {
            SearchStep::Expand(v) => {
                &&& self.wf()
                &&& self.awaiting() == Some(v)
                &&& !self.is_finished()
            },
            SearchStep::Done(Some(p)) => {
                &&& self.is_finished()
                &&& is_shortest_walk(
                    self.observed(),
                    self.start_vertex(),
                    self.target_vertex(),
                    self.step_limit() as int,
                    p@,
                )
            },
            SearchStep::Done(None) => {
                &&& self.is_finished()
                &&& (self.spec_metrics().cap_reached || self.exhausted())
            },
        }
    }

    /// Takes vertices from the frontier until one is to be expanded or the
    /// search ends.
    fn advance(&mut self) -> (step: SearchStep)
        requires
            old(self).wf(),
            old(self).current is None,
            !old(self).finished,
        ensures
            final(self).step_ok(step),
            forall|v: i64| #[trigger] old(self).observed().contains_key(v) ==> final(self).observed().contains_key(v)
                && final(self).observed()[v] == old(self).observed()[v],
            forall|v: i64| #[trigger] final(self).observed().contains_key(v) && !old(self).observed().contains_key(v)
                ==> final(self).awaiting() == Some(v) && final(self).observed()[v].len() == 0,
            final(self).awaiting() is Some ==> final(self).observed()[final(self).awaiting()->0].len() == 0,
            final(self).start_vertex() == old(self).start_vertex(),
            final(self).target_vertex() == old(self).target_vertex(),
            final(self).step_limit() == old(self).step_limit(),
            final(self).node_limit() == old(self).node_limit(),
    {
        loop
            invariant
                self.wf(),
                self.current is None,
                !self.finished,
                self.start == old(self).start,
                self.target == old(self).target,
                self.max_steps == old(self).max_steps,
                self.max_nodes == old(self).max_nodes,
                self.observed@ == old(self).observed@,
            decreases self.queue@.len() - self.head,
        {
            if self.head == self.queue.len() {
                self.finished = true;
                return SearchStep::Done(None);
            }
            let (cur, step) = self.queue[self.head];
            proof {
                self.level@ = step as nat;
            }
            self.head = self.head + 1;
            self.metrics.visited_vertices = self.metrics.visited_vertices + 1;
            if self.max_nodes > 0 && self.metrics.visited_vertices > self.max_nodes as u64 {
                self.metrics.cap_reached = true;
                self.finished = true;
                return SearchStep::Done(None);
            }
            if step >= self.max_steps {
                continue;
            }
            proof {
                let h = (self.head - 1) as int;
                if self.observed@.contains_key(cur) {
                    let i = choose|i: int| 0 <= i < h && self.queue@[i].0 == cur;
                    assert(self.queue@[i].0 != self.queue@[h].0);
                }
                assert(self.queue@[h] == (cur, step));
                assert(self.depth@.contains_key(self.queue@[h].0));
                assert(self.depth@.contains_key(cur) && self.depth@[cur] == step);
                let g0 = self.observed@;
                self.observed@ = self.observed@.insert(cur, Seq::empty());
                assert forall|u: i64, w: i64| #[trigger]
                    has_edge(self.observed@, u, w) implies has_edge(g0, u, w) by {
                    if u == cur {
                        assert(!Seq::<i64>::empty().contains(w));
                    }
                }
            }
            self.current = Some((cur, step));
            proof {
                let q = self.queue@;
                let d = self.depth@;
                let g = self.observed@;
                assert(forall|v: i64| #[trigger] d.contains_key(v) ==> d[v] <= self.max_steps && d[v]
                    <= self.level@ + 1);
                assert(forall|i: int| 0 <= i < self.head ==> #[trigger] q[i].1 <= self.level@);
                assert(forall|i: int| self.head <= i < q.len() ==> self.level@ <= #[trigger] q[i].1);
                assert(forall|u: i64|
                    #[trigger] g.contains_key(u) ==> exists|i: int| 0 <= i < self.head && q[i].0 == u);
                assert(forall|v: i64|
                    #[trigger] self.parent@.contains_key(v) ==> has_edge(g, self.parent@[v], v));
                assert(forall|i: int|
                    0 <= i < self.head && #[trigger] q[i].1 < self.max_steps ==> g.contains_key(q[i].0));
                assert(self.wf());
            }
            return SearchStep::Expand(cur);
        }
    }

    /// Starts a search and returns its first step.
    pub fn begin(start: i64, target: i64, max_steps: usize, max_nodes: usize) -> (res: (
        ShortestPathSearch,
        SearchStep,
    ))
        ensures
            res.0.step_ok(res.1),
            res.0.start_vertex() == start,
            res.0.target_vertex() == target,
            res.0.step_limit() == max_steps,
            res.0.node_limit() == max_nodes,
            forall|v: i64| #[trigger] res.0.observed().contains_key(v) ==> res.0.awaiting() == Some(v)
                && res.0.observed()[v].len() == 0,
            start == target ==> (res.1 matches SearchStep::Done(Some(p)) && p@ == seq![start]
                && res.0.spec_metrics().visited_vertices == 1),
    {
        let mut metrics = TraversalMetrics::new();
        if start == target {
            metrics.visited_vertices = 1;
            let search = ShortestPathSearch {
                start,
                target,
                max_steps,
                max_nodes,
                queue: Vec::new(),
                head: 0,
                parent: HashMap::new(),
                metrics,
                current: None,
                finished: true,
                depth: Ghost(Map::empty()),
                observed: Ghost(Map::empty()),
                level: Ghost(0),
            };
            let path = vec![start];
            proof {
                assert(is_walk(search.observed@, path@));
                assert(path@ =~= seq![start]);
            }
            return (search, SearchStep::Done(Some(path)));
        }
        metrics.record_frontier(1);
        let mut queue: Vec<(i64, usize)> = Vec::new();
        queue.push((start, 0));
        let mut search = ShortestPathSearch {
            start,
            target,
            max_steps,
            max_nodes,
            queue,
            head: 0,
            parent: HashMap::new(),
            metrics,
            current: None,
            finished: false,
            depth: Ghost(Map::empty().insert(start, 0nat)),
            observed: Ghost(Map::empty()),
            level: Ghost(0),
        };
        proof {
            assert(search.queue@[0].0 == start);
        }
        let step = search.advance();
        (search, step)
    }

    /// Handles one neighbor `dst` of the vertex being expanded, whose
    /// neighbors so far were `seen`; returns the path when `dst` is the target.
    #[verifier::rlimit(40)]
    fn visit_neighbor(&mut self, dst: i64, Ghost(seen): Ghost<Seq<i64>>) -> (found: Option<Vec<i64>>)
        requires
            old(self).wf(),
            old(self).current is Some,
            old(self).observed@[old(self).awaiting()->0] == seen,
        ensures
            final(self).observed@ == old(self).observed@.insert(old(self).awaiting()->0, seen.push(dst)),
            final(self).start == old(self).start,
            final(self).target == old(self).target,
            final(self).max_steps == old(self).max_steps,
            final(self).max_nodes == old(self).max_nodes,
            found is None ==> final(self).wf() && final(self).current == old(self).current,
            found matches Some(p) ==> final(self).finished && final(self).current is None
                && is_shortest_walk(final(self).observed@, final(self).start, final(self).target, final(self).max_steps as int, p@),
    {
        let (u, step) = match self.current {
            Some(c) => c,
            None => {
                assert(false);
                (0, 0)
            },
        };
        let ghost g1 = self.observed@;
        proof {
            self.observed@ = self.observed@.insert(u, seen.push(dst));
            assert(self.depth@.contains_key(u));
        }
        if dst != self.start && !self.parent.contains_key(&dst) {
            let ghost d0 = self.depth@;
            assert(!d0.contains_key(dst));
            self.parent.insert(dst, u);
            proof {
                self.depth@ = self.depth@.insert(dst, (step + 1) as nat);
            }
            let ghost q0 = self.queue@;
            self.queue.push((dst, step + 1));
            proof {
                let q = self.queue@;
                let n = q.len() - 1;
                assert(q[n].0 == dst && q[n].1 == step + 1);
                assert forall|v: i64| #[trigger] self.depth@.contains_key(v) implies exists|
                    j: int,
                | 0 <= j < q.len() && q[j].0 == v by {
                    if v == dst {
                        assert(q[n].0 == v);
                    } else {
                        let j = choose|j: int| 0 <= j < q0.len() && q0[j].0 == v;
                        assert(q[j] == q0[j]);
                    }
                }
                assert forall|a: int, b: int| self.head <= a <= b < q.len() implies #[trigger] q[a].1
                    <= #[trigger] q[b].1 by {
                    if b == n {
                        if a < n {
                            assert(q[a] == q0[a]);
                            assert(d0.contains_key(q0[a].0));
                            assert(q0[a].0 != dst);
                            assert(q0[a].1 == d0[q0[a].0]);
                            assert(d0[q0[a].0] <= self.level@ + 1);
                        }
                    } else {
                        assert(q[a] == q0[a] && q[b] == q0[b]);
                    }
                }
                assert forall|j: int| 0 <= j < q.len() implies #[trigger] self.depth@.contains_key(
                    q[j].0,
                ) && q[j].1 == self.depth@[q[j].0] by {
                    if j < n {
                        assert(q[j] == q0[j]);
                        assert(d0.contains_key(q0[j].0));
                    }
                }
                assert(self.observed@[u][seen.len() as int] == dst);
                assert(has_edge(self.observed@, u, dst));
                let g = self.observed@;
                assert forall|v: i64| #[trigger] self.parent@.contains_key(v) implies self.depth@.contains_key(
                    self.parent@[v],
                ) && self.depth@[v] == self.depth@[self.parent@[v]] + 1 && has_edge(
                    g,
                    self.parent@[v],
                    v,
                ) by {
                    if v != dst {
                        assert(has_edge(g1, self.parent@[v], v));
                        assert(d0.contains_key(self.parent@[v]));
                        if self.parent@[v] == u {
                            let k = choose|k: int| 0 <= k < g1[u].len() && g1[u][k] == v;
                            assert(g[u][k] == v);
                        }
                    }
                }
                assert forall|x: i64| #[trigger] g.contains_key(x) implies exists|j: int|
                    0 <= j < self.head && q[j].0 == x by {
                    assert(g1.contains_key(x));
                    let j = choose|j: int| 0 <= j < self.head && q0[j].0 == x;
                    assert(q[j] == q0[j]);
                }
                assert forall|x: i64, w: i64| #[trigger] has_edge(g, x, w) implies self.depth@.contains_key(w)
                    && self.depth@[w] <= self.depth@[x] + 1 by {
                    if x == u && w == dst {
                    } else if x == u {
                        let k = choose|k: int| 0 <= k < g[u].len() && g[u][k] == w;
                        assert(k < seen.len());
                        assert(g1[u][k] == w);
                        assert(has_edge(g1, x, w));
                    } else {
                        assert(has_edge(g1, x, w));
                    }
                }
            }
            if dst == self.target {
                self.finished = true;
                self.current = None;
                proof {
                    let q = self.queue@;
                    let d = self.depth@;
                    let g = self.observed@;
                    assert(self.head <= q.len());
                    assert(forall|v: i64| #[trigger] d.contains_key(v) <==> self.visited(v));
                    assert(d.contains_key(self.start) && d[self.start] == 0);
                    assert(forall|v: i64|
                        #[trigger] self.parent@.contains_key(v) ==> d.contains_key(self.parent@[v]) && d[v]
                            == d[self.parent@[v]] + 1 && has_edge(g, self.parent@[v], v));
                    assert(forall|v: i64| #[trigger] d.contains_key(v) ==> d[v] <= self.max_steps && d[v]
                        <= self.level@ + 1);
                    assert(forall|i: int|
                        0 <= i < q.len() ==> #[trigger] d.contains_key(q[i].0) && q[i].1 == d[q[i].0]);
                    assert(forall|v: i64| #[trigger] d.contains_key(v) ==> exists|i: int| 0 <= i < q.len() && q[i].0 == v);
                    assert(forall|i: int| self.head <= i < q.len() ==> self.level@ <= #[trigger] q[i].1);
                    assert(forall|i: int, j: int| self.head <= i <= j < q.len() ==> #[trigger] q[i].1 <= #[trigger] q[j].1);
                    assert(forall|i: int, j: int| 0 <= i < j < q.len() ==> #[trigger] q[i].0 != #[trigger] q[j].0);
                    assert(forall|u: i64|
                        #[trigger] g.contains_key(u) ==> exists|i: int| 0 <= i < self.head && q[i].0 == u);
                    assert(forall|u: i64, w: i64|
                        #[trigger] has_edge(g, u, w) ==> d.contains_key(w) && d[w] <= d[u] + 1);
                    assert(!self.metrics.cap_reached ==> forall|i: int|
                        0 <= i < self.head && #[trigger] q[i].1 < self.max_steps ==> g.contains_key(q[i].0));
                    assert(parent_ranked(self.parent@, self.start, self.depth@));
                    if self.parent@.contains_key(self.target) && self.target != self.start {
                        lemma_ranked_chain_stops(self.parent@, self.start, self.depth@, self.target, self.depth@[self.target]);
                    } else {
                        lemma_ranked_chain_stops(self.parent@, self.start, self.depth@, self.target, 0);
                    }
                }
                let path = reconstruct_path(&self.parent, self.start, self.target);
                proof {
                    self.lemma_path_from_parents(path@);
                    assert forall|w: Seq<i64>|
                        #[trigger] is_walk(self.observed@, w) && w[0] == self.start && w.last()
                            == self.target implies path@.len() <= w.len() by {
                        self.lemma_walk_depth(w, w.len() - 1);
                    }
                }
                return Some(path);
            }
            let live = self.queue.len() - self.head;
            self.metrics.record_frontier(live);
            proof {
                let q = self.queue@;
                let d = self.depth@;
                let g = self.observed@;
                assert(forall|v: i64| #[trigger] d.contains_key(v) <==> self.visited(v));
                assert(forall|v: i64| #[trigger] d.contains_key(v) ==> d[v] <= self.max_steps && d[v]
                    <= self.level@ + 1);
                assert(forall|i: int| self.head <= i < q.len() ==> self.level@ <= #[trigger] q[i].1);
                assert(forall|i: int, j: int| 0 <= i < j < q.len() ==> #[trigger] q[i].0 != #[trigger] q[j].0);
                assert(forall|i: int| 0 <= i < self.head ==> #[trigger] q[i].1 <= self.level@);
                assert(!self.metrics.cap_reached ==> forall|i: int|
                    0 <= i < self.head && #[trigger] q[i].1 < self.max_steps ==> g.contains_key(q[i].0));
                assert(forall|u: i64|
                    #[trigger] g.contains_key(u) ==> d.contains_key(u) && d[u] < self.max_steps);
            }
        } else {
            proof {
                let g = self.observed@;
                assert(self.depth@.contains_key(dst));
                assert(self.depth@[u] == step);
                assert(self.observed@[u][seen.len() as int] == dst);
                assert forall|x: i64, w: i64| #[trigger] has_edge(g, x, w) implies self.depth@.contains_key(w)
                    && self.depth@[w] <= self.depth@[x] + 1 by {
                    if x == u && w == dst {
                    } else if x == u {
                        let k = choose|k: int| 0 <= k < g[u].len() && g[u][k] == w;
                        assert(k < seen.len());
                        assert(g1[u][k] == w);
                        assert(has_edge(g1, x, w));
                    } else {
                        assert(has_edge(g1, x, w));
                    }
                }
                assert forall|v: i64| #[trigger] self.parent@.contains_key(v) implies has_edge(
                    g,
                    self.parent@[v],
                    v,
                ) by {
                    assert(has_edge(g1, self.parent@[v], v));
                    if self.parent@[v] == u {
                        let k = choose|k: int| 0 <= k < g1[u].len() && g1[u][k] == v;
                        assert(g[u][k] == v);
                    }
                }
            }
        }
        None
    }

    /// Takes the neighbor vertices of the vertex being expanded, in the order
    /// the store returns them, and continues the search.
    pub fn feed(&mut self, neighbors: &[i64]) -> (step: SearchStep)
        requires
            old(self).wf(),
            old(self).awaiting() is Some,
            old(self).observed()[old(self).awaiting()->0].len() == 0,
        ensures
            final(self).step_ok(step),
            final(self).observed().contains_key(old(self).awaiting()->0),
            !(step matches SearchStep::Done(Some(_))) ==> final(self).observed()[old(
                self,
            ).awaiting()->0] == neighbors@,
            forall|v: i64| #[trigger] old(self).observed().contains_key(v) && v != old(self).awaiting()->0
                ==> final(self).observed().contains_key(v) && final(self).observed()[v] == old(
                self,
            ).observed()[v],
            forall|v: i64| #[trigger] final(self).observed().contains_key(v) && !old(self).observed().contains_key(v)
                ==> final(self).awaiting() == Some(v) && final(self).observed()[v].len() == 0,
            final(self).awaiting() is Some ==> final(self).observed()[final(self).awaiting()->0].len() == 0,
            final(self).start_vertex() == old(self).start_vertex(),
            final(self).target_vertex() == old(self).target_vertex(),
            final(self).step_limit() == old(self).step_limit(),
            final(self).node_limit() == old(self).node_limit(),
    {
        let (u, step) = match self.current {
            Some(c) => c,
            None => {
                assert(false);
                (0, 0)
            },
        };
        let ghost g0 = self.observed@;
        let mut i: usize = 0;
        assert(neighbors@.take(0) =~= Seq::<i64>::empty());
        assert(g0[u] =~= Seq::<i64>::empty());
        assert(g0.insert(u, neighbors@.take(0)) =~= g0);
        while i < neighbors.len()
            invariant
                self.wf(),
                self.current == Some((u, step)),
                i <= neighbors.len(),
                self.observed@ == g0.insert(u, neighbors@.take(i as int)),
                g0.contains_key(u),
                g0 == old(self).observed@,
                old(self).current == Some((u, step)),
                self.start == old(self).start,
                self.target == old(self).target,
                self.max_steps == old(self).max_steps,
                self.max_nodes == old(self).max_nodes,
            decreases neighbors.len() - i,
        {
            let dst = neighbors[i];
            assert(neighbors@.take(i + 1) =~= neighbors@.take(i as int).push(dst));
            match self.visit_neighbor(dst, Ghost(neighbors@.take(i as int))) {
                Some(path) => {
                    return SearchStep::Done(Some(path));
                },
                None => {},
            }
            assert(g0.insert(u, neighbors@.take(i as int)).insert(u, neighbors@.take(i + 1)) =~= g0.insert(
                u,
                neighbors@.take(i + 1),
            ));
            i = i + 1;
        }
        let ghost before = *self;
        self.current = None;
        proof {
            Self::lemma_wf_without_current(before, *self);
        }
        assert(neighbors@.take(neighbors.len() as int) =~= neighbors@);
        let ghost pre = *self;
        let next = self.advance();
        assert(pre.observed().contains_key(u));
        next
    }

    proof fn lemma_exhausted_walk(
        &self,
        graph: Map<i64, Seq<i64>>,
        w: Seq<i64>,
        i: int,
    )
        requires
            self.exhausted(),
            forall|v: i64, x: i64|
                self.observed@.contains_key(v) && #[trigger] has_edge(graph, v, x) ==> has_edge(
                    self.observed@,
                    v,
                    x,
                ),
            is_walk(graph, w),
            w[0] == self.start,
            w.len() <= self.max_steps + 1,
            0 <= i < w.len(),
        ensures
            self.depth@.contains_key(w[i]),
            self.depth@[w[i]] <= i,
        decreases i,
    {
        if i > 0 {
            self.lemma_exhausted_walk(graph, w, i - 1);
            let v = w[i - 1];
            let j = choose|j: int| 0 <= j < self.queue@.len() && self.queue@[j].0 == v;
            assert(self.queue@[j].1 < self.max_steps);
            assert(self.observed@.contains_key(v));
            assert(has_edge(graph, w[i - 1], w[i - 1 + 1]));
            assert(has_edge(self.observed@, v, w[i]));
        }
    }

    proof fn lemma_wf_without_current(a: Self, b: Self)
        requires
            a.wf(),
            b == (ShortestPathSearch { current: None, ..a }),
        ensures
            b.wf(),
    {
        assert(b.queue@ == a.queue@);
        assert(b.depth@ == a.depth@);
        assert(b.observed@ == a.observed@);
        assert(b.parent@ == a.parent@);
        assert(b.level@ == a.level@);
        assert(forall|v: i64| b.visited(v) == a.visited(v));
    }

    /// The counters so far.
    pub fn metrics(&self) -> (m: TraversalMetrics)
        ensures
            m == self.spec_metrics(),
    {
        self.metrics
    }

    /// Every vertex reached is at most `depth_of` hops from start along a
    /// walk, and depths grow by at most one along every supplied edge.
    proof fn lemma_walk_depth(&self, w: Seq<i64>, i: int)
        requires
            self.wf(),
            is_walk(self.observed@, w),
            w[0] == self.start,
            0 <= i < w.len(),
        ensures
            self.depth@.contains_key(w[i]),
            self.depth@[w[i]] <= i,
        decreases i,
    {
        if i > 0 {
            self.lemma_walk_depth(w, i - 1);
            assert(has_edge(self.observed@, w[i - 1], w[i - 1 + 1]));
        }
    }

    proof fn lemma_path_from_parents(&self, r: Seq<i64>)
        requires
            self.wf(),
            self.depth@.contains_key(r.last()),
            is_parent_walk(self.parent@, self.start, r.last(), r),
        ensures
            r[0] == self.start,
            is_walk(self.observed@, r),
            r.len() == self.depth@[r.last()] + 1,
            forall|i: int| 0 <= i < r.len() ==> #[trigger] self.depth@.contains_key(r[i])
                && self.depth@[r[i]] == i,
    {
        assert forall|k: int| 0 <= k < r.len() implies #[trigger] self.depth@.contains_key(
            r[r.len() - 1 - k],
        ) by {
            self.lemma_parent_walk_visited(r, k);
        }
        assert(self.depth@.contains_key(r[r.len() - 1 - (r.len() - 1)]));
        assert(r[0] == self.start);
        assert forall|i: int| 0 <= i < r.len() implies #[trigger] self.depth@.contains_key(r[i])
            && self.depth@[r[i]] == i by {
            self.lemma_parent_walk_depth(r, i);
        }
        assert forall|i: int| 0 <= i < r.len() - 1 implies #[trigger] has_edge(
            self.observed@,
            r[i],
            r[i + 1],
        ) by {
            assert(self.parent@.contains_key(r[i + 1]));
        }
    }

    proof fn lemma_parent_walk_visited(&self, r: Seq<i64>, k: int)
        requires
            self.wf(),
            self.depth@.contains_key(r.last()),
            is_parent_walk(self.parent@, self.start, r.last(), r),
            0 <= k < r.len(),
        ensures
            self.depth@.contains_key(r[r.len() - 1 - k]),
        decreases k,
    {
        if k > 0 {
            self.lemma_parent_walk_visited(r, k - 1);
            let j = r.len() - 1 - (k - 1);
            assert(self.parent@.contains_key(r[j]));
            assert(self.parent@[r[j]] == r[j - 1]);
        }
    }

    proof fn lemma_parent_walk_depth(&self, r: Seq<i64>, i: int)
        requires
            self.wf(),
            r[0] == self.start,
            forall|k: int| 0 <= k < r.len() ==> #[trigger] self.depth@.contains_key(r[k]),
            is_parent_walk(self.parent@, self.start, r.last(), r),
            0 <= i < r.len(),
        ensures
            self.depth@[r[i]] == i,
        decreases i,
    {
        if i > 0 {
            self.lemma_parent_walk_depth(r, i - 1);
            assert(self.parent@.contains_key(r[i]));
        }
    }
}

/// `p` is a minimum-hop walk in `g` from `start` to `target` of at most
/// `max_steps` hops.
pub open spec fn is_shortest_walk(
    g: Map<i64, Seq<i64>>,
    start: i64,
    target: i64,
    max_steps: int,
    p: Seq<i64>,
) -> bool {
    &&& is_walk(g, p)
    &&& p[0] == start
    &&& p.last() == target
    &&& p.len() <= max_steps + 1
    &&& forall|w: Seq<i64>|
        #[trigger] is_walk(g, w) && w[0] == start && w.last() == target ==> p.len() <= w.len()
}

/// Law: a search that ended without reaching the target and without hitting
/// its node cap, in which each neighbor list supplied was the complete list of
/// `graph` for that vertex, proves that no walk in `graph` of at most
/// `max_steps` hops leads from the start to the target. (Each supplied list
/// needs to hold every edge of `graph` from its vertex.)
pub proof fn lemma_exhausted_search_has_no_path(
    search: &ShortestPathSearch,
    graph: Map<i64, Seq<i64>>,
    w: Seq<i64>,
)
    requires
        search.exhausted(),
        forall|v: i64, x: i64|
            search.observed().contains_key(v) && #[trigger] has_edge(graph, v, x) ==> has_edge(
                search.observed(),
                v,
                x,
            ),
        is_walk(graph, w),
        w[0] == search.start_vertex(),
        w.len() <= search.step_limit() + 1,
    ensures
        w.last() != search.target_vertex(),
{
    search.lemma_exhausted_walk(graph, w, w.len() - 1);
}

} // verus!
