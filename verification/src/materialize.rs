//! Forward-chaining materialization of the edges and vertex types entailed by
//! newly asserted edges: a worklist fixpoint whose graph reads and writes are
//! performed by the caller, one step at a time.
use vstd::prelude::*;
use crate::inference::{RelMeta, TripleModel, names_contain, triples_model, last_value_of};

verus! {

/// What the materialization needs next.
#[derive(Debug)]
pub enum MaterializeStep {
    /// Supply the destinations of the `p` edges leaving `d` and the sources of
    /// the `p` edges entering `s` (edge type `p` is transitive).
    TransitiveNeighbors { s: i64, p: String, d: i64 },
    /// Record that `vid` is a `class`, and say whether that was new.
    AssertType { vid: i64, class: String },
    /// Say whether the edge `(s)-p->(d)` already exists.
    Check { s: i64, p: String, d: i64 },
    /// Write the edge `(s)-p->(d)` as inferred, then acknowledge.
    Write { s: i64, p: String, d: i64 },
    /// The closure is complete, or the cap was reached.
    Done,
}

#[derive(Debug, Clone, Copy, PartialEq, Eq, Structural)]
enum Stage {
    NextItem,
    Domain,
    Range,
    CapCheck,
    Deriving,
    AwaitNeighbors,
    AwaitDomain,
    AwaitRange,
    AwaitCheck,
    AwaitWrite,
    Finished,
}

spec fn stage_rank(s: Stage) -> nat {
    match s {
        Stage::Domain => 4,
        Stage::Range => 3,
        Stage::CapCheck => 2,
        Stage::Deriving => 1,
        _ => 0,
    }
}

spec fn is_runnable(s: Stage) -> bool {
    s == Stage::NextItem || s == Stage::Domain || s == Stage::Range || s == Stage::CapCheck || s
        == Stage::Deriving
}

pub open spec fn triple_model(t: (i64, String, i64)) -> TripleModel {
    (t.0, t.1@, t.2)
}

/// Worklist state of one materialization run.
pub struct Materializer {
    meta: RelMeta,
    cap: usize,
    seen: Vec<(i64, String, i64)>,
    queue: Vec<(i64, String, i64)>,
    head: usize,
    written: usize,
    current: (i64, String, i64),
    derived: Vec<(i64, String, i64)>,
    next_derived: usize,
    pending: (i64, String, i64),
    stage: Stage,
    checked: Ghost<Seq<TripleModel>>,
    writes: Ghost<Seq<TripleModel>>,
    trans_out: Ghost<Seq<i64>>,
    trans_in: Ghost<Seq<i64>>,
}

/// The consequences of edge `cur`: its local rule consequences, then for a
/// transitive type the edges to each of `outs` and from each of `ins`.
pub open spec fn derivations(meta: RelMeta, cur: TripleModel, outs: Seq<i64>, ins: Seq<i64>) -> Seq<
    TripleModel,
> {
    meta.local_derivations(cur.0, cur.1, cur.2) + outs.map_values(|n: i64| (cur.0, cur.1, n))
        + ins.map_values(|n: i64| (n, cur.1, cur.2))
}

/// Whether `t` is a consequence of edge `cur` under `meta`: a local rule
/// consequence, or, for a transitive type, an edge of that type from the same
/// source or to the same destination.
pub open spec fn entailed_by(meta: RelMeta, cur: TripleModel, t: TripleModel) -> bool {
    ||| meta.local_derivations(cur.0, cur.1, cur.2).contains(t)
    ||| (names_contain(meta.transitive_types(), cur.1) && t.1 == cur.1 && (t.0 == cur.0 || t.2
        == cur.2))
}

fn copy_triple(t: &(i64, String, i64)) -> (r: (i64, String, i64))
    ensures
        triple_model(r) == triple_model(*t),
{
    (t.0, t.1.clone(), t.2)
}

fn triple_eq(a: &(i64, String, i64), b: &(i64, String, i64)) -> (r: bool)
    ensures
        r == (triple_model(*a) == triple_model(*b)),
{
    a.0 == b.0 && a.2 == b.2 && a.1 == b.1
}

fn contains_triple(v: &Vec<(i64, String, i64)>, t: &(i64, String, i64)) -> (r: bool)
    ensures
        r == triples_model(v@).contains(triple_model(*t)),
{
    let mut i: usize = 0;
    while i < v.len()
        invariant
            i <= v.len(),
            forall|k: int| 0 <= k < i ==> triple_model(#[trigger] v@[k]) != triple_model(*t),
        decreases v.len() - i,
    {
        if triple_eq(&v[i], t) {
            assert(triples_model(v@)[i as int] == triple_model(*t));
            return true;
        }
        i = i + 1;
    }
    proof {
        if triples_model(v@).contains(triple_model(*t)) {
            let k = choose|k: int| 0 <= k < v@.len() && #[trigger] triples_model(v@)[k] == triple_model(*t);
            assert(triple_model(v@[k]) == triple_model(*t));
        }
    }
    false
}

impl Materializer {
    /// Triples sent to `Check`, in order.
    pub closed spec fn spec_checked(&self) -> Seq<TripleModel> {
        self.checked@
    }

    /// Triples sent to `Write`, in order.
    pub closed spec fn spec_writes(&self) -> Seq<TripleModel> {
        self.writes@
    }

    /// Writes plus newly recorded vertex types so far.
    pub closed spec fn spec_written(&self) -> usize {
        self.written
    }

    pub closed spec fn spec_cap(&self) -> usize {
        self.cap
    }

    /// Triples queued or processed in this run.
    pub closed spec fn spec_seen(&self) -> Seq<TripleModel> {
        triples_model(self.seen@)
    }

    pub closed spec fn is_finished(&self) -> bool {
        self.stage == Stage::Finished
    }

    /// The edge whose existence was asked last, while the answer or the
    /// write is outstanding.
    pub closed spec fn spec_pending(&self) -> TripleModel {
        triple_model(self.pending)
    }

    pub closed spec fn awaiting_check(&self) -> bool {
        self.stage == Stage::AwaitCheck
    }

    pub closed spec fn awaiting_write(&self) -> bool {
        self.stage == Stage::AwaitWrite
    }

    pub closed spec fn awaiting_neighbors(&self) -> bool {
        self.stage == Stage::AwaitNeighbors
    }

    pub closed spec fn awaiting_type(&self) -> bool {
        self.stage == Stage::AwaitDomain || self.stage == Stage::AwaitRange
    }

    pub closed spec fn spec_meta(&self) -> RelMeta {
        self.meta
    }

    /// The queued edge whose consequences are being derived.
    pub closed spec fn spec_current(&self) -> TripleModel {
        triple_model(self.current)
    }

    /// The derived edges of the current queued edge are its rule
    /// consequences, and the edge asked about is the last one taken.
    #[verifier::opaque]
    closed spec fn derived_ok(&self) -> bool {
        &&& (self.stage != Stage::NextItem && self.stage != Stage::Finished) ==> triples_model(self.derived@)
            == derivations(self.meta, triple_model(self.current), self.trans_out@, self.trans_in@)
        &&& (self.trans_out@.len() + self.trans_in@.len() > 0 || self.stage == Stage::AwaitNeighbors)
            ==> names_contain(self.meta.transitive_types(), self.current.1@)
        &&& self.stage == Stage::AwaitNeighbors ==> self.trans_out@.len() == 0 && self.trans_in@.len() == 0
        &&& (self.stage == Stage::AwaitCheck || self.stage == Stage::AwaitWrite) ==> (self.next_derived
            >= 1 && self.next_derived <= self.derived@.len() && triple_model(self.derived@[self.next_derived - 1]) == triple_model(self.pending))
    }

    pub closed spec fn wf(&self) -> bool {
        let c = self.checked@;
        let dm = triples_model(self.derived@);
        let cur = triple_model(self.current);
        let w = self.writes@;
        let pend: int = if self.stage == Stage::AwaitCheck || self.stage == Stage::AwaitWrite {
            1
        } else {
            0
        };
        &&& self.head <= self.queue@.len()
        &&& self.next_derived <= self.derived@.len()
        &&& c.no_duplicates()
        &&& w.no_duplicates()
        &&& forall|i: int| 0 <= i < c.len() ==> self.spec_seen().contains(#[trigger] c[i])
        &&& c.len() >= pend
        &&& forall|i: int| 0 <= i < w.len() ==> c.take(c.len() - pend).contains(#[trigger] w[i])
        &&& (pend == 1 ==> c.last() == triple_model(self.pending))
        &&& self.derived_ok()
        &&& (self.stage == Stage::NextItem || self.stage == Stage::Domain || self.stage
            == Stage::Deriving || self.stage == Stage::AwaitNeighbors || self.stage
            == Stage::AwaitDomain || self.stage == Stage::AwaitCheck || self.stage
            == Stage::AwaitWrite) ==> self.written < self.cap
    }

    /// What the caller may rely on after a step.
    pub open spec fn step_ok(&self, step: MaterializeStep) -> bool {
        &&& self.wf()
        &&& match step {
            MaterializeStep::TransitiveNeighbors { s, p, d } => {
                &&& self.awaiting_neighbors()
                &&& self.spec_current() == (s, p@, d)
                &&& names_contain(self.spec_meta().transitive_types(), p@)
            },
            MaterializeStep::AssertType { .. } => self.awaiting_type(),
            MaterializeStep::Check { s, p, d } => {
                &&& self.awaiting_check()
                &&& self.spec_pending() == (s, p@, d)
                &&& entailed_by(self.spec_meta(), self.spec_current(), (s, p@, d))
            },
            MaterializeStep::Write { s, p, d } => {
                &&& self.awaiting_write()
                &&& self.spec_pending() == (s, p@, d)
            },
            MaterializeStep::Done => self.is_finished(),
        }
    }

    /// Starts a run from the asserted `seeds`, each queued once, that stops
    /// once `cap` edges and types have been written.
    pub fn begin(meta: RelMeta, seeds: Vec<(i64, String, i64)>, cap: usize) -> (res: (
        Materializer,
        MaterializeStep,
    ))
        ensures
            res.0.step_ok(res.1),
            res.0.spec_cap() == cap,
            res.0.spec_writes().len() == 0,
            res.0.spec_written() == 0,
    {
        let mut seen: Vec<(i64, String, i64)> = Vec::new();
        let mut queue: Vec<(i64, String, i64)> = Vec::new();
        let mut i: usize = 0;
        while i < seeds.len()
            invariant
                i <= seeds.len(),
            decreases seeds.len() - i,
        {
            if !contains_triple(&seen, &seeds[i]) {
                seen.push(copy_triple(&seeds[i]));
                queue.push(copy_triple(&seeds[i]));
            }
            i = i + 1;
        }
        let mut m = Materializer {
            meta,
            cap,
            seen,
            queue,
            head: 0,
            written: 0,
            current: (0, String::new(), 0),
            derived: Vec::new(),
            next_derived: 0,
            pending: (0, String::new(), 0),
            stage: Stage::NextItem,
            checked: Ghost(Seq::empty()),
            writes: Ghost(Seq::empty()),
            trans_out: Ghost(Seq::empty()),
            trans_in: Ghost(Seq::empty()),
        };
        proof {
            reveal(Materializer::derived_ok);
        }
        if cap == 0 {
            m.stage = Stage::Finished;
            return (m, MaterializeStep::Done);
        }
        let step = m.progress();
        (m, step)
    }

    /// Runs until the next step that needs the graph.
    fn progress(&mut self) -> (step: MaterializeStep)
        requires
            old(self).wf(),
            is_runnable(old(self).stage),
        ensures
            final(self).step_ok(step),
            final(self).cap == old(self).cap,
            final(self).checked@.len() >= old(self).checked@.len(),
            final(self).checked@.take(old(self).checked@.len() as int) == old(self).checked@,
            final(self).writes@ == old(self).writes@,
            final(self).written == old(self).written,
    {
        loop
            invariant
                self.wf(),
                is_runnable(self.stage),
                self.cap == old(self).cap,
                self.written == old(self).written,
                self.writes@ == old(self).writes@,
                self.checked@ == old(self).checked@,
                self.queue@.len() == old(self).queue@.len(),
            decreases self.queue@.len() - self.head, stage_rank(self.stage), self.derived@.len()
                - self.next_derived,
        {
            assert(self.checked@.take(self.checked@.len() as int) =~= self.checked@);
            match self.stage {
                Stage::NextItem => {
                    if self.head == self.queue.len() {
                        let ghost before_stage = *self;
                        self.stage = Stage::Finished;
                        proof {
                            Self::lemma_restage(before_stage, *self);
                        }
                        return MaterializeStep::Done;
                    }
                    self.current = copy_triple(&self.queue[self.head]);
                    self.head = self.head + 1;
                    self.derived = self.meta.derive_local(self.current.0, &self.current.1, self.current.2);
                    self.next_derived = 0;
                    proof {
                        self.trans_out@ = Seq::empty();
                        self.trans_in@ = Seq::empty();
                        let cur = triple_model(self.current);
                        assert(derivations(self.meta, cur, Seq::empty(), Seq::empty()) =~= self.meta.local_derivations(
                            cur.0,
                            cur.1,
                            cur.2,
                        ));
                    }
                    self.stage = Stage::Domain;
                    let transitive = self.meta.is_transitive(&self.current.1);
                    if transitive {
                        self.stage = Stage::AwaitNeighbors;
                    }
                    proof {
                        reveal(Materializer::derived_ok);
                        assert(self.derived_ok());
                    }
                    if transitive {
                        return MaterializeStep::TransitiveNeighbors {
                            s: self.current.0,
                            p: self.current.1.clone(),
                            d: self.current.2,
                        };
                    }
                },
                Stage::Domain => {
                    let ghost before_stage = *self;
                    self.stage = Stage::Range;
                    proof {
                        Self::lemma_restage(before_stage, *self);
                    }
                    match self.meta.domain_of(&self.current.1) {
                        Some(class) => {
                            let ghost before_stage = *self;
                            self.stage = Stage::AwaitDomain;
                            proof {
                                Self::lemma_restage(before_stage, *self);
                            }
                            return MaterializeStep::AssertType { vid: self.current.0, class };
                        },
                        None => {},
                    }
                },
                Stage::Range => {
                    let ghost before_stage = *self;
                    self.stage = Stage::CapCheck;
                    proof {
                        Self::lemma_restage(before_stage, *self);
                    }
                    match self.meta.range_of(&self.current.1) {
                        Some(class) => {
                            let ghost before_stage = *self;
                            self.stage = Stage::AwaitRange;
                            proof {
                                Self::lemma_restage(before_stage, *self);
                            }
                            return MaterializeStep::AssertType { vid: self.current.2, class };
                        },
                        None => {},
                    }
                },
                Stage::CapCheck => {
                    if self.written >= self.cap {
                        let ghost before_stage = *self;
                        self.stage = Stage::Finished;
                        proof {
                            Self::lemma_restage(before_stage, *self);
                        }
                        return MaterializeStep::Done;
                    }
                    let ghost before_stage = *self;
                    self.stage = Stage::Deriving;
                    proof {
                        Self::lemma_restage(before_stage, *self);
                    }
                },
                _ => {
                    if self.next_derived == self.derived.len() {
                        let ghost before_stage = *self;
                        self.stage = Stage::NextItem;
                        proof {
                            Self::lemma_restage(before_stage, *self);
                        }
                    } else {
                        let t = copy_triple(&self.derived[self.next_derived]);
                        let ghost before_step = *self;
                        self.next_derived = self.next_derived + 1;
                        proof {
                            Self::lemma_restage(before_step, *self);
                        }
                        if !contains_triple(&self.seen, &t) {
                            let ghost seen0 = self.spec_seen();
                            self.seen.push(copy_triple(&t));
                            proof {
                                let c = self.checked@;
                                assert(self.spec_seen() =~= seen0.push(triple_model(t)));
                                assert forall|i: int| 0 <= i < c.len() implies self.spec_seen().contains(
                                    #[trigger] c[i],
                                ) by {
                                    let k = choose|k: int| 0 <= k < seen0.len() && #[trigger] seen0[k] == c[i];
                                    assert(self.spec_seen()[k] == c[i]);
                                }
                                assert(!c.contains(triple_model(t)));
                                self.checked@ = c.push(triple_model(t));
                                assert(self.spec_seen()[seen0.len() as int] == triple_model(t));
                                assert(self.checked@.take(c.len() as int) =~= c);
                                assert forall|i: int| 0 <= i < self.writes@.len() implies self.checked@.take(
                                    self.checked@.len() - 1,
                                ).contains(#[trigger] self.writes@[i]) by {
                                    let k = choose|k: int| 0 <= k < c.len() && #[trigger] c.take(c.len() as int)[k] == self.writes@[i];
                                    assert(self.checked@.take(self.checked@.len() - 1)[k] == self.writes@[i]);
                                }
                            }
                            let ghost dm = triples_model(self.derived@);
                            let ghost k = self.next_derived - 1;
                            proof {
                                reveal(Materializer::derived_ok);
                                assert(dm[k] == triple_model(t));
                                let cur = triple_model(self.current);
                                let loc = self.meta.local_derivations(cur.0, cur.1, cur.2);
                                let om = self.trans_out@.map_values(|n: i64| (cur.0, cur.1, n));
                                let im = self.trans_in@.map_values(|n: i64| (n, cur.1, cur.2));
                                assert(dm == loc + om + im);
                                assert((loc + om).len() == loc.len() + om.len());
                                if k < loc.len() {
                                    assert(dm[k] == loc[k]);
                                    assert(loc.contains(triple_model(t)));
                                } else if k < loc.len() + om.len() {
                                    assert(dm[k] == om[k - loc.len()]);
                                    assert(names_contain(self.meta.transitive_types(), self.current.1@));
                                } else {
                                    assert(k < dm.len());
                                    assert(dm.len() == loc.len() + om.len() + im.len());
                                    assert((loc + om + im)[k] == im[k - (loc + om).len()]);
                                    assert(dm[k] == im[k - loc.len() - om.len()]);
                                    assert(names_contain(self.meta.transitive_types(), self.current.1@));
                                }
                            }
                            self.pending = t;
                            self.stage = Stage::AwaitCheck;
                            proof {
                                reveal(Materializer::derived_ok);
                                assert(self.derived_ok());
                                assert(entailed_by(self.meta, triple_model(self.current), triple_model(self.pending)));
                            }
                            return MaterializeStep::Check {
                                s: self.pending.0,
                                p: self.pending.1.clone(),
                                d: self.pending.2,
                            };
                        }
                    }
                },
            }
        }
    }

    /// The neighbors asked for by `TransitiveNeighbors`: `outs` are the
    /// destinations of `p` edges leaving `d`, `ins` the sources of `p` edges
    /// entering `s`. Each yields an edge `(s)-p->(out)` or `(in)-p->(d)`.
    pub fn neighbors(&mut self, outs: &[i64], ins: &[i64]) -> (step: MaterializeStep)
        requires
            old(self).wf(),
            old(self).awaiting_neighbors(),
        ensures
            final(self).step_ok(step),
            final(self).spec_cap() == old(self).spec_cap(),
            final(self).spec_checked().take(old(self).spec_checked().len() as int) == old(self).spec_checked(),
            final(self).spec_writes() == old(self).spec_writes(),
            final(self).spec_written() == old(self).spec_written(),
    {
        let ghost before_stage = *self;
        self.stage = Stage::Domain;
        proof {
            Self::lemma_restage(before_stage, *self);
            reveal(Materializer::derived_ok);
            assert(self.trans_in@.len() == 0);
            assert(names_contain(self.meta.transitive_types(), self.current.1@));
        }
        let mut i: usize = 0;
        while i < outs.len()
            invariant
                self.wf(),
                self.stage == Stage::Domain,
                self.trans_in@.len() == 0,
                names_contain(self.meta.transitive_types(), self.current.1@),
                self.checked@ == old(self).checked@,
                self.writes@ == old(self).writes@,
                self.written == old(self).written,
                self.cap == old(self).cap,
            decreases outs.len() - i,
        {
            let ghost dm0 = triples_model(self.derived@);
            let ghost prev = *self;
            self.derived.push((self.current.0, self.current.1.clone(), outs[i]));
            proof {
                reveal(Materializer::derived_ok);
                assert(prev.derived_ok());
                let cur = triple_model(self.current);
                self.trans_out@ = self.trans_out@.push(outs@[i as int]);
                assert(triples_model(self.derived@) =~= dm0.push((cur.0, cur.1, outs@[i as int])));
                assert(derivations(self.meta, cur, self.trans_out@, self.trans_in@) =~= derivations(
                    self.meta,
                    cur,
                    self.trans_out@.drop_last(),
                    self.trans_in@,
                ).push((cur.0, cur.1, outs@[i as int])));
                assert(self.trans_out@.drop_last() =~= prev.trans_out@);
                assert(triples_model(prev.derived@) == derivations(prev.meta, cur, prev.trans_out@, prev.trans_in@));
                assert(triples_model(self.derived@) == derivations(self.meta, cur, self.trans_out@, self.trans_in@));
                assert(self.trans_out@.len() + self.trans_in@.len() > 0);
                assert(names_contain(self.meta.transitive_types(), self.current.1@));
                assert(self.derived_ok());
            }
            i = i + 1;
        }
        let mut j: usize = 0;
        while j < ins.len()
            invariant
                self.wf(),
                self.stage == Stage::Domain,
                names_contain(self.meta.transitive_types(), self.current.1@),
                self.checked@ == old(self).checked@,
                self.writes@ == old(self).writes@,
                self.written == old(self).written,
                self.cap == old(self).cap,
            decreases ins.len() - j,
        {
            let ghost dm0 = triples_model(self.derived@);
            let ghost prev = *self;
            self.derived.push((ins[j], self.current.1.clone(), self.current.2));
            proof {
                reveal(Materializer::derived_ok);
                assert(prev.derived_ok());
                let cur = triple_model(self.current);
                self.trans_in@ = self.trans_in@.push(ins@[j as int]);
                assert(triples_model(self.derived@) =~= dm0.push((ins@[j as int], cur.1, cur.2)));
                assert(derivations(self.meta, cur, self.trans_out@, self.trans_in@) =~= derivations(
                    self.meta,
                    cur,
                    self.trans_out@,
                    self.trans_in@.drop_last(),
                ).push((ins@[j as int], cur.1, cur.2)));
                assert(self.trans_in@.drop_last() =~= prev.trans_in@);
                assert(triples_model(prev.derived@) == derivations(prev.meta, cur, prev.trans_out@, prev.trans_in@));
                assert(triples_model(self.derived@) == derivations(self.meta, cur, self.trans_out@, self.trans_in@));
                assert(names_contain(self.meta.transitive_types(), self.current.1@));
                assert(self.derived_ok());
            }
            j = j + 1;
        }
        self.progress()
    }

    /// Whether the vertex type asked for by `AssertType` was new; a new type
    /// counts against the cap (the count saturates at `usize::MAX`).
    pub fn type_recorded(&mut self, new: bool) -> (step: MaterializeStep)
        requires
            old(self).wf(),
            old(self).awaiting_type(),
        ensures
            final(self).step_ok(step),
            final(self).spec_cap() == old(self).spec_cap(),
            final(self).spec_checked().take(old(self).spec_checked().len() as int) == old(self).spec_checked(),
            final(self).spec_writes() == old(self).spec_writes(),
            final(self).spec_written() == (if new && old(self).spec_written() < usize::MAX {
                old(self).spec_written() + 1
            } else {
                old(self).spec_written() as int
            }),
    {
        if new {
            self.written = self.written.saturating_add(1);
        }
        if self.stage == Stage::AwaitDomain {
            let ghost before_stage = *self;
            self.stage = Stage::Range;
            proof {
                Self::lemma_restage(*old(self), *self);
            }
        } else {
            let ghost before_stage = *self;
            self.stage = Stage::CapCheck;
            proof {
                Self::lemma_restage(*old(self), *self);
            }
        }
        self.progress()
    }

    /// Whether the edge asked about by `Check` exists. An existing edge's
    /// consequences are already in the graph, so it is skipped; a new one is
    /// to be written.
    pub fn checked(&mut self, exists: bool) -> (step: MaterializeStep)
        requires
            old(self).wf(),
            old(self).awaiting_check(),
        ensures
            final(self).step_ok(step),
            final(self).spec_cap() == old(self).spec_cap(),
            final(self).spec_checked().take(old(self).spec_checked().len() as int) == old(self).spec_checked(),
            final(self).spec_writes() == old(self).spec_writes(),
            final(self).spec_written() == old(self).spec_written(),
            !exists ==> (step is Write && final(self).spec_pending() == old(self).spec_pending()),
    {
        assert(self.checked@.take(self.checked@.len() as int) =~= self.checked@);
        if !exists {
            let ghost before_stage = *self;
            self.stage = Stage::AwaitWrite;
            proof {
                Self::lemma_restage(*old(self), *self);
            }
            return MaterializeStep::Write {
                s: self.pending.0,
                p: self.pending.1.clone(),
                d: self.pending.2,
            };
        }
        let ghost before_stage = *self;
        self.stage = Stage::Deriving;
        proof {
            Self::lemma_restage(*old(self), *self);
        }
        proof {
            let c = self.checked@;
            assert forall|i: int| 0 <= i < self.writes@.len() implies c.take(c.len() as int).contains(
                #[trigger] self.writes@[i],
            ) by {
                let k = choose|k: int| 0 <= k < c.len() - 1 && #[trigger] c.take(c.len() - 1)[k] == self.writes@[i];
                assert(c.take(c.len() as int)[k] == self.writes@[i]);
            }
        }
        self.progress()
    }

    /// Acknowledges the write asked for by `Write`; the edge is queued so that
    /// its own consequences are derived, unless the cap is now reached.
    pub fn wrote(&mut self) -> (step: MaterializeStep)
        requires
            old(self).wf(),
            old(self).awaiting_write(),
        ensures
            final(self).step_ok(step),
            final(self).spec_cap() == old(self).spec_cap(),
            final(self).spec_checked().take(old(self).spec_checked().len() as int) == old(self).spec_checked(),
            final(self).spec_writes() == old(self).spec_writes().push(old(self).spec_pending()),
            final(self).spec_written() == old(self).spec_written() + 1,
            final(self).spec_written() >= final(self).spec_cap() ==> step is Done,
    {
        self.written = self.written + 1;
        proof {
            let c = self.checked@;
            let w = self.writes@;
            assert(!c.take(c.len() - 1).contains(c.last())) by {
                if c.take(c.len() - 1).contains(c.last()) {
                    let k = choose|k: int| 0 <= k < c.len() - 1 && #[trigger] c.take(c.len() - 1)[k] == c.last();
                    assert(c[k] == c[c.len() - 1]);
                }
            }
            assert(!w.contains(c.last())) by {
                if w.contains(c.last()) {
                    let k = choose|k: int| 0 <= k < w.len() && #[trigger] w[k] == c.last();
                    assert(c.take(c.len() - 1).contains(w[k]));
                }
            }
            self.writes@ = w.push(triple_model(self.pending));
            assert forall|i: int| 0 <= i < self.writes@.len() implies c.take(c.len() as int).contains(
                #[trigger] self.writes@[i],
            ) by {
                if i < w.len() {
                    let k = choose|k: int| 0 <= k < c.len() - 1 && #[trigger] c.take(c.len() - 1)[k] == w[i];
                    assert(c.take(c.len() as int)[k] == w[i]);
                } else {
                    assert(c.take(c.len() as int)[c.len() - 1] == c.last());
                }
            }
        }
        assert(self.checked@.take(self.checked@.len() as int) =~= self.checked@);
        if self.written >= self.cap {
            let ghost before_stage = *self;
            self.stage = Stage::Finished;
            proof {
                Self::lemma_restage(*old(self), *self);
            }
            return MaterializeStep::Done;
        }
        self.queue.push(copy_triple(&self.pending));
        let ghost before_stage = *self;
        self.stage = Stage::Deriving;
        proof {
            Self::lemma_restage(*old(self), *self);
        }
        self.progress()
    }
}

impl Materializer {
    proof fn lemma_restage(a: Materializer, b: Materializer)
        requires
            a.derived_ok(),
            b.derived@ == a.derived@,
            b.current == a.current,
            b.meta == a.meta,
            b.trans_out@ == a.trans_out@,
            b.trans_in@ == a.trans_in@,
            (a.stage == Stage::NextItem || a.stage == Stage::Finished) ==> (b.stage == Stage::NextItem
                || b.stage == Stage::Finished),
            b.stage == Stage::AwaitNeighbors ==> a.stage == Stage::AwaitNeighbors,
            (b.stage == Stage::AwaitCheck || b.stage == Stage::AwaitWrite) ==> ((a.stage
                == Stage::AwaitCheck || a.stage == Stage::AwaitWrite) && b.pending == a.pending
                && b.next_derived == a.next_derived),
        ensures
            b.derived_ok(),
    {
        reveal(Materializer::derived_ok);
    }
}

/// Law: a run writes each edge at most once, and writes only edges whose
/// existence it asked about.
pub proof fn lemma_each_edge_written_once(m: &Materializer)
    requires
        m.wf(),
    ensures
        m.spec_writes().no_duplicates(),
        forall|i: int| 0 <= i < m.spec_writes().len() ==> m.spec_checked().contains(#[trigger] m.spec_writes()[i]),
{
    let c = m.spec_checked();
    assert forall|i: int| 0 <= i < m.spec_writes().len() implies c.contains(#[trigger] m.spec_writes()[i]) by {
        let pend: int = if m.awaiting_check() || m.awaiting_write() { 1 } else { 0 };
        let k = choose|k: int| 0 <= k < c.len() - pend && #[trigger] c.take(c.len() - pend)[k] == m.spec_writes()[i];
        assert(c[k] == m.spec_writes()[i]);
    }
}

} // verus!
