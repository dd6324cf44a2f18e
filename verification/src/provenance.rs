//! Provenance of inferred facts: the rules that entail them, their textual
//! rendering, and the deduplicated justification sets stored per fact.
use vstd::prelude::*;
use vstd::string::StringExecFns;
use crate::text::{push_signed_decimal, signed_decimal};

verus! {

/// The inference rule that entailed a fact.
#[derive(Debug, Clone, Copy, PartialEq, Eq, Structural)]
pub enum RuleKind {
    Symmetric,
    InverseOf,
    SubPropertyOf,
    Transitive,
    Domain,
    Range,
}

/// A fact of the materialized graph.
#[derive(Debug)]
pub enum Fact {
    /// An edge `(s)-p->(d)`.
    Edge { s: i64, p: String, d: i64 },
    /// A vertex type membership `vid is-a class`.
    Vtype { vid: i64, class: String },
}

/// One way a fact was entailed: a rule and the premise facts it consumed.
#[derive(Debug)]
pub struct Justification {
    pub rule: RuleKind,
    pub premises: Vec<Fact>,
}

/// A fact with its strings taken by their characters.
pub enum FactModel {
    Edge(i64, Seq<char>, i64),
    Vtype(i64, Seq<char>),
}

pub open spec fn fact_model(f: Fact) -> FactModel {
    match f {
        Fact::Edge { s, p, d } => FactModel::Edge(s, p@, d),
        Fact::Vtype { vid, class } => FactModel::Vtype(vid, class@),
    }
}

pub open spec fn facts_model(fs: Seq<Fact>) -> Seq<FactModel> {
    fs.map_values(|f: Fact| fact_model(f))
}

/// A justification by its rule and the models of its premises.
pub open spec fn justification_model(j: Justification) -> (RuleKind, Seq<FactModel>) {
    (j.rule, facts_model(j.premises@))
}

/// How a fact is shown in the WHY result: `s -p-> d` or `vid is-a class`.
pub open spec fn fact_text(f: FactModel) -> Seq<char> {
    match f {
        FactModel::Edge(s, p, d) => signed_decimal(s as int) + " -"@ + p + "-> "@ + signed_decimal(
            d as int,
        ),
        FactModel::Vtype(vid, class) => signed_decimal(vid as int) + " is-a "@ + class,
    }
}

/// The name under which a rule is shown.
pub open spec fn rule_name(rule: RuleKind) -> Seq<char> {
    match rule {
        RuleKind::Symmetric => "symmetric"@,
        RuleKind::InverseOf => "inverseOf"@,
        RuleKind::SubPropertyOf => "subPropertyOf"@,
        RuleKind::Transitive => "transitive"@,
        RuleKind::Domain => "domain"@,
        RuleKind::Range => "range"@,
    }
}

/// Human-readable rendering of a fact.
pub fn fact_to_string(fact: &Fact) -> (r: String)
    ensures
        r@ == fact_text(fact_model(*fact)),
{
    let mut out = String::new();
    match fact {
        Fact::Edge { s, p, d } => {
            push_signed_decimal(&mut out, *s);
            out.append(" -");
            out.append(p.as_str());
            out.append("-> ");
            push_signed_decimal(&mut out, *d);
            assert(out@ =~= fact_text(fact_model(*fact)));
        },
        Fact::Vtype { vid, class } => {
            push_signed_decimal(&mut out, *vid);
            out.append(" is-a ");
            out.append(class.as_str());
            assert(out@ =~= fact_text(fact_model(*fact)));
        },
    }
    out
}

/// Rule name as shown in the WHY result.
pub fn rule_to_string(rule: &RuleKind) -> (r: &'static str)
    ensures
        r@ == rule_name(*rule),
{
    match rule {
        RuleKind::Symmetric => "symmetric",
        RuleKind::InverseOf => "inverseOf",
        RuleKind::SubPropertyOf => "subPropertyOf",
        RuleKind::Transitive => "transitive",
        RuleKind::Domain => "domain",
        RuleKind::Range => "range",
    }
}

/// Whether two facts are equal.
pub fn fact_eq(a: &Fact, b: &Fact) -> (r: bool)
    ensures
        r == (fact_model(*a) == fact_model(*b)),
{
    match (a, b) {
        (Fact::Edge { s: s1, p: p1, d: d1 }, Fact::Edge { s: s2, p: p2, d: d2 }) => *s1 == *s2 && *d1
            == *d2 && *p1 == *p2,
        (Fact::Vtype { vid: v1, class: c1 }, Fact::Vtype { vid: v2, class: c2 }) => *v1 == *v2 && *c1
            == *c2,
        _ => false,
    }
}

/// A copy of a fact.
pub fn fact_clone(f: &Fact) -> (r: Fact)
    ensures
        fact_model(r) == fact_model(*f),
{
    match f {
        Fact::Edge { s, p, d } => Fact::Edge { s: *s, p: p.clone(), d: *d },
        Fact::Vtype { vid, class } => Fact::Vtype { vid: *vid, class: class.clone() },
    }
}

/// Whether two justifications name the same rule and equal premises, in order.
pub fn justification_eq(a: &Justification, b: &Justification) -> (r: bool)
    ensures
        r == (justification_model(*a) == justification_model(*b)),
{
    if a.rule != b.rule || a.premises.len() != b.premises.len() {
        proof {
            if a.premises.len() != b.premises.len() {
                assert(facts_model(a.premises@).len() != facts_model(b.premises@).len());
            }
        }
        return false;
    }
    let mut i: usize = 0;
    while i < a.premises.len()
        invariant
            i <= a.premises.len(),
            a.premises.len() == b.premises.len(),
            forall|k: int| 0 <= k < i ==> fact_model(#[trigger] a.premises@[k]) == fact_model(
                b.premises@[k],
            ),
        decreases a.premises.len() - i,
    {
        if !fact_eq(&a.premises[i], &b.premises[i]) {
            assert(facts_model(a.premises@)[i as int] != facts_model(b.premises@)[i as int]);
            return false;
        }
        i = i + 1;
    }
    assert(facts_model(a.premises@) =~= facts_model(b.premises@));
    true
}

/// Whether `justs` holds a justification equal to `j`.
pub open spec fn has_justification(justs: Seq<Justification>, j: Justification) -> bool {
    exists|i: int| 0 <= i < justs.len() && justification_model(#[trigger] justs[i])
        == justification_model(j)
}

/// Adds `j` to a fact's justification set unless an equal one is recorded.
/// Returns whether the set changed (and so must be stored again).
pub fn add_justification(justs: &mut Vec<Justification>, j: Justification) -> (changed: bool)
    ensures
        changed == !has_justification(old(justs)@, j),
        changed ==> final(justs)@ == old(justs)@.push(j),
        !changed ==> final(justs)@ == old(justs)@,
{
    let mut i: usize = 0;
    while i < justs.len()
        invariant
            i <= justs.len(),
            forall|k: int| 0 <= k < i ==> justification_model(#[trigger] justs@[k])
                != justification_model(j),
        decreases justs.len() - i,
    {
        if justification_eq(&justs[i], &j) {
            return false;
        }
        i = i + 1;
    }
    justs.push(j);
    true
}

/// `texts` joined with `", "`.
pub open spec fn joined(texts: Seq<Seq<char>>) -> Seq<char>
    decreases texts.len(),
{
    if texts.len() == 0 {
        Seq::empty()
    } else if texts.len() == 1 {
        texts[0]
    } else {
        joined(texts.drop_last()) + ", "@ + texts.last()
    }
}

/// The texts of the premises of a justification, joined.
pub open spec fn premises_text(premises: Seq<FactModel>) -> Seq<char> {
    joined(premises.map_values(|f: FactModel| fact_text(f)))
}

/// One row of a WHY result: depth, fact, status, rule and premises (`—`
/// where there is none).
#[derive(Debug)]
pub struct ExplainRow {
    pub depth: i64,
    pub fact: String,
    pub status: String,
    pub rule: String,
    pub premises: String,
}

pub type RowModel = (i64, Seq<char>, Seq<char>, Seq<char>, Seq<char>);

pub open spec fn row_model(r: ExplainRow) -> RowModel {
    (r.depth, r.fact@, r.status@, r.rule@, r.premises@)
}

pub open spec fn rows_model(rs: Seq<ExplainRow>) -> Seq<RowModel> {
    rs.map_values(|r: ExplainRow| row_model(r))
}

pub open spec fn dash() -> Seq<char> {
    "\u{2014}"@
}

/// The row for a fact that was already explained higher up.
pub open spec fn revisit_row(f: FactModel, depth: i64) -> RowModel {
    (depth, fact_text(f), "(already explained above)"@, dash(), dash())
}

/// The rows for popping the entries of `s` from its end to its start, each
/// a fact already explained.
pub open spec fn revisit_rows(s: Seq<(FactModel, i64)>) -> Seq<RowModel>
    decreases s.len(),
{
    if s.len() == 0 {
        Seq::empty()
    } else {
        seq![revisit_row(s.last().0, s.last().1)] + revisit_rows(s.drop_last())
    }
}

/// The rows that explain a fact by its justifications: `asserted` when it
/// has none, else one `inferred` row per justification.
pub open spec fn expansion_rows(f: FactModel, depth: i64, justs: Seq<(RuleKind, Seq<FactModel>)>) -> Seq<
    RowModel,
> {
    if justs.len() == 0 {
        seq![(depth, fact_text(f), "asserted"@, dash(), dash())]
    } else {
        justs.map_values(
            |j: (RuleKind, Seq<FactModel>)|
                (depth, fact_text(f), "inferred"@, rule_name(j.0), premises_text(j.1)),
        )
    }
}

/// The premises to explain next, each one level deeper, in the order they are
/// pushed: the last justification's premises first, each list back to front.
pub open spec fn premise_pushes(justs: Seq<(RuleKind, Seq<FactModel>)>, depth: i64) -> Seq<(FactModel, i64)>
    decreases justs.len(),
{
    if justs.len() == 0 {
        Seq::empty()
    } else {
        justs.last().1.reverse().map_values(|f: FactModel| (f, depth)) + premise_pushes(
            justs.drop_last(),
            depth,
        )
    }
}

pub open spec fn justifications_model(js: Seq<Justification>) -> Seq<(RuleKind, Seq<FactModel>)> {
    js.map_values(|j: Justification| justification_model(j))
}

/// The texts of `premises` joined with `", "`.
fn premises_string(premises: &Vec<Fact>) -> (r: String)
    ensures
        r@ == premises_text(facts_model(premises@)),
{
    let mut out = String::new();
    let mut i: usize = 0;
    while i < premises.len()
        invariant
            i <= premises.len(),
            out@ == joined(facts_model(premises@).take(i as int).map_values(|f: FactModel| fact_text(f))),
        decreases premises.len() - i,
    {
        let t = fact_to_string(&premises[i]);
        let ghost before = facts_model(premises@).take(i as int).map_values(|f: FactModel| fact_text(f));
        let ghost after = facts_model(premises@).take(i + 1).map_values(|f: FactModel| fact_text(f));
        assert(after.drop_last() =~= before);
        assert(after.last() == t@);
        if i > 0 {
            out.append(", ");
        } else {
            assert(after =~= seq![t@]);
        }
        out.append(t.as_str());
        i = i + 1;
    }
    assert(facts_model(premises@).take(premises.len() as int) =~= facts_model(premises@));
    out
}

/// What the WHY walk needs next.
pub enum ExplainStep {
    /// The caller reads the recorded justifications of this fact and passes
    /// them to `record`.
    Provenance(Fact),
    /// Every fact has been explained; `rows` holds the result.
    Done,
}

/// A depth-first walk over the justification tree of an inferred edge.
/// Each fact is expanded once; a fact reached again is reported as already
/// explained and not expanded again.
pub struct ExplainWalk {
    stack: Vec<(Fact, i64)>,
    visited: Vec<Fact>,
    rows: Vec<ExplainRow>,
    pending: Option<(Fact, i64)>,
}

pub open spec fn stack_model(s: Seq<(Fact, i64)>) -> Seq<(FactModel, i64)> {
    s.map_values(|e: (Fact, i64)| (fact_model(e.0), e.1))
}

impl ExplainWalk {
    pub closed spec fn spec_stack(&self) -> Seq<(FactModel, i64)> {
        stack_model(self.stack@)
    }

    /// The facts expanded so far, in order.
    pub closed spec fn spec_visited(&self) -> Seq<FactModel> {
        facts_model(self.visited@)
    }

    pub closed spec fn spec_rows(&self) -> Seq<RowModel> {
        rows_model(self.rows@)
    }

    /// The fact whose justifications the walk waits for, with its depth.
    pub closed spec fn spec_pending(&self) -> Option<(FactModel, i64)> {
        match self.pending {
            Some((f, d)) => Some((fact_model(f), d)),
            None => None,
        }
    }

    pub closed spec fn wf(&self) -> bool {
        &&& self.spec_visited().no_duplicates()
        &&& forall|i: int| 0 <= i < self.stack@.len() ==> 0 <= #[trigger] self.stack@[i].1 <= self.visited@.len()
        &&& match self.pending {
            Some((_, d)) => 0 <= d < self.visited@.len(),
            None => true,
        }
    }

    /// Starts explaining the edge `(src)-edge_type->(dst)`; `exists` says
    /// whether the edge is in the graph. A missing edge gives a single
    /// `not found` row.
    pub fn begin(src: i64, edge_type: String, dst: i64, exists: bool) -> (w: ExplainWalk)
        ensures
            w.wf(),
            w.spec_visited().len() == 0,
            w.spec_pending() is None,
            exists ==> w.spec_rows().len() == 0 && w.spec_stack() == seq![
                (FactModel::Edge(src, edge_type@, dst), 0i64),
            ],
            !exists ==> w.spec_stack().len() == 0 && w.spec_rows() == seq![
                (0i64, fact_text(FactModel::Edge(src, edge_type@, dst)), "not found"@, dash(), dash()),
            ],
    {
        let root = Fact::Edge { s: src, p: edge_type, d: dst };
        let mut w = ExplainWalk {
            stack: Vec::new(),
            visited: Vec::new(),
            rows: Vec::new(),
            pending: None,
        };
        if !exists {
            let text = fact_to_string(&root);
            w.rows.push(
                ExplainRow {
                    depth: 0,
                    fact: text,
                    status: String::from_str("not found"),
                    rule: String::from_str("\u{2014}"),
                    premises: String::from_str("\u{2014}"),
                },
            );
            assert(w.spec_rows() =~= seq![
                (0i64, fact_text(fact_model(root)), "not found"@, dash(), dash()),
            ]);
        } else {
            w.stack.push((root, 0));
            assert(w.spec_stack() =~= seq![(fact_model(root), 0i64)]);
        }
        assert(w.spec_visited() =~= Seq::<FactModel>::empty());
        w
    }

    /// Pops the stack until a fact not yet expanded comes up, reporting each
    /// already explained fact on the way.
    pub fn next(&mut self) -> (step: ExplainStep)
        requires
            old(self).wf(),
            old(self).spec_pending() is None,
        ensures
            final(self).wf(),
            match step {
                ExplainStep::Provenance(f) => exists|k: int|
                    #![trigger old(self).spec_stack()[k]]
                    0 <= k < old(self).spec_stack().len() && old(self).spec_stack()[k].0 == fact_model(f)
                        && !old(self).spec_visited().contains(fact_model(f))
                        && (forall|j: int|
                        k < j < old(self).spec_stack().len() ==> old(self).spec_visited().contains(
                            #[trigger] old(self).spec_stack()[j].0,
                        )) && final(self).spec_stack() == old(self).spec_stack().take(k)
                        && final(self).spec_rows() == old(self).spec_rows() + revisit_rows(
                        old(self).spec_stack().skip(k + 1),
                    ) && final(self).spec_visited() == old(self).spec_visited().push(fact_model(f))
                        && final(self).spec_pending() == Some(old(self).spec_stack()[k]),
                ExplainStep::Done => {
                    &&& forall|j: int|
                        0 <= j < old(self).spec_stack().len() ==> old(self).spec_visited().contains(
                            #[trigger] old(self).spec_stack()[j].0,
                        )
                    &&& final(self).spec_stack().len() == 0
                    &&& final(self).spec_rows() == old(self).spec_rows() + revisit_rows(
                        old(self).spec_stack(),
                    )
                    &&& final(self).spec_visited() == old(self).spec_visited()
                    &&& final(self).spec_pending() is None
                },
            },
    {
        let ghost s0 = self.spec_stack();
        let ghost r0 = self.spec_rows();
        loop
            invariant
                self.wf(),
                self.pending is None,
                self.spec_visited() == old(self).spec_visited(),
                s0 == old(self).spec_stack(),
                r0 == old(self).spec_rows(),
                self.stack@.len() <= s0.len(),
                self.spec_stack() == s0.take(self.stack@.len() as int),
                forall|j: int|
                    self.stack@.len() <= j < s0.len() ==> self.spec_visited().contains(#[trigger] s0[j].0),
                self.spec_rows() == r0 + revisit_rows(s0.skip(self.stack@.len() as int)),
            decreases self.stack@.len(),
        {
            let n = self.stack.len();
            if n == 0 {
                assert(s0.skip(0) =~= s0);
                return ExplainStep::Done;
            }
            let ghost before = self.stack@;
            let (fact, depth) = match self.stack.pop() {
                Some(e) => e,
                None => {
                    assert(false);
                    return ExplainStep::Done;
                },
            };
            let ghost k = (n - 1) as int;
            proof {
                assert(stack_model(before) == s0.take(n as int));
                assert(before[k] == (fact, depth));
                assert(stack_model(before)[k] == s0[k]);
                assert(s0[k] == (fact_model(fact), depth));
                assert(self.spec_stack() =~= s0.take(k));
            }
            if self.contains_visited(&fact) {
                let text = fact_to_string(&fact);
                let ghost prev = self.rows@;
                self.rows.push(
                    ExplainRow {
                        depth,
                        fact: text,
                        status: String::from_str("(already explained above)"),
                        rule: String::from_str("\u{2014}"),
                        premises: String::from_str("\u{2014}"),
                    },
                );
                proof {
                    lemma_revisit_rows_front(s0.skip(k));
                    assert(s0.skip(k).drop_first() =~= s0.skip(k + 1));
                    assert(s0.skip(k)[0] == s0[k]);
                    assert(self.spec_rows() =~= rows_model(prev).push(revisit_row(fact_model(fact), depth)));
                    assert(self.spec_rows() =~= r0 + revisit_rows(s0.skip(k)));
                }
            } else {
                let copy = fact_clone(&fact);
                self.visited.push(copy);
                let answer = fact_clone(&fact);
                self.pending = Some((fact, depth));
                proof {
                    assert(self.spec_visited() =~= old(self).spec_visited().push(s0[k].0));
                    assert(self.spec_visited().no_duplicates()) by {
                        assert(!old(self).spec_visited().contains(s0[k].0));
                    }
                }
                return ExplainStep::Provenance(answer);
            }
        }
    }

    /// Reports how the pending fact is justified and queues its premises,
    /// one level deeper, for explanation.
    pub fn record(&mut self, justs: Vec<Justification>)
        requires
            old(self).wf(),
            old(self).spec_pending() is Some,
            old(self).spec_visited().len() <= i64::MAX,
        ensures
            final(self).wf(),
            final(self).spec_pending() is None,
            final(self).spec_visited() == old(self).spec_visited(),
            ({
                let (f, d) = old(self).spec_pending()->0;
                &&& final(self).spec_rows() == old(self).spec_rows() + expansion_rows(
                    f,
                    d,
                    justifications_model(justs@),
                )
                &&& final(self).spec_stack() == old(self).spec_stack() + premise_pushes(
                    justifications_model(justs@),
                    (d + 1) as i64,
                )
            }),
    {
        let (fact, depth) = match self.pending.take() {
            Some(p) => p,
            None => {
                assert(false);
                return;
            },
        };
        let ghost fm = fact_model(fact);
        let ghost jm = justifications_model(justs@);
        assert(0 <= depth < self.visited@.len());
        let ghost r0 = self.spec_rows();
        let ghost s0 = self.spec_stack();
        let text = fact_to_string(&fact);
        if justs.len() == 0 {
            self.rows.push(
                ExplainRow {
                    depth,
                    fact: text,
                    status: String::from_str("asserted"),
                    rule: String::from_str("\u{2014}"),
                    premises: String::from_str("\u{2014}"),
                },
            );
            assert(self.spec_rows() =~= r0 + expansion_rows(fm, depth, jm));
            assert(premise_pushes(jm, (depth + 1) as i64) =~= Seq::<(FactModel, i64)>::empty());
            assert(self.spec_stack() =~= s0 + premise_pushes(jm, (depth + 1) as i64));
            return;
        }
        let mut i: usize = 0;
        while i < justs.len()
            invariant
                i <= justs.len(),
                jm == justifications_model(justs@),
                justs@.len() > 0,
                text@ == fact_text(fm),
                self.spec_rows() == r0 + expansion_rows(fm, depth, jm).take(i as int),
                self.wf(),
                self.pending is None,
                self.spec_visited() == old(self).spec_visited(),
                self.spec_stack() == s0,
                0 <= depth < self.visited@.len(),
                self.visited@.len() <= i64::MAX,
            decreases justs.len() - i,
        {
            let j = &justs[i];
            let premises = premises_string(&j.premises);
            let ghost prev = self.rows@;
            self.rows.push(
                ExplainRow {
                    depth,
                    fact: text.clone(),
                    status: String::from_str("inferred"),
                    rule: String::from_str(rule_to_string(&j.rule)),
                    premises,
                },
            );
            proof {
                assert(expansion_rows(fm, depth, jm).take(i + 1) =~= expansion_rows(fm, depth, jm).take(
                    i as int,
                ).push(expansion_rows(fm, depth, jm)[i as int]));
                assert(self.spec_rows() =~= rows_model(prev).push(
                    (depth, fact_text(fm), "inferred"@, rule_name(j.rule), premises_text(facts_model(j.premises@))),
                ));
            }
            i = i + 1;
        }
        assert(expansion_rows(fm, depth, jm).take(justs.len() as int) =~= expansion_rows(fm, depth, jm));
        let next_depth = depth + 1;
        let mut justs = justs;
        proof {
            lemma_pushes_from_all(jm, jm.len() as int);
            assert(jm.take(jm.len() as int) =~= jm);
        }
        assert(pushes_from(jm, justs@.len() as int, next_depth) =~= Seq::<(FactModel, i64)>::empty());
        while justs.len() > 0
            invariant
                jm.len() == justs@.len() + (jm.len() - justs@.len()),
                justs@.len() <= jm.len(),
                justifications_model(justs@) == jm.take(justs@.len() as int),
                next_depth == depth + 1,
                0 <= depth < self.visited@.len(),
                self.wf(),
                self.pending is None,
                self.spec_visited() == old(self).spec_visited(),
                self.spec_rows() == r0 + expansion_rows(fm, depth, jm),
                self.spec_stack() == s0 + pushes_from(jm, justs@.len() as int, next_depth),
            decreases justs@.len(),
        {
            let ghost m = justs@.len() as int;
            let j = justs.pop().unwrap();
            proof {
                assert(justifications_model(justs@) =~= jm.take(m - 1));
                assert(justification_model(j) == jm[m - 1]) by {
                    assert(justifications_model(justs@.push(j)) == jm.take(m));
                    assert(justifications_model(justs@.push(j))[m - 1] == justification_model(j));
                }
            }
            let mut premises = j.premises;
            let ghost orig = facts_model(premises@);
            let ghost base = self.spec_stack();
            assert(orig == jm[m - 1].1);
            while premises.len() > 0
                invariant
                    0 <= next_depth <= self.visited@.len(),
                    self.wf(),
                    self.pending is None,
                    self.spec_visited() == old(self).spec_visited(),
                    self.spec_rows() == r0 + expansion_rows(fm, depth, jm),
                    premises@.len() <= orig.len(),
                    facts_model(premises@) == orig.take(premises@.len() as int),
                    self.spec_stack() == base + orig.skip(premises@.len() as int).reverse().map_values(
                        |f: FactModel| (f, next_depth),
                    ),
                decreases premises@.len(),
            {
                let ghost r = premises@.len() as int;
                let f = premises.pop().unwrap();
                proof {
                    assert(facts_model(premises@.push(f)) == orig.take(r));
                    assert(facts_model(premises@.push(f))[r - 1] == fact_model(f));
                    assert(fact_model(f) == orig[r - 1]);
                    assert(facts_model(premises@) =~= orig.take(r - 1));
                }
                let ghost prev = self.stack@;
                self.stack.push((f, next_depth));
                proof {
                    assert(orig.skip(r - 1).reverse() =~= orig.skip(r).reverse().push(orig[r - 1]));
                    assert(stack_model(self.stack@) =~= stack_model(prev).push((fact_model(f), next_depth)));
                    assert(self.spec_stack() =~= base + orig.skip(r - 1).reverse().map_values(
                        |f: FactModel| (f, next_depth),
                    ));
                }
            }
            proof {
                assert(orig.skip(0) =~= orig);
                assert(pushes_from(jm, m - 1, next_depth) == pushes_from(jm, m, next_depth) + jm[m - 1].1.reverse().map_values(
                    |f: FactModel| (f, next_depth),
                ));
                assert(self.spec_stack() =~= s0 + pushes_from(jm, m - 1, next_depth));
            }
        }
        proof {
            lemma_pushes_from_all(jm, 0);
            assert(jm.take(0) =~= Seq::<(RuleKind, Seq<FactModel>)>::empty());
            assert(pushes_from(jm, 0, next_depth) + premise_pushes(jm.take(0), next_depth) == premise_pushes(jm, next_depth));
            assert(pushes_from(jm, 0, next_depth) =~= premise_pushes(jm, next_depth));
        }
    }

    /// How many facts have been expanded.
    pub fn expanded(&self) -> (n: usize)
        ensures
            n == self.spec_visited().len(),
    {
        self.visited.len()
    }

    /// The rows of the explanation.
    pub fn into_rows(self) -> (r: Vec<ExplainRow>)
        ensures
            rows_model(r@) == self.spec_rows(),
    {
        self.rows
    }

    fn contains_visited(&self, f: &Fact) -> (r: bool)
        ensures
            r == self.spec_visited().contains(fact_model(*f)),
    {
        let mut i: usize = 0;
        while i < self.visited.len()
            invariant
                i <= self.visited.len(),
                forall|k: int| 0 <= k < i ==> fact_model(#[trigger] self.visited@[k]) != fact_model(*f),
            decreases self.visited.len() - i,
        {
            if fact_eq(&self.visited[i], f) {
                assert(self.spec_visited()[i as int] == fact_model(*f));
                return true;
            }
            i = i + 1;
        }
        proof {
            if self.spec_visited().contains(fact_model(*f)) {
                let k = choose|k: int| 0 <= k < self.spec_visited().len() && self.spec_visited()[k] == fact_model(*f);
                assert(fact_model(self.visited@[k]) == fact_model(*f));
            }
        }
        false
    }
}

/// The premise pushes of the justifications from index `m` on, in the order
/// they are pushed (the last justification first).
pub open spec fn pushes_from(js: Seq<(RuleKind, Seq<FactModel>)>, m: int, depth: i64) -> Seq<(FactModel, i64)>
    decreases js.len() - m,
{
    if m >= js.len() || m < 0 {
        Seq::empty()
    } else {
        pushes_from(js, m + 1, depth) + js[m].1.reverse().map_values(|f: FactModel| (f, depth))
    }
}

proof fn lemma_pushes_from_all(js: Seq<(RuleKind, Seq<FactModel>)>, m: int)
    requires
        0 <= m <= js.len(),
    ensures
        forall|d: i64| pushes_from(js, m, d) + premise_pushes(js.take(m), d) == #[trigger] premise_pushes(js, d),
    decreases js.len() - m,
{
    if m == js.len() {
        assert(js.take(m) =~= js);
        assert forall|d: i64| pushes_from(js, m, d) + premise_pushes(js.take(m), d) == #[trigger] premise_pushes(js, d) by {
            assert(pushes_from(js, m, d) + premise_pushes(js, d) =~= premise_pushes(js, d));
        }
    } else {
        lemma_pushes_from_all(js, m + 1);
        assert forall|d: i64| pushes_from(js, m, d) + premise_pushes(js.take(m), d) == #[trigger] premise_pushes(js, d) by {
            let t = js.take(m + 1);
            assert(t.drop_last() =~= js.take(m));
            assert(t.last() == js[m]);
            assert(premise_pushes(t, d) == t.last().1.reverse().map_values(|f: FactModel| (f, d)) + premise_pushes(t.drop_last(), d));
            assert(pushes_from(js, m, d) + premise_pushes(js.take(m), d) =~= pushes_from(js, m + 1, d) + premise_pushes(t, d));
        }
    }
}

/// Law: the walk expands each fact at most once.
pub proof fn lemma_each_fact_expanded_once(w: &ExplainWalk)
    requires
        w.wf(),
    ensures
        w.spec_visited().no_duplicates(),
{
}

proof fn lemma_revisit_rows_front(s: Seq<(FactModel, i64)>)
    requires
        s.len() >= 1,
    ensures
        revisit_rows(s) == revisit_rows(s.drop_first()).push(revisit_row(s[0].0, s[0].1)),
    decreases s.len(),
{
    if s.len() == 1 {
        assert(s.drop_first() =~= Seq::<(FactModel, i64)>::empty());
        assert(s.drop_last() =~= Seq::<(FactModel, i64)>::empty());
        assert(revisit_rows(s) =~= seq![revisit_row(s[0].0, s[0].1)]);
    } else {
        lemma_revisit_rows_front(s.drop_last());
        assert(s.drop_last().drop_first() =~= s.drop_first().drop_last());
        assert(revisit_rows(s) =~= seq![revisit_row(s.last().0, s.last().1)] + revisit_rows(s.drop_last()));
        assert(revisit_rows(s.drop_first()) =~= seq![revisit_row(s.last().0, s.last().1)]
            + revisit_rows(s.drop_first().drop_last()));
    }
}

} // verus!
