//! Semantic relation metadata of a space and the inference rules that need
//! no graph reads: symmetry, inverses and super-properties.
use vstd::prelude::*;

verus! {

/// Semantic flags declared on an edge type.
#[derive(Debug)]
pub struct SemanticFlags {
    pub transitive: bool,
    pub symmetric: bool,
    pub inverse_of: Option<String>,
    pub subproperty_of: Option<String>,
    pub domain: Option<String>,
    pub range: Option<String>,
}

/// Semantic relations of a space, indexed by edge type. Multi-valued
/// relations are kept as `(edge type, related type)` pairs in the order they
/// were registered; single-valued ones keep every registration and the last
/// one for a type is the one in force.
#[derive(Debug)]
pub struct RelMeta {
    transitive: Vec<String>,
    symmetric: Vec<String>,
    inverse: Vec<(String, String)>,
    superprops: Vec<(String, String)>,
    domain: Vec<(String, String)>,
    range: Vec<(String, String)>,
}

/// Whether `names` holds `p`.
pub open spec fn names_contain(names: Seq<String>, p: Seq<char>) -> bool {
    exists|i: int| 0 <= i < names.len() && #[trigger] names[i]@ == p
}

/// The values paired with `key`, in registration order.
pub open spec fn values_of(pairs: Seq<(String, String)>, key: Seq<char>) -> Seq<Seq<char>>
    decreases pairs.len(),
{
    if pairs.len() == 0 {
        Seq::empty()
    } else {
        let rest = values_of(pairs.drop_last(), key);
        if pairs.last().0@ == key {
            rest.push(pairs.last().1@)
        } else {
            rest
        }
    }
}

/// The value last registered for `key`.
pub open spec fn last_value_of(pairs: Seq<(String, String)>, key: Seq<char>) -> Option<Seq<char>>
    decreases pairs.len(),
{
    if pairs.len() == 0 {
        None
    } else if pairs.last().0@ == key {
        Some(pairs.last().1@)
    } else {
        last_value_of(pairs.drop_last(), key)
    }
}

/// An inferred edge `(src, edge type, dst)` by its model.
pub type TripleModel = (i64, Seq<char>, i64);

pub open spec fn triples_model(ts: Seq<(i64, String, i64)>) -> Seq<TripleModel> {
    ts.map_values(|t: (i64, String, i64)| (t.0, t.1@, t.2))
}

impl RelMeta {
    pub closed spec fn transitive_types(&self) -> Seq<String> {
        self.transitive@
    }

    pub closed spec fn symmetric_types(&self) -> Seq<String> {
        self.symmetric@
    }

    pub closed spec fn inverse_pairs(&self) -> Seq<(String, String)> {
        self.inverse@
    }

    pub closed spec fn superprop_pairs(&self) -> Seq<(String, String)> {
        self.superprops@
    }

    pub closed spec fn domain_pairs(&self) -> Seq<(String, String)> {
        self.domain@
    }

    pub closed spec fn range_pairs(&self) -> Seq<(String, String)> {
        self.range@
    }

    /// No relation has been registered.
    pub open spec fn spec_is_empty(&self) -> bool {
        &&& self.transitive_types().len() == 0
        &&& self.symmetric_types().len() == 0
        &&& self.inverse_pairs().len() == 0
        &&& self.superprop_pairs().len() == 0
        &&& self.domain_pairs().len() == 0
        &&& self.range_pairs().len() == 0
    }

    /// Metadata with no relations.
    pub fn new() -> (m: RelMeta)
        ensures
            m.spec_is_empty(),
    {
        RelMeta {
            transitive: Vec::new(),
            symmetric: Vec::new(),
            inverse: Vec::new(),
            superprops: Vec::new(),
            domain: Vec::new(),
            range: Vec::new(),
        }
    }

    /// Whether the space declares no semantic relation at all.
    pub fn is_empty(&self) -> (r: bool)
        ensures
            r == self.spec_is_empty(),
    {
        self.transitive.len() == 0 && self.symmetric.len() == 0 && self.inverse.len() == 0
            && self.superprops.len() == 0 && self.domain.len() == 0 && self.range.len() == 0
    }

    /// Registers the semantics declared on edge type `name`. `inverseOf` is
    /// recorded in both directions.
    pub fn register(&mut self, name: &String, sem: &SemanticFlags)
        ensures
            final(self).transitive_types() == (if sem.transitive {
                old(self).transitive_types().push(*name)
            } else {
                old(self).transitive_types()
            }),
            final(self).symmetric_types() == (if sem.symmetric {
                old(self).symmetric_types().push(*name)
            } else {
                old(self).symmetric_types()
            }),
            final(self).inverse_pairs() == (match &sem.inverse_of {
                Some(q) => old(self).inverse_pairs().push((*name, *q)).push((*q, *name)),
                None => old(self).inverse_pairs(),
            }),
            final(self).superprop_pairs() == (match &sem.subproperty_of {
                Some(q) => old(self).superprop_pairs().push((*name, *q)),
                None => old(self).superprop_pairs(),
            }),
            final(self).domain_pairs() == (match &sem.domain {
                Some(c) => old(self).domain_pairs().push((*name, *c)),
                None => old(self).domain_pairs(),
            }),
            final(self).range_pairs() == (match &sem.range {
                Some(c) => old(self).range_pairs().push((*name, *c)),
                None => old(self).range_pairs(),
            }),
    {
        if sem.transitive {
            self.transitive.push(name.clone());
        }
        if sem.symmetric {
            self.symmetric.push(name.clone());
        }
        match &sem.inverse_of {
            Some(q) => {
                self.inverse.push((name.clone(), q.clone()));
                self.inverse.push((q.clone(), name.clone()));
            },
            None => {},
        }
        match &sem.subproperty_of {
            Some(q) => self.superprops.push((name.clone(), q.clone())),
            None => {},
        }
        match &sem.domain {
            Some(c) => self.domain.push((name.clone(), c.clone())),
            None => {},
        }
        match &sem.range {
            Some(c) => self.range.push((name.clone(), c.clone())),
            None => {},
        }
    }

    /// Whether edge type `p` is declared transitive.
    pub fn is_transitive(&self, p: &String) -> (r: bool)
        ensures
            r == names_contain(self.transitive_types(), p@),
    {
        contains_name(&self.transitive, p)
    }

    /// The domain class of edge type `p`, if one is declared.
    pub fn domain_of(&self, p: &String) -> (r: Option<String>)
        ensures
            match r {
                Some(c) => last_value_of(self.domain_pairs(), p@) == Some(c@),
                None => last_value_of(self.domain_pairs(), p@) is None,
            },
    {
        last_value(&self.domain, p)
    }

    /// The range class of edge type `p`, if one is declared.
    pub fn range_of(&self, p: &String) -> (r: Option<String>)
        ensures
            match r {
                Some(c) => last_value_of(self.range_pairs(), p@) == Some(c@),
                None => last_value_of(self.range_pairs(), p@) is None,
            },
    {
        last_value(&self.range, p)
    }

    /// The edges that `(s)-p->(d)` entails without reading the graph, in the
    /// order materialization derives them: the symmetric twin, then one
    /// reversed edge per inverse type, then one edge per super-property.
    pub open spec fn local_derivations(&self, s: i64, p: Seq<char>, d: i64) -> Seq<TripleModel> {
        let sym: Seq<TripleModel> = if names_contain(self.symmetric_types(), p) {
            seq![(d, p, s)]
        } else {
            Seq::empty()
        };
        let inv = values_of(self.inverse_pairs(), p).map_values(|q: Seq<char>| (d, q, s));
        let sup = values_of(self.superprop_pairs(), p).map_values(|q: Seq<char>| (s, q, d));
        sym + inv + sup
    }

    /// Derives the edges entailed by `(s)-p->(d)` through symmetry, inverses
    /// and super-properties.
    pub fn derive_local(&self, s: i64, p: &String, d: i64) -> (r: Vec<(i64, String, i64)>)
        ensures
            triples_model(r@) == self.local_derivations(s, p@, d),
    {
        let mut out: Vec<(i64, String, i64)> = Vec::new();
        if contains_name(&self.symmetric, p) {
            out.push((d, p.clone(), s));
        }
        let ghost sym = triples_model(out@);
        let invs = all_values(&self.inverse, p);
        let mut i: usize = 0;
        while i < invs.len()
            invariant
                i <= invs.len(),
                triples_model(out@) == sym + strings_model(invs@).take(i as int).map_values(
                    |q: Seq<char>| (d, q, s),
                ),
            decreases invs.len() - i,
        {
            let ghost prev = out@;
            out.push((d, invs[i].clone(), s));
            proof {
                assert(triples_model(out@) =~= triples_model(prev).push((d, invs@[i as int]@, s)));
                assert(strings_model(invs@).take(i + 1) =~= strings_model(invs@).take(i as int).push(
                    invs@[i as int]@,
                ));
                assert(triples_model(out@) =~= sym + strings_model(invs@).take(i + 1).map_values(
                    |q: Seq<char>| (d, q, s),
                ));
            }
            i = i + 1;
        }
        assert(strings_model(invs@).take(invs.len() as int) =~= strings_model(invs@));
        let ghost with_inv = triples_model(out@);
        let sups = all_values(&self.superprops, p);
        let mut j: usize = 0;
        while j < sups.len()
            invariant
                j <= sups.len(),
                triples_model(out@) == with_inv + strings_model(sups@).take(j as int).map_values(
                    |q: Seq<char>| (s, q, d),
                ),
            decreases sups.len() - j,
        {
            let ghost prev = out@;
            out.push((s, sups[j].clone(), d));
            proof {
                assert(triples_model(out@) =~= triples_model(prev).push((s, sups@[j as int]@, d)));
                assert(strings_model(sups@).take(j + 1) =~= strings_model(sups@).take(j as int).push(
                    sups@[j as int]@,
                ));
                assert(triples_model(out@) =~= with_inv + strings_model(sups@).take(j + 1).map_values(
                    |q: Seq<char>| (s, q, d),
                ));
            }
            j = j + 1;
        }
        assert(strings_model(sups@).take(sups.len() as int) =~= strings_model(sups@));
        assert(triples_model(out@) =~= self.local_derivations(s, p@, d));
        out
    }
}

pub open spec fn strings_model(v: Seq<String>) -> Seq<Seq<char>> {
    v.map_values(|x: String| x@)
}

fn contains_name(names: &Vec<String>, p: &String) -> (r: bool)
    ensures
        r == names_contain(names@, p@),
{
    let mut i: usize = 0;
    while i < names.len()
        invariant
            i <= names.len(),
            forall|k: int| 0 <= k < i ==> #[trigger] names@[k]@ != p@,
        decreases names.len() - i,
    {
        if names[i] == *p {
            return true;
        }
        i = i + 1;
    }
    false
}

fn all_values(pairs: &Vec<(String, String)>, key: &String) -> (r: Vec<String>)
    ensures
        strings_model(r@) == values_of(pairs@, key@),
{
    let mut out: Vec<String> = Vec::new();
    let mut i: usize = 0;
    while i < pairs.len()
        invariant
            i <= pairs.len(),
            strings_model(out@) == values_of(pairs@.take(i as int), key@),
        decreases pairs.len() - i,
    {
        assert(pairs@.take(i + 1).drop_last() =~= pairs@.take(i as int));
        if pairs[i].0 == *key {
            out.push(pairs[i].1.clone());
        }
        assert(strings_model(out@) =~= values_of(pairs@.take(i + 1), key@));
        i = i + 1;
    }
    assert(pairs@.take(pairs.len() as int) =~= pairs@);
    out
}

fn last_value(pairs: &Vec<(String, String)>, key: &String) -> (r: Option<String>)
    ensures
        match r {
            Some(c) => last_value_of(pairs@, key@) == Some(c@),
            None => last_value_of(pairs@, key@) is None,
        },
{
    let mut found: Option<String> = None;
    let mut i: usize = 0;
    while i < pairs.len()
        invariant
            i <= pairs.len(),
            match found {
                Some(c) => last_value_of(pairs@.take(i as int), key@) == Some(c@),
                None => last_value_of(pairs@.take(i as int), key@) is None,
            },
        decreases pairs.len() - i,
    {
        assert(pairs@.take(i + 1).drop_last() =~= pairs@.take(i as int));
        if pairs[i].0 == *key {
            found = Some(pairs[i].1.clone());
        }
        i = i + 1;
    }
    assert(pairs@.take(pairs.len() as int) =~= pairs@);
    found
}

} // verus!
