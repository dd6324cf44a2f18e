//! Decisions of the schema statements that define classes and edge types:
//! what CREATE CLASS, DROP CLASS and CREATE EDGE accept, given what the
//! schema store already holds.
use vstd::prelude::*;
use crate::error::{ErrorKind, ExecutionError, fails_with, make_error};
use crate::inference::SemanticFlags;
use crate::lookup::first_occurrences;
use crate::text::{str_is, chars_of, order_chars, lex_order, Order};

verus! {

/// A class: a tag with superclasses.
#[derive(Debug)]
pub struct ClassDef {
    pub name: String,
    pub superclasses: Vec<String>,
}

pub open spec fn names_view(v: Seq<String>) -> Seq<Seq<char>> {
    v.map_values(|s: String| s@)
}

pub(crate) fn contains_name(v: &Vec<String>, s: &str) -> (r: bool)
    ensures
        r == names_view(v@).contains(s@),
{
    let mut i: usize = 0;
    while i < v.len()
        invariant
            i <= v.len(),
            forall|k: int| 0 <= k < i ==> (#[trigger] v@[k])@ != s@,
        decreases v.len() - i,
    {
        if str_is(v[i].as_str(), s) {
            assert(names_view(v@)[i as int] == s@);
            return true;
        }
        i = i + 1;
    }
    assert forall|k: int| 0 <= k < names_view(v@).len() implies names_view(v@)[k] != s@ by {
        assert(names_view(v@)[k] == v@[k]@);
    }
    false
}

/// The declared superclasses with repeats removed, in declaration order.
pub fn dedup_parents(superclasses: Vec<String>) -> (r: Vec<String>)
    ensures
        names_view(r@) == first_occurrences(names_view(superclasses@)),
{
    let ghost all = names_view(superclasses@);
    let n = superclasses.len();
    let mut src = superclasses;
    let mut rev: Vec<String> = Vec::new();
    while src.len() > 0
        invariant
            src@.len() + rev@.len() == n,
            n == all.len(),
            names_view(src@) == all.subrange(0, src@.len() as int),
            forall|k: int| 0 <= k < rev@.len() ==> rev@[k]@ == all[n - 1 - k],
        decreases src@.len(),
    {
        let ghost before = src@;
        let x = src.pop().unwrap();
        proof {
            assert(names_view(before)[before.len() - 1] == x@);
            assert(names_view(src@) =~= names_view(before).drop_last());
        }
        rev.push(x);
    }
    let mut out: Vec<String> = Vec::new();
    let mut k: usize = 0;
    while rev.len() > 0
        invariant
            k + rev@.len() == n,
            n == all.len(),
            forall|i: int| 0 <= i < rev@.len() ==> rev@[i]@ == all[n - 1 - i],
            names_view(out@) == first_occurrences(all.take(k as int)),
        decreases rev@.len(),
    {
        let p = rev.pop().unwrap();
        proof {
            assert(p@ == all[k as int]);
            assert(all.take(k + 1).drop_last() =~= all.take(k as int));
            assert(all.take(k + 1).last() == p@);
            crate::lookup::lemma_first_occurrences(all.take(k as int));
        }
        let ghost before = out@;
        if !contains_name(&out, p.as_str()) {
            out.push(p);
            proof {
                assert(names_view(out@) =~= names_view(before).push(out@.last()@));
            }
        }
        k = k + 1;
    }
    assert(all.take(n as int) =~= all);
    out
}

/// What is known of one declared superclass.
pub struct ParentFacts {
    /// It is a class (not merely a tag).
    pub is_class: bool,
    /// The class being created is among its ancestors.
    pub has_child_as_ancestor: bool,
}

/// Whether a superclass is refused.
pub open spec fn bad_parent(parent: Seq<char>, facts: ParentFacts, name: Seq<char>) -> bool {
    parent == name || !facts.is_class || facts.has_child_as_ancestor
}

/// Position of the first refused superclass.
pub open spec fn first_bad_parent(
    parents: Seq<String>,
    facts: Seq<ParentFacts>,
    name: Seq<char>,
    from: int,
) -> Option<int>
    decreases parents.len() - from,
{
    if from >= parents.len() || from < 0 {
        None
    } else if bad_parent(parents[from]@, facts[from], name) {
        Some(from)
    } else {
        first_bad_parent(parents, facts, name, from + 1)
    }
}

/// The detail of the error for a refused superclass.
pub open spec fn parent_detail(parent: Seq<char>, facts: ParentFacts, name: Seq<char>) -> Seq<char> {
    if parent == name {
        "Class "@ + name + " cannot be a subclass of itself"@
    } else if !facts.is_class {
        "Superclass "@ + parent + " does not exist as a class"@
    } else {
        "SUBCLASS OF "@ + parent + " would create a cycle through "@ + name
    }
}

/// Whether CREATE CLASS `name` creates the class (`Ok(true)`), is skipped
/// under IF NOT EXISTS (`Ok(false)`), or is refused: the class exists, a tag
/// holds the name, or a superclass (`parents`, already free of repeats, with
/// `facts` about each) is the class itself, is no class, or would close a
/// cycle.
pub fn create_class_decision(
    name: &str,
    if_not_exists: bool,
    class_exists: bool,
    tag_exists: bool,
    parents: &Vec<String>,
    facts: &Vec<ParentFacts>,
) -> (r: Result<bool, ExecutionError>)
    requires
        parents@.len() == facts@.len(),
    ensures
        class_exists && if_not_exists ==> (r matches Ok(b) && !b),
        class_exists && !if_not_exists ==> fails_with(
            r,
            ErrorKind::InvalidOperation,
            "Class "@ + name@ + " already exists"@,
        ),
        !class_exists && tag_exists ==> fails_with(
            r,
            ErrorKind::InvalidOperation,
            "Tag "@ + name@ + " already exists; classes and tags share one namespace"@,
        ),
        !class_exists && !tag_exists ==> match first_bad_parent(parents@, facts@, name@, 0) {
            Some(i) => fails_with(
                r,
                ErrorKind::InvalidOperation,
                parent_detail(parents@[i]@, facts@[i], name@),
            ),
            None => (r matches Ok(b) && b),
        },
{
    if class_exists {
        if if_not_exists {
            return Ok(false);
        }
        let mut d = String::from_str("Class ");
        d.append(name);
        d.append(" already exists");
        return Err(make_error(ErrorKind::InvalidOperation, d));
    }
    if tag_exists {
        let mut d = String::from_str("Tag ");
        d.append(name);
        d.append(" already exists; classes and tags share one namespace");
        return Err(make_error(ErrorKind::InvalidOperation, d));
    }
    let mut i: usize = 0;
    while i < parents.len()
        invariant
            i <= parents@.len(),
            parents@.len() == facts@.len(),
            !class_exists,
            !tag_exists,
            first_bad_parent(parents@, facts@, name@, 0) == first_bad_parent(
                parents@,
                facts@,
                name@,
                i as int,
            ),
        decreases parents.len() - i,
    {
        let parent = parents[i].as_str();
        let f = &facts[i];
        if str_is(parent, name) {
            let mut d = String::from_str("Class ");
            d.append(name);
            d.append(" cannot be a subclass of itself");
            return Err(make_error(ErrorKind::InvalidOperation, d));
        }
        if !f.is_class {
            let mut d = String::from_str("Superclass ");
            d.append(parent);
            d.append(" does not exist as a class");
            return Err(make_error(ErrorKind::InvalidOperation, d));
        }
        if f.has_child_as_ancestor {
            let mut d = String::from_str("SUBCLASS OF ");
            d.append(parent);
            d.append(" would create a cycle through ");
            d.append(name);
            return Err(make_error(ErrorKind::InvalidOperation, d));
        }
        i = i + 1;
    }
    Ok(true)
}

/// The classes that list `name` among their superclasses, in order.
pub open spec fn children_of(defs: Seq<ClassDef>, name: Seq<char>) -> Seq<Seq<char>>
    decreases defs.len(),
{
    if defs.len() == 0 {
        Seq::empty()
    } else {
        let pre = children_of(defs.drop_last(), name);
        if names_view(defs.last().superclasses@).contains(name) {
            pre.push(defs.last().name@)
        } else {
            pre
        }
    }
}

/// Names joined with `, `.
pub open spec fn joined_names(names: Seq<Seq<char>>) -> Seq<char>
    decreases names.len(),
{
    if names.len() == 0 {
        Seq::empty()
    } else if names.len() == 1 {
        names[0]
    } else {
        joined_names(names.drop_last()) + ", "@ + names.last()
    }
}

/// Whether DROP CLASS `name` deletes the class (`Ok(true)`), is skipped
/// under IF EXISTS (`Ok(false)`), or is refused: the class does not exist,
/// or other classes (among `defs`, the space's classes) name it as a
/// superclass.
pub fn drop_class_decision(name: &str, if_exists: bool, exists: bool, defs: &Vec<ClassDef>) -> (r:
    Result<bool, ExecutionError>)
    ensures
        !exists && if_exists ==> (r matches Ok(b) && !b),
        !exists && !if_exists ==> fails_with(
            r,
            ErrorKind::InvalidOperation,
            "Class "@ + name@ + " not found"@,
        ),
        exists && children_of(defs@, name@).len() > 0 ==> fails_with(
            r,
            ErrorKind::InvalidOperation,
            "Class "@ + name@ + " has subclasses ("@ + joined_names(children_of(defs@, name@))
                + "); drop them first"@,
        ),
        exists && children_of(defs@, name@).len() == 0 ==> (r matches Ok(b) && b),
{
    if !exists {
        if if_exists {
            return Ok(false);
        }
        let mut d = String::from_str("Class ");
        d.append(name);
        d.append(" not found");
        return Err(make_error(ErrorKind::InvalidOperation, d));
    }
    let mut list = String::new();
    let mut count: usize = 0;
    let mut i: usize = 0;
    while i < defs.len()
        invariant
            i <= defs@.len(),
            count <= i,
            exists,
            count == children_of(defs@.take(i as int), name@).len(),
            list@ == joined_names(children_of(defs@.take(i as int), name@)),
        decreases defs.len() - i,
    {
        proof {
            assert(defs@.take(i + 1).drop_last() =~= defs@.take(i as int));
        }
        if contains_name(&defs[i].superclasses, name) {
            if count > 0 {
                list.append(", ");
            }
            list.append(defs[i].name.as_str());
            proof {
                let c = children_of(defs@.take(i as int), name@);
                let c2 = c.push(defs@[i as int].name@);
                if c.len() > 0 {
                    assert(c2.drop_last() =~= c);
                } else {
                    assert(c2.len() == 1);
                    assert(Seq::<char>::empty() + defs@[i as int].name@ =~= defs@[i as int].name@);
                }
            }
            count = count + 1;
        }
        i = i + 1;
    }
    assert(defs@.take(defs@.len() as int) =~= defs@);
    if count > 0 {
        let mut d = String::from_str("Class ");
        d.append(name);
        d.append(" has subclasses (");
        d.append(list.as_str());
        d.append("); drop them first");
        return Err(make_error(ErrorKind::InvalidOperation, d));
    }
    Ok(true)
}

/// What is known of the names an edge type's semantics refer to.
pub struct EdgeTargets {
    /// The INVERSE OF edge type exists.
    pub inverse_exists: bool,
    /// The SUBPROPERTY OF edge type exists.
    pub subproperty_exists: bool,
    /// The DOMAIN class exists as a class or tag.
    pub domain_exists: bool,
    /// The RANGE class exists as a class or tag.
    pub range_exists: bool,
}

/// The error CREATE EDGE `name` raises for its semantic clauses, checked in
/// the order INVERSE OF, SUBPROPERTY OF, DOMAIN, RANGE.
pub open spec fn edge_semantics_error(
    name: Seq<char>,
    s: SemanticFlags,
    t: EdgeTargets,
) -> Option<Seq<char>> {
    match s.inverse_of {
        Some(x) if x@ == name => Some("Edge "@ + name + " cannot be "@ + "INVERSE OF"@ + " itself"@),
        Some(x) if !t.inverse_exists => Some(
            "INVERSE OF"@ + " target edge type '"@ + x@ + "' does not exist"@,
        ),
        _ => match s.subproperty_of {
            Some(x) if x@ == name => Some(
                "Edge "@ + name + " cannot be "@ + "SUBPROPERTY OF"@ + " itself"@,
            ),
            Some(x) if !t.subproperty_exists => Some(
                "SUBPROPERTY OF"@ + " target edge type '"@ + x@ + "' does not exist"@,
            ),
            _ => match s.domain {
                Some(x) if !t.domain_exists => Some(
                    "DOMAIN"@ + " target class '"@ + x@ + "' does not exist"@,
                ),
                _ => match s.range {
                    Some(x) if !t.range_exists => Some(
                        "RANGE"@ + " target class '"@ + x@ + "' does not exist"@,
                    ),
                    _ => None,
                },
            },
        },
    }
}

fn self_reference_error(name: &str, clause: &str) -> (e: ExecutionError)
    ensures
        e.spec_kind() == ErrorKind::InvalidOperation,
        e.spec_detail() == "Edge "@ + name@ + " cannot be "@ + clause@ + " itself"@,
{
    let mut d = String::from_str("Edge ");
    d.append(name);
    d.append(" cannot be ");
    d.append(clause);
    d.append(" itself");
    make_error(ErrorKind::InvalidOperation, d)
}

fn missing_target_error(clause: &str, what: &str, target: &str) -> (e: ExecutionError)
    ensures
        e.spec_kind() == ErrorKind::InvalidOperation,
        e.spec_detail() == clause@ + what@ + target@ + "' does not exist"@,
{
    let mut d = String::from_str(clause);
    d.append(what);
    d.append(target);
    d.append("' does not exist");
    make_error(ErrorKind::InvalidOperation, d)
}

/// Whether CREATE EDGE `name` creates the edge type (`Ok(true)`), is
/// skipped under IF NOT EXISTS (`Ok(false)`), or is refused: the type
/// exists, or a semantic clause names the type itself or something that does
/// not exist (see [`edge_semantics_error`]).
pub fn create_edge_decision(
    name: &str,
    if_not_exists: bool,
    exists: bool,
    semantics: &SemanticFlags,
    targets: &EdgeTargets,
) -> (r: Result<bool, ExecutionError>)
    ensures
        exists && if_not_exists ==> (r matches Ok(b) && !b),
        exists && !if_not_exists ==> fails_with(
            r,
            ErrorKind::InvalidOperation,
            "Edge "@ + name@ + " already exists"@,
        ),
        !exists ==> match edge_semantics_error(name@, *semantics, *targets) {
            Some(d) => fails_with(r, ErrorKind::InvalidOperation, d),
            None => (r matches Ok(b) && b),
        },
{
    if exists {
        if if_not_exists {
            return Ok(false);
        }
        let mut d = String::from_str("Edge ");
        d.append(name);
        d.append(" already exists");
        return Err(make_error(ErrorKind::InvalidOperation, d));
    }
    if let Some(x) = &semantics.inverse_of {
        if str_is(x.as_str(), name) {
            return Err(self_reference_error(name, "INVERSE OF"));
        }
        if !targets.inverse_exists {
            return Err(missing_target_error("INVERSE OF", " target edge type '", x.as_str()));
        }
    }
    if let Some(x) = &semantics.subproperty_of {
        if str_is(x.as_str(), name) {
            return Err(self_reference_error(name, "SUBPROPERTY OF"));
        }
        if !targets.subproperty_exists {
            return Err(missing_target_error("SUBPROPERTY OF", " target edge type '", x.as_str()));
        }
    }
    if let Some(x) = &semantics.domain {
        if !targets.domain_exists {
            return Err(missing_target_error("DOMAIN", " target class '", x.as_str()));
        }
    }
    if let Some(x) = &semantics.range {
        if !targets.range_exists {
            return Err(missing_target_error("RANGE", " target class '", x.as_str()));
        }
    }
    Ok(true)
}


/// A class with the classes it is declared disjoint with.
#[derive(Debug)]
pub struct ClassDisjoint {
    pub name: String,
    pub disjoint: Vec<String>,
}

/// Whether `a` and `b` are declared disjoint, by either of them.
pub open spec fn declared_disjoint(decl: Seq<ClassDisjoint>, a: Seq<char>, b: Seq<char>) -> bool {
    exists|k: int|
        0 <= k < decl.len() && ((#[trigger] decl[k]).name@ == a && names_view(
            decl[k].disjoint@,
        ).contains(b) || decl[k].name@ == b && names_view(decl[k].disjoint@).contains(a))
}

/// A vertex with these classes violates the disjointness of `a` and `b`,
/// reported with `a` ordered before `b`.
pub open spec fn is_violation(
    classes: Seq<Seq<char>>,
    decl: Seq<ClassDisjoint>,
    a: Seq<char>,
    b: Seq<char>,
) -> bool {
    &&& classes.contains(a)
    &&& classes.contains(b)
    &&& lex_order(a, b) == Order::Less
    &&& declared_disjoint(decl, a, b)
}

fn is_declared_disjoint(decl: &Vec<ClassDisjoint>, a: &str, b: &str) -> (r: bool)
    ensures
        r == declared_disjoint(decl@, a@, b@),
{
    let mut k: usize = 0;
    while k < decl.len()
        invariant
            k <= decl@.len(),
            forall|j: int|
                0 <= j < k ==> !((#[trigger] decl@[j]).name@ == a@ && names_view(
                    decl@[j].disjoint@,
                ).contains(b@) || decl@[j].name@ == b@ && names_view(decl@[j].disjoint@).contains(
                    a@,
                )),
        decreases decl.len() - k,
    {
        let d = &decl[k];
        if (str_is(d.name.as_str(), a) && contains_name(&d.disjoint, b)) || (str_is(
            d.name.as_str(),
            b,
        ) && contains_name(&d.disjoint, a)) {
            return true;
        }
        k = k + 1;
    }
    false
}

fn has_pair(out: &Vec<(String, String)>, a: &str, b: &str) -> (r: bool)
    ensures
        r == exists|i: int| 0 <= i < out@.len() && (#[trigger] out@[i]).0@ == a@ && out@[i].1@ == b@,
{
    let mut i: usize = 0;
    while i < out.len()
        invariant
            i <= out@.len(),
            forall|j: int| 0 <= j < i ==> !((#[trigger] out@[j]).0@ == a@ && out@[j].1@ == b@),
        decreases out.len() - i,
    {
        if str_is(out[i].0.as_str(), a) && str_is(out[i].1.as_str(), b) {
            return true;
        }
        i = i + 1;
    }
    false
}

/// The disjointness violations of a vertex whose classes are `classes`: each
/// pair of its classes declared disjoint, once, the smaller name first.
pub fn disjoint_violations(classes: &Vec<String>, decl: &Vec<ClassDisjoint>) -> (r: Vec<(String, String)>)
    ensures
        forall|i: int|
            0 <= i < r@.len() ==> is_violation(
                names_view(classes@),
                decl@,
                (#[trigger] r@[i]).0@,
                r@[i].1@,
            ),
        forall|a: Seq<char>, b: Seq<char>|
            #[trigger] is_violation(names_view(classes@), decl@, a, b) ==> exists|i: int|
                0 <= i < r@.len() && (#[trigger] r@[i]).0@ == a && r@[i].1@ == b,
        forall|i: int, j: int|
            0 <= i < j < r@.len() ==> !((#[trigger] r@[i]).0@ == (#[trigger] r@[j]).0@ && r@[i].1@
                == r@[j].1@),
{
    let ghost cv = names_view(classes@);
    let mut out: Vec<(String, String)> = Vec::new();
    let mut i: usize = 0;
    while i < classes.len()
        invariant
            i <= classes@.len(),
            cv == names_view(classes@),
            forall|k: int|
                0 <= k < out@.len() ==> is_violation(cv, decl@, (#[trigger] out@[k]).0@, out@[k].1@),
            forall|k: int, m: int|
                0 <= k < m < out@.len() ==> !((#[trigger] out@[k]).0@ == (#[trigger] out@[m]).0@
                    && out@[k].1@ == out@[m].1@),
            forall|x: int, y: int|
                0 <= x < i && 0 <= y < classes@.len() && is_violation(
                    cv,
                    decl@,
                    #[trigger] classes@[x]@,
                    #[trigger] classes@[y]@,
                ) ==> exists|k: int|
                    0 <= k < out@.len() && (#[trigger] out@[k]).0@ == classes@[x]@ && out@[k].1@
                        == classes@[y]@,
        decreases classes.len() - i,
    {
        let a = classes[i].as_str();
        let ca = chars_of(a);
        let mut j: usize = 0;
        while j < classes.len()
            invariant
                i < classes@.len(),
                j <= classes@.len(),
                cv == names_view(classes@),
                a@ == classes@[i as int]@,
                ca@ == a@,
                forall|k: int|
                    0 <= k < out@.len() ==> is_violation(cv, decl@, (#[trigger] out@[k]).0@, out@[k].1@),
                forall|k: int, m: int|
                    0 <= k < m < out@.len() ==> !((#[trigger] out@[k]).0@ == (#[trigger] out@[m]).0@
                        && out@[k].1@ == out@[m].1@),
                forall|x: int, y: int|
                    ((0 <= x < i && 0 <= y < classes@.len()) || (x == i && 0 <= y < j)) && is_violation(
                        cv,
                        decl@,
                        #[trigger] classes@[x]@,
                        #[trigger] classes@[y]@,
                    ) ==> exists|k: int|
                        0 <= k < out@.len() && (#[trigger] out@[k]).0@ == classes@[x]@ && out@[k].1@
                            == classes@[y]@,
            decreases classes.len() - j,
        {
            let b = classes[j].as_str();
            let cb = chars_of(b);
            let ghost before = out@;
            proof {
                assert(cv[i as int] == a@);
                assert(cv[j as int] == b@);
            }
            if order_chars(&ca, &cb) == Order::Less && is_declared_disjoint(decl, a, b) && !has_pair(
                &out,
                a,
                b,
            ) {
                out.push((classes[i].clone(), classes[j].clone()));
                proof {
                    assert(cv.contains(a@));
                    assert(cv.contains(b@));
                    assert forall|x: int, y: int|
                        ((0 <= x < i && 0 <= y < classes@.len()) || (x == i && 0 <= y < j + 1))
                            && is_violation(
                            cv,
                            decl@,
                            #[trigger] classes@[x]@,
                            #[trigger] classes@[y]@,
                        ) implies exists|k: int|
                        0 <= k < out@.len() && (#[trigger] out@[k]).0@ == classes@[x]@ && out@[k].1@
                            == classes@[y]@ by {
                        if x == i && y == j {
                            assert(out@[out@.len() - 1].0@ == classes@[x]@);
                        } else {
                            let k = choose|k: int|
                                0 <= k < before.len() && (#[trigger] before[k]).0@ == classes@[x]@
                                    && before[k].1@ == classes@[y]@;
                            assert(out@[k] == before[k]);
                        }
                    }
                }
            }
            j = j + 1;
        }
        i = i + 1;
    }
    proof {
        assert forall|a: Seq<char>, b: Seq<char>|
            #[trigger] is_violation(names_view(classes@), decl@, a, b) implies exists|k: int|
                0 <= k < out@.len() && (#[trigger] out@[k]).0@ == a && out@[k].1@ == b by {
            let x = choose|x: int| 0 <= x < cv.len() && cv[x] == a;
            let y = choose|y: int| 0 <= y < cv.len() && cv[y] == b;
            assert(classes@[x]@ == a);
            assert(classes@[y]@ == b);
        }
    }
    out
}

} // verus!
