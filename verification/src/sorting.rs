//! Sorting of names the way `String`'s ordering sorts them: by code point,
//! lexicographically.
use vstd::prelude::*;
use crate::text::{chars_of, lex_order, order_chars, Order};

verus! {

broadcast use vstd::seq_lib::group_to_multiset_ensures;

/// `a` sorts no later than `b`.
pub open spec fn name_le(a: Seq<char>, b: Seq<char>) -> bool {
    lex_order(a, b) != Order::Greater
}

/// The order swaps when its arguments do, and is equality exactly on equal
/// names.
pub proof fn lemma_lex_order_antisymmetric(a: Seq<char>, b: Seq<char>)
    ensures
        lex_order(a, b) == Order::Less <==> lex_order(b, a) == Order::Greater,
        lex_order(a, b) == Order::Equal <==> a == b,
    decreases a.len(),
{
    if a.len() > 0 && b.len() > 0 && a[0] == b[0] {
        lemma_lex_order_antisymmetric(a.drop_first(), b.drop_first());
        if a.drop_first() == b.drop_first() {
            assert(a =~= seq![a[0]] + a.drop_first());
            assert(b =~= seq![b[0]] + b.drop_first());
        }
    } else if a.len() == 0 && b.len() == 0 {
        assert(a =~= b);
    }
}

/// The order is transitive.
pub proof fn lemma_name_le_transitive(a: Seq<char>, b: Seq<char>, c: Seq<char>)
    requires
        name_le(a, b),
        name_le(b, c),
    ensures
        name_le(a, c),
    decreases a.len(),
{
    if a.len() > 0 && b.len() > 0 && c.len() > 0 && a[0] == b[0] && b[0] == c[0] {
        lemma_name_le_transitive(a.drop_first(), b.drop_first(), c.drop_first());
    }
}

/// Any two names are ordered one way or the other.
pub proof fn lemma_name_le_total(a: Seq<char>, b: Seq<char>)
    ensures
        name_le(a, b) || name_le(b, a),
{
    lemma_lex_order_antisymmetric(a, b);
}

/// Whether `s` is sorted.
pub open spec fn names_sorted(s: Seq<Seq<char>>) -> bool {
    forall|i: int, j: int| 0 <= i < j < s.len() ==> name_le(#[trigger] s[i], #[trigger] s[j])
}

/// The names of a sequence of keyed items.
pub open spec fn keys_of<T>(v: Seq<(String, T)>) -> Seq<Seq<char>> {
    v.map_values(|e: (String, T)| e.0@)
}

/// Sorts items by their name (stably: equal names keep their order).
pub fn sort_by_name<T>(v: Vec<(String, T)>) -> (r: Vec<(String, T)>)
    ensures
        names_sorted(keys_of(r@)),
        r@.to_multiset() == v@.to_multiset(),
{
    let ghost orig = v@;
    let n = v.len();
    let mut src = v;
    let mut rev: Vec<(String, T)> = Vec::new();
    while src.len() > 0
        invariant
            src@.len() + rev@.len() == n,
            n == orig.len(),
            src@ == orig.subrange(0, src@.len() as int),
            forall|k: int| 0 <= k < rev@.len() ==> rev@[k] == orig[n - 1 - k],
        decreases src@.len(),
    {
        let x = src.pop().unwrap();
        rev.push(x);
    }
    let mut out: Vec<(String, T)> = Vec::new();
    let mut k: usize = 0;
    while rev.len() > 0
        invariant
            k + rev@.len() == n,
            n == orig.len(),
            forall|i: int| 0 <= i < rev@.len() ==> rev@[i] == orig[n - 1 - i],
            names_sorted(keys_of(out@)),
            out@.to_multiset() == orig.take(k as int).to_multiset(),
        decreases rev@.len(),
    {
        let x = rev.pop().unwrap();
        proof {
            assert(x == orig[k as int]);
            assert(orig.take(k + 1) =~= orig.take(k as int).push(x));
        }
        let cx = chars_of(x.0.as_str());
        let mut p: usize = 0;
        while p < out.len()
            invariant
                p <= out@.len(),
                cx@ == x.0@,
                names_sorted(keys_of(out@)),
                forall|i: int| 0 <= i < p ==> name_le((#[trigger] out@[i]).0@, x.0@),
            ensures
                p <= out@.len(),
                forall|i: int| 0 <= i < p ==> name_le((#[trigger] out@[i]).0@, x.0@),
                p < out@.len() ==> lex_order(x.0@, out@[p as int].0@) == Order::Less,
            decreases out.len() - p,
        {
            let cp = chars_of(out[p].0.as_str());
            if order_chars(&cx, &cp) == Order::Less {
                break;
            }
            proof {
                lemma_lex_order_antisymmetric(x.0@, out@[p as int].0@);
            }
            p = p + 1;
        }
        let ghost before = out@;
        proof {
            if p < out@.len() {
                lemma_lex_order_antisymmetric(x.0@, before[p as int].0@);
            }
        }
        out.insert(p, x);
        proof {
            let ks = keys_of(out@);
            assert forall|i: int, j: int| 0 <= i < j < ks.len() implies name_le(
                #[trigger] ks[i],
                #[trigger] ks[j],
            ) by {
                let kb = keys_of(before);
                if j < p {
                    assert(ks[i] == kb[i] && ks[j] == kb[j]);
                } else if j == p {
                    assert(ks[i] == kb[i]);
                } else if i == p {
                    assert(ks[j] == kb[j - 1]);
                    if p < before.len() {
                        assert(name_le(x.0@, kb[p as int]));
                        if j - 1 > p {
                            lemma_name_le_transitive(x.0@, kb[p as int], kb[j - 1]);
                        }
                    }
                } else if i < p {
                    assert(ks[i] == kb[i]);
                    assert(ks[j] == kb[j - 1]);
                } else {
                    assert(ks[i] == kb[i - 1]);
                    assert(ks[j] == kb[j - 1]);
                }
            }
            vstd::seq_lib::to_multiset_insert(before, p as int, x);
        }
        k = k + 1;
    }
    assert(orig.take(n as int) =~= orig);
    out
}


pub proof fn lemma_push_contains<A>(s: Seq<A>, y: A, x: A)
    ensures
        s.push(y).contains(x) <==> (s.contains(x) || x == y),
{
    if s.push(y).contains(x) {
        let i = choose|i: int| 0 <= i < s.push(y).len() && s.push(y)[i] == x;
        if i < s.len() {
            assert(s[i] == x);
        }
    }
    if s.contains(x) {
        let i = choose|i: int| 0 <= i < s.len() && s[i] == x;
        assert(s.push(y)[i] == x);
    }
    if x == y {
        assert(s.push(y)[s.len() as int] == x);
    }
}

/// Whether `s` is sorted with no name twice.
pub open spec fn names_strictly_sorted(s: Seq<Seq<char>>) -> bool {
    forall|i: int, j: int|
        0 <= i < j < s.len() ==> lex_order(#[trigger] s[i], #[trigger] s[j]) == Order::Less
}

pub open spec fn views_of(v: Seq<String>) -> Seq<Seq<char>> {
    v.map_values(|s: String| s@)
}

/// The names sorted, each once.
pub fn sorted_unique(names: Vec<String>) -> (r: Vec<String>)
    ensures
        names_strictly_sorted(views_of(r@)),
        forall|x: Seq<char>| views_of(r@).contains(x) <==> views_of(names@).contains(x),
{
    let ghost orig = names@;
    let mut pairs: Vec<(String, ())> = Vec::new();
    let n = names.len();
    let mut i: usize = 0;
    while i < n
        invariant
            i <= n,
            n == names@.len(),
            names@ == orig,
            pairs@.len() == i,
            forall|k: int| 0 <= k < i ==> (#[trigger] pairs@[k]).0 == orig[k],
        decreases n - i,
    {
        pairs.push((names[i].clone(), ()));
        i = i + 1;
    }
    let ghost pv = pairs@;
    let sorted = sort_by_name(pairs);
    let ghost sv = sorted@;
    proof {
        assert forall|x: Seq<char>| keys_of(sv).contains(x) <==> views_of(orig).contains(x) by {
            if keys_of(sv).contains(x) {
                let j = choose|j: int| 0 <= j < keys_of(sv).len() && keys_of(sv)[j] == x;
                assert(sv.contains(sv[j]));
                assert(sv.to_multiset().count(sv[j]) > 0);
                assert(pv.to_multiset().count(sv[j]) > 0);
                assert(pv.contains(sv[j]));
                let k = choose|k: int| 0 <= k < pv.len() && pv[k] == sv[j];
                assert(views_of(orig)[k] == x);
            }
            if views_of(orig).contains(x) {
                let k = choose|k: int| 0 <= k < views_of(orig).len() && views_of(orig)[k] == x;
                assert(pv.contains(pv[k]));
                assert(pv.to_multiset().count(pv[k]) > 0);
                assert(sv.to_multiset().count(pv[k]) > 0);
                assert(sv.contains(pv[k]));
                let j = choose|j: int| 0 <= j < sv.len() && sv[j] == pv[k];
                assert(keys_of(sv)[j] == x);
            }
        }
    }
    let mut out: Vec<String> = Vec::new();
    let mut k: usize = 0;
    while k < sorted.len()
        invariant
            k <= sorted@.len(),
            sv == sorted@,
            names_sorted(keys_of(sv)),
            names_strictly_sorted(views_of(out@)),
            forall|x: Seq<char>| views_of(out@).contains(x) <==> keys_of(sv.take(k as int)).contains(x),
            k > 0 ==> out@.len() > 0 && out@.last()@ == sv[k - 1].0@,
            k == 0 ==> out@.len() == 0,
        decreases sorted@.len() - k,
    {
        let ghost before = out@;
        let name = &sorted[k].0;
        let fresh = if out.len() == 0 {
            true
        } else {
            let a = chars_of(out[out.len() - 1].as_str());
            let b = chars_of(name.as_str());
            order_chars(&a, &b) != Order::Equal
        };
        proof {
            assert(keys_of(sv.take(k + 1)) =~= keys_of(sv.take(k as int)).push(sv[k as int].0@));
            if k > 0 {
                assert(keys_of(sv)[k - 1] == sv[k - 1].0@);
                assert(keys_of(sv)[k as int] == sv[k as int].0@);
                assert(name_le(sv[k - 1].0@, sv[k as int].0@));
                lemma_lex_order_antisymmetric(sv[k - 1].0@, sv[k as int].0@);
            }
        }
        if fresh {
            out.push(name.clone());
            proof {
                assert(views_of(out@) =~= views_of(before).push(sv[k as int].0@));
                assert forall|x: Seq<char>| views_of(out@).contains(x) <==> keys_of(sv.take(k + 1)).contains(x) by {
                    lemma_push_contains(views_of(before), sv[k as int].0@, x);
                    lemma_push_contains(keys_of(sv.take(k as int)), sv[k as int].0@, x);
                }
                assert forall|a: int, b: int| 0 <= a < b < views_of(out@).len() implies lex_order(
                    #[trigger] views_of(out@)[a],
                    #[trigger] views_of(out@)[b],
                ) == Order::Less by {
                    if b == views_of(out@).len() - 1 && a < b {
                        let last = views_of(before).len() - 1;
                        if a < last {
                            assert(lex_order(views_of(before)[a], views_of(before)[last]) == Order::Less);
                            assert(name_le(views_of(before)[a], views_of(before)[last]));
                            assert(name_le(views_of(before)[last], sv[k as int].0@));
                            lemma_name_le_transitive(views_of(before)[a], views_of(before)[last], sv[k as int].0@);
                            lemma_lex_order_antisymmetric(views_of(before)[a], sv[k as int].0@);
                            if views_of(before)[a] == sv[k as int].0@ {
                                lemma_lex_order_antisymmetric(views_of(before)[last], sv[k as int].0@);
                                lemma_lex_order_antisymmetric(views_of(before)[a], views_of(before)[last]);
                            }
                        }
                    } else {
                        assert(views_of(out@)[a] == views_of(before)[a]);
                        assert(views_of(out@)[b] == views_of(before)[b]);
                    }
                }
            }
        } else {
            proof {
                assert(sv[k as int].0@ == sv[k - 1].0@) by {
                    lemma_lex_order_antisymmetric(before.last()@, sv[k as int].0@);
                }
                assert(views_of(before)[before.len() - 1] == sv[k as int].0@);
                assert(views_of(before).contains(sv[k as int].0@));
                assert forall|x: Seq<char>| views_of(out@).contains(x) <==> keys_of(sv.take(k + 1)).contains(x) by {
                    lemma_push_contains(keys_of(sv.take(k as int)), sv[k as int].0@, x);
                }
            }
        }
        k = k + 1;
    }
    assert(sv.take(sv.len() as int) =~= sv);
    out
}

} // verus!
