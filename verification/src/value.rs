//! Runtime values and property maps.
use vstd::prelude::*;

verus! {

/// A runtime value produced by expression evaluation.
#[derive(Debug)]
pub enum Value {
    Null,
    Bool(bool),
    Int(i64),
    String(String),
    List(Vec<Value>),
    Dict(Vec<(String, Value)>),
}

/// Mathematical model of a [`Value`]: strings by their characters.
pub enum VModel {
    Null,
    Bool(bool),
    Int(i64),
    Str(Seq<char>),
    List(Seq<VModel>),
    Dict(Seq<(Seq<char>, VModel)>),
}

pub open spec fn list_model(items: Seq<Value>) -> Seq<VModel>
    decreases items,
{
    if items.len() == 0 {
        Seq::empty()
    } else {
        list_model(items.drop_last()).push(value_model(items.last()))
    }
}

pub open spec fn entries_model(items: Seq<(String, Value)>) -> Seq<(Seq<char>, VModel)>
    decreases items,
{
    if items.len() == 0 {
        Seq::empty()
    } else {
        entries_model(items.drop_last()).push((items.last().0@, value_model(items.last().1)))
    }
}

pub open spec fn value_model(v: Value) -> VModel
    decreases v,
{
    match v {
        Value::Null => VModel::Null,
        Value::Bool(b) => VModel::Bool(b),
        Value::Int(i) => VModel::Int(i),
        Value::String(s) => VModel::Str(s@),
        Value::List(items) => VModel::List(list_model(items@)),
        Value::Dict(items) => VModel::Dict(entries_model(items@)),
    }
}

pub proof fn lemma_list_model_push(items: Seq<Value>, x: Value)
    ensures
        list_model(items.push(x)) == list_model(items).push(value_model(x)),
{
    assert(items.push(x).drop_last() =~= items);
}

pub proof fn lemma_list_model_len(items: Seq<Value>)
    ensures
        list_model(items).len() == items.len(),
    decreases items.len(),
{
    if items.len() > 0 {
        lemma_list_model_len(items.drop_last());
    }
}

pub proof fn lemma_list_model_index(items: Seq<Value>, i: int)
    requires
        0 <= i < items.len(),
    ensures
        list_model(items).len() == items.len(),
        list_model(items)[i] == value_model(items[i]),
    decreases items.len(),
{
    lemma_list_model_len(items);
    if i < items.len() - 1 {
        lemma_list_model_index(items.drop_last(), i);
    }
}

pub proof fn lemma_entries_model_push(items: Seq<(String, Value)>, x: (String, Value))
    ensures
        entries_model(items.push(x)) == entries_model(items).push((x.0@, value_model(x.1))),
{
    assert(items.push(x).drop_last() =~= items);
}

impl VModel {
    pub open spec fn is_null(self) -> bool {
        self is Null
    }
}

impl Value {
    /// The null value.
    pub fn null() -> (v: Value)
        ensures
            value_model(v) == VModel::Null,
    {
        Value::Null
    }

    /// Whether this value is null.
    pub fn is_null(&self) -> (r: bool)
        ensures
            r == (value_model(*self) is Null),
    {
        match self {
            Value::Null => true,
            _ => false,
        }
    }

    /// A deep copy with the same model.
    pub fn duplicate(&self) -> (r: Value)
        ensures
            value_model(r) == value_model(*self),
        decreases self,
    {
        match self {
            Value::Null => Value::Null,
            Value::Bool(b) => Value::Bool(*b),
            Value::Int(i) => Value::Int(*i),
            Value::String(s) => Value::String(s.clone()),
            Value::List(items) => {
                let mut out: Vec<Value> = Vec::new();
                let mut i: usize = 0;
                while i < items.len()
                    invariant
                        i <= items.len(),
                        *self == Value::List(*items),
                        list_model(out@) == list_model(items@.take(i as int)),
                    decreases items.len() - i,
                {
                    assert(decreases_to!(*self => self->List_0));
                    assert(decreases_to!(self->List_0 => self->List_0@));
                    assert(decreases_to!(self->List_0@ => items@[i as int]));
                    let c = items[i].duplicate();
                    proof {
                        lemma_list_model_push(out@, c);
                        lemma_list_model_push(items@.take(i as int), items@[i as int]);
                        assert(items@.take(i as int).push(items@[i as int]) =~= items@.take(
                            i + 1,
                        ));
                    }
                    out.push(c);
                    i = i + 1;
                }
                assert(items@.take(items.len() as int) =~= items@);
                Value::List(out)
            },
            Value::Dict(items) => {
                let mut out: Vec<(String, Value)> = Vec::new();
                let mut i: usize = 0;
                while i < items.len()
                    invariant
                        i <= items.len(),
                        *self == Value::Dict(*items),
                        entries_model(out@) == entries_model(items@.take(i as int)),
                    decreases items.len() - i,
                {
                    assert(decreases_to!(*self => self->Dict_0));
                    assert(decreases_to!(self->Dict_0 => self->Dict_0@));
                    assert(decreases_to!(self->Dict_0@ => items@[i as int]));
                    assert(decreases_to!(items@[i as int] => items@[i as int].1));
                    let c = (items[i].0.clone(), items[i].1.duplicate());
                    proof {
                        lemma_entries_model_push(out@, c);
                        lemma_entries_model_push(items@.take(i as int), items@[i as int]);
                        assert(items@.take(i as int).push(items@[i as int]) =~= items@.take(
                            i + 1,
                        ));
                    }
                    out.push(c);
                    i = i + 1;
                }
                assert(items@.take(items.len() as int) =~= items@);
                Value::Dict(out)
            },
        }
    }
}

/// The text of a value in error messages: `Null`, `Bool(true)`,
/// `Int(-3)`, `String("text")`, `List([..])` with the items separated by
/// `, `, and `Dict([("key", ..), ..])`.
pub open spec fn value_text(v: Value) -> Seq<char>
    decreases v,
{
    match v {
        Value::Null => "Null"@,
        Value::Bool(b) => if b {
            "Bool(true)"@
        } else {
            "Bool(false)"@
        },
        Value::Int(i) => "Int("@ + crate::text::signed_decimal(i as int) + ")"@,
        Value::String(s) => "String(\""@ + s@ + "\")"@,
        Value::List(items) => "List(["@ + items_text(items@) + "])"@,
        Value::Dict(items) => "Dict(["@ + entries_text(items@) + "])"@,
    }
}

/// The texts of `items`, separated by `, `.
pub open spec fn items_text(items: Seq<Value>) -> Seq<char>
    decreases items,
{
    if items.len() == 0 {
        Seq::empty()
    } else if items.len() == 1 {
        value_text(items[0])
    } else {
        items_text(items.drop_last()) + ", "@ + value_text(items.last())
    }
}

/// The entries of a map as `("key", value)`, separated by `, `.
pub open spec fn entries_text(items: Seq<(String, Value)>) -> Seq<char>
    decreases items,
{
    if items.len() == 0 {
        Seq::empty()
    } else if items.len() == 1 {
        "(\""@ + items[0].0@ + "\", "@ + value_text(items[0].1) + ")"@
    } else {
        entries_text(items.drop_last()) + ", "@ + "(\""@ + items.last().0@ + "\", "@ + value_text(
            items.last().1,
        ) + ")"@
    }
}

impl Value {
    /// Appends [`value_text`] of the value to `out`.
    pub fn push_text(&self, out: &mut String)
        ensures
            final(out)@ == old(out)@ + value_text(*self),
        decreases self,
    {
        match self {
            Value::Null => out.append("Null"),
            Value::Bool(b) => if *b {
                out.append("Bool(true)")
            } else {
                out.append("Bool(false)")
            },
            Value::Int(i) => {
                out.append("Int(");
                crate::text::push_signed_decimal(out, *i);
                out.append(")");
            },
            Value::String(t) => {
                out.append("String(\"");
                out.append(t.as_str());
                out.append("\")");
            },
            Value::List(items) => {
                out.append("List([");
                let ghost start = out@;
                let mut i: usize = 0;
                while i < items.len()
                    invariant
                        i <= items.len(),
                        *self == Value::List(*items),
                        out@ == start + items_text(items@.take(i as int)),
                    decreases items.len() - i,
                {
                    assert(decreases_to!(*self => self->List_0));
                    assert(decreases_to!(self->List_0 => self->List_0@));
                    assert(decreases_to!(self->List_0@ => items@[i as int]));
                    let ghost before = out@;
                    if i > 0 {
                        out.append(", ");
                    }
                    items[i].push_text(out);
                    proof {
                        let t = items@.take(i + 1);
                        assert(t.drop_last() =~= items@.take(i as int));
                        assert(t.last() == items@[i as int]);
                        if i == 0 {
                            assert(t.len() == 1);
                            assert(out@ =~= start + items_text(t));
                        } else {
                            assert(out@ =~= start + items_text(t));
                        }
                    }
                    i = i + 1;
                }
                assert(items@.take(items.len() as int) =~= items@);
                out.append("])");
            },
            Value::Dict(items) => {
                out.append("Dict([");
                let ghost start = out@;
                let mut i: usize = 0;
                while i < items.len()
                    invariant
                        i <= items.len(),
                        *self == Value::Dict(*items),
                        out@ == start + entries_text(items@.take(i as int)),
                    decreases items.len() - i,
                {
                    assert(decreases_to!(*self => self->Dict_0));
                    assert(decreases_to!(self->Dict_0 => self->Dict_0@));
                    assert(decreases_to!(self->Dict_0@ => items@[i as int]));
                    assert(decreases_to!(items@[i as int] => items@[i as int].1));
                    if i > 0 {
                        out.append(", ");
                    }
                    out.append("(\"");
                    out.append(items[i].0.as_str());
                    out.append("\", ");
                    items[i].1.push_text(out);
                    out.append(")");
                    proof {
                        let t = items@.take(i + 1);
                        assert(t.drop_last() =~= items@.take(i as int));
                        assert(t.last() == items@[i as int]);
                        assert(out@ =~= start + entries_text(t));
                    }
                    i = i + 1;
                }
                assert(items@.take(items.len() as int) =~= items@);
                out.append("])");
            },
        }
    }
}

/// First value stored under `key`, scanning from the front.
pub open spec fn lookup_entries(entries: Seq<(String, Value)>, key: Seq<char>) -> Option<Value>
    decreases entries.len(),
{
    if entries.len() == 0 {
        None
    } else if entries[0].0@ == key {
        Some(entries[0].1)
    } else {
        lookup_entries(entries.drop_first(), key)
    }
}

/// A string-keyed property map; each key occurs at most once.
#[derive(Debug)]
pub struct PropMap {
    entries: Vec<(String, Value)>,
}

impl View for PropMap {
    type V = Map<Seq<char>, VModel>;

    /// The map from each key to the model of its value.
    open spec fn view(&self) -> Map<Seq<char>, VModel> {
        Map::new(|k: Seq<char>| self.spec_get(k) is Some, |k: Seq<char>| self.spec_get(k)->0)
    }
}

impl PropMap {
    /// The stored pairs, in insertion order.
    pub closed spec fn spec_entries(&self) -> Seq<(String, Value)> {
        self.entries@
    }

    /// The pair stored at position `i`.
    pub fn entry_at(&self, i: usize) -> (r: (&String, &Value))
        requires
            i < self.spec_entries().len(),
        ensures
            *r.0 == self.spec_entries()[i as int].0,
            *r.1 == self.spec_entries()[i as int].1,
    {
        (&self.entries[i].0, &self.entries[i].1)
    }

    /// Number of stored pairs.
    pub fn entry_count(&self) -> (n: usize)
        ensures
            n == self.spec_entries().len(),
    {
        self.entries.len()
    }

    /// A deep copy: the same pairs in the same order.
    pub fn duplicate(&self) -> (r: PropMap)
        ensures
            r@ == self@,
            r.spec_entries().len() == self.spec_entries().len(),
            forall|i: int|
                0 <= i < self.spec_entries().len() ==> (#[trigger] r.spec_entries()[i]).0@
                    == self.spec_entries()[i].0@ && value_model(r.spec_entries()[i].1)
                    == value_model(self.spec_entries()[i].1),
    {
        let mut out: Vec<(String, Value)> = Vec::new();
        let mut i: usize = 0;
        while i < self.entries.len()
            invariant
                i <= self.entries@.len(),
                out@.len() == i,
                forall|k: int|
                    0 <= k < i ==> (#[trigger] out@[k]).0@ == self.entries@[k].0@ && value_model(
                        out@[k].1,
                    ) == value_model(self.entries@[k].1),
            decreases self.entries@.len() - i,
        {
            let e = (self.entries[i].0.clone(), self.entries[i].1.duplicate());
            out.push(e);
            i = i + 1;
        }
        let r = PropMap { entries: out };
        proof {
            assert forall|k: Seq<char>| #[trigger] r.spec_get(k) == self.spec_get(k) by {
                lemma_lookup_models(r.entries@, self.entries@, k);
            }
            assert(r@ =~= self@);
        }
        r
    }

    /// Every key of the map is the key of a stored pair.
    pub proof fn lemma_key_has_entry(&self, k: Seq<char>)
        requires
            self@.contains_key(k),
        ensures
            exists|i: int|
                0 <= i < self.spec_entries().len() && (#[trigger] self.spec_entries()[i]).0@ == k,
    {
        assert(self.spec_get(k) is Some);
        assert(lookup_entries(self.entries@, k) is Some);
        lemma_lookup_found(self.entries@, k);
        let i = choose|i: int| 0 <= i < self.entries@.len() && (#[trigger] self.entries@[i]).0@ == k;
        assert(self.spec_entries()[i] == self.entries@[i]);
    }

    /// Whether a value is stored under `key`.
    pub fn contains_key(&self, key: &str) -> (r: bool)
        ensures
            r == self@.contains_key(key@),
    {
        self.get(key).is_some()
    }

    /// The model of the value stored under `key`, if any.
    pub closed spec fn spec_get(&self, key: Seq<char>) -> Option<VModel> {
        match lookup_entries(self.entries@, key) {
            Some(v) => Some(value_model(v)),
            None => None,
        }
    }

    /// The keys in insertion order.
    pub closed spec fn spec_keys(&self) -> Seq<Seq<char>> {
        self.entries@.map_values(|e: (String, Value)| e.0@)
    }

    /// An empty map.
    pub fn new() -> (m: PropMap)
        ensures
            forall|k: Seq<char>| #[trigger] m.spec_get(k) is None,
            m.spec_keys().len() == 0,
            m@ == Map::<Seq<char>, VModel>::empty(),
            m.spec_entries().len() == 0,
    {
        let m = PropMap { entries: Vec::new() };
        assert(m@ =~= Map::<Seq<char>, VModel>::empty());
        m
    }

    /// Number of keys.
    pub fn len(&self) -> (n: usize)
        ensures
            n == self.spec_keys().len(),
    {
        self.entries.len()
    }

    /// Finds the index of `key` (given by its characters), if present.
    fn position(&self, key: &Vec<char>) -> (r: Option<usize>)
        ensures
            match r {
                Some(i) => i < self.entries@.len() && self.entries@[i as int].0@ == key@
                    && lookup_entries(self.entries@, key@) == Some(self.entries@[i as int].1)
                    && forall|j: int| 0 <= j < i ==> self.entries@[j].0@ != key@,
                None => lookup_entries(self.entries@, key@) is None,
            },
    {
        let mut i: usize = 0;
        assert(self.entries@.skip(0) =~= self.entries@);
        while i < self.entries.len()
            invariant
                i <= self.entries.len(),
                lookup_entries(self.entries@, key@) == lookup_entries(
                    self.entries@.skip(i as int),
                    key@,
                ),
                forall|j: int| 0 <= j < i ==> self.entries@[j].0@ != key@,
            decreases self.entries.len() - i,
        {
            let k = crate::text::chars_of(self.entries[i].0.as_str());
            assert(self.entries@.skip(i as int).drop_first() =~= self.entries@.skip(i + 1));
            if crate::text::chars_equal(&k, key) {
                return Some(i);
            }
            i = i + 1;
        }
        None
    }

    /// The value stored under the key whose characters are `key`.
    pub fn get_chars(&self, key: &Vec<char>) -> (r: Option<&Value>)
        ensures
            match r {
                Some(v) => self.spec_get(key@) == Some(value_model(*v)),
                None => self.spec_get(key@) is None,
            },
    {
        match self.position(key) {
            Some(i) => Some(&self.entries[i].1),
            None => None,
        }
    }

    /// The value stored under `key`.
    pub fn get(&self, key: &str) -> (r: Option<&Value>)
        ensures
            match r {
                Some(v) => self.spec_get(key@) == Some(value_model(*v)),
                None => self.spec_get(key@) is None,
            },
    {
        let k = crate::text::chars_of(key);
        self.get_chars(&k)
    }

    /// Stores `value` under `key`, replacing any previous value.
    pub fn insert(&mut self, key: String, value: Value)
        ensures
            final(self)@ == old(self)@.insert(key@, value_model(value)),
            final(self).spec_get(key@) == Some(value_model(value)),
            forall|k: Seq<char>| k != key@ ==> #[trigger] final(self).spec_get(k) == old(
                self,
            ).spec_get(k),
    {
        let kc = crate::text::chars_of(key.as_str());
        match self.position(&kc) {
            Some(i) => {
                let ghost before = self.entries@;
                self.entries.set(i, (key, value));
                proof {
                    lemma_lookup_update(before, i as int, key, value);
                    assert forall|k: Seq<char>| k != key@ implies #[trigger] lookup_entries(
                        self.entries@,
                        k,
                    ) == lookup_entries(before, k) by {
                        lemma_lookup_update_other(before, i as int, key, value, k);
                    }
                }
            },
            None => {
                let ghost before = self.entries@;
                self.entries.push((key, value));
                proof {
                    lemma_lookup_push(before, key, value, key@);
                    assert forall|k: Seq<char>| k != key@ implies #[trigger] lookup_entries(
                        self.entries@,
                        k,
                    ) == lookup_entries(before, k) by {
                        lemma_lookup_push(before, key, value, k);
                    }
                }
            },
        }
        assert(self@ =~= old(self)@.insert(key@, value_model(value)));
    }
}

proof fn lemma_lookup_found(s: Seq<(String, Value)>, k: Seq<char>)
    requires
        lookup_entries(s, k) is Some,
    ensures
        exists|i: int| 0 <= i < s.len() && (#[trigger] s[i]).0@ == k,
    decreases s.len(),
{
    if s[0].0@ != k {
        lemma_lookup_found(s.drop_first(), k);
        let i = choose|i: int| 0 <= i < s.drop_first().len() && (#[trigger] s.drop_first()[i]).0@ == k;
        assert(s[i + 1] == s.drop_first()[i]);
    }
}

proof fn lemma_lookup_models(a: Seq<(String, Value)>, b: Seq<(String, Value)>, k: Seq<char>)
    requires
        a.len() == b.len(),
        forall|i: int|
            0 <= i < a.len() ==> (#[trigger] a[i]).0@ == b[i].0@ && value_model(a[i].1)
                == value_model(b[i].1),
    ensures
        match (lookup_entries(a, k), lookup_entries(b, k)) {
            (Some(x), Some(y)) => value_model(x) == value_model(y),
            (None, None) => true,
            _ => false,
        },
    decreases a.len(),
{
    if a.len() > 0 {
        assert(a[0].0@ == b[0].0@);
        lemma_lookup_models(a.drop_first(), b.drop_first(), k);
    }
}

proof fn lemma_lookup_update(s: Seq<(String, Value)>, i: int, key: String, value: Value)
    requires
        0 <= i < s.len(),
        s[i].0@ == key@,
        forall|j: int| 0 <= j < i ==> s[j].0@ != key@,
    ensures
        lookup_entries(s.update(i, (key, value)), key@) == Some(value),
    decreases s.len(),
{
    let t = s.update(i, (key, value));
    if i == 0 {
        assert(t[0] == (key, value));
    } else {
        assert(s[0].0@ != key@);
        assert(t[0] == s[0]);
        assert(t.drop_first() =~= s.drop_first().update(i - 1, (key, value)));
        lemma_lookup_update(s.drop_first(), i - 1, key, value);
    }
}

proof fn lemma_lookup_update_other(
    s: Seq<(String, Value)>,
    i: int,
    key: String,
    value: Value,
    k: Seq<char>,
)
    requires
        0 <= i < s.len(),
        s[i].0@ == key@,
        k != key@,
    ensures
        lookup_entries(s.update(i, (key, value)), k) == lookup_entries(s, k),
    decreases s.len(),
{
    let t = s.update(i, (key, value));
    if i == 0 {
        assert(t[0] == (key, value));
        assert(t.drop_first() =~= s.drop_first());
    } else {
        assert(t[0] == s[0]);
        assert(t.drop_first() =~= s.drop_first().update(i - 1, (key, value)));
        lemma_lookup_update_other(s.drop_first(), i - 1, key, value, k);
    }
}

proof fn lemma_lookup_push(s: Seq<(String, Value)>, key: String, value: Value, k: Seq<char>)
    requires
        lookup_entries(s, key@) is None,
    ensures
        lookup_entries(s.push((key, value)), key@) == Some(value),
        k != key@ ==> lookup_entries(s.push((key, value)), k) == lookup_entries(s, k),
    decreases s.len(),
{
    let t = s.push((key, value));
    if s.len() > 0 {
        assert(t[0] == s[0]);
        assert(t.drop_first() =~= s.drop_first().push((key, value)));
        lemma_lookup_push(s.drop_first(), key, value, k);
    } else {
        assert(t[0] == (key, value));
        assert(t.drop_first() =~= Seq::<(String, Value)>::empty());
        assert(lookup_entries(t.drop_first(), k) is None);
    }
}

} // verus!
