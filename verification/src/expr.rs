//! Expression syntax trees and the property context they are evaluated in.
use vstd::prelude::*;
use crate::text::{split_on, chars_of, chars_equal, split_chars, lemma_split_on_nonempty};
use crate::value::{PropMap, VModel, Value, value_model};

verus! {

/// A literal constant.
#[derive(Debug)]
pub enum Literal {
    Bool(bool),
    Int(i64),
    String(String),
    Null,
}

/// Binary operators.
#[derive(Debug, Clone, Copy, PartialEq, Eq, Structural)]
pub enum BinaryOperator {
    Add,
    Sub,
    Mul,
    Div,
    Mod,
    Eq,
    Neq,
    Lt,
    Lte,
    Gt,
    Gte,
    And,
    Or,
    Contains,
    NotContains,
    In,
    NotIn,
    StartsWith,
    EndsWith,
    Regex,
}

/// Unary operators.
#[derive(Debug, Clone, Copy, PartialEq, Eq, Structural)]
pub enum UnaryOperator {
    Not,
    Neg,
}

/// An expression of the query language.
#[derive(Debug)]
#[allow(inconsistent_fields)]
pub enum Expression {
    Literal(Literal),
    Identifier(String),
    BinaryOp { op: BinaryOperator, left: Box<Expression>, right: Box<Expression> },
    UnaryOp { op: UnaryOperator, operand: Box<Expression> },
    FunctionCall { name: String, args: Vec<Expression> },
    List(Vec<Expression>),
    Dict(Vec<(String, Expression)>),
    PropRef { object: String, prop: String },
    DstVertexProp { tag: String, prop: String },
}

/// Property bindings an expression is evaluated against.
#[derive(Debug)]
pub struct EvalContext {
    /// Properties of the current vertex.
    pub current: PropMap,
    /// Properties of the source vertex (`$^`).
    pub source: PropMap,
    /// Properties of the destination vertex (`$$`).
    pub destination: PropMap,
    /// Named variables, each with its own properties, in binding order.
    pub variables: Vec<(String, PropMap)>,
}

/// The properties bound to the first variable named `name`.
pub open spec fn find_variable(vars: Seq<(String, PropMap)>, name: Seq<char>) -> Option<PropMap>
    decreases vars.len(),
{
    if vars.len() == 0 {
        None
    } else if vars[0].0@ == name {
        Some(vars[0].1)
    } else {
        find_variable(vars.drop_first(), name)
    }
}

/// The value of `prop` in the first variable (in binding order) that has it.
pub open spec fn find_in_variables(vars: Seq<(String, PropMap)>, prop: Seq<char>) -> Option<
    VModel,
>
    decreases vars.len(),
{
    if vars.len() == 0 {
        None
    } else if vars[0].1.spec_get(prop) is Some {
        vars[0].1.spec_get(prop)
    } else {
        find_in_variables(vars.drop_first(), prop)
    }
}

/// `tag` + "." + `prop`.
pub open spec fn dotted(tag: Seq<char>, prop: Seq<char>) -> Seq<char> {
    tag + seq!['.'] + prop
}

/// Lookup of a qualified key, falling back to the bare property name.
pub open spec fn get_qualified(m: PropMap, tag: Seq<char>, prop: Seq<char>) -> Option<VModel> {
    match m.spec_get(dotted(tag, prop)) {
        Some(v) => Some(v),
        None => m.spec_get(prop),
    }
}

/// Resolution of a property path such as `person.age`, `$$.person.name`,
/// `$^.person.name` or a bare `name`.
pub open spec fn spec_get_property(ctx: EvalContext, path: Seq<char>) -> Option<VModel> {
    let parts = split_on(path, '.');
    if parts.len() == 3 && parts[0] == "$$"@ {
        get_qualified(ctx.destination, parts[1], parts[2])
    } else if parts.len() == 3 && parts[0] == "$^"@ {
        get_qualified(ctx.source, parts[1], parts[2])
    } else if parts.len() == 2 {
        match find_variable(ctx.variables@, parts[0]) {
            Some(vars) => vars.spec_get(parts[1]),
            None => get_qualified(ctx.current, parts[0], parts[1]),
        }
    } else if parts.len() == 1 {
        match ctx.current.spec_get(parts[0]) {
            Some(v) => Some(v),
            None => find_in_variables(ctx.variables@, parts[0]),
        }
    } else {
        None
    }
}

/// `a` followed by `.` and `b`.
pub fn join_dotted(a: &Vec<char>, b: &Vec<char>) -> (r: Vec<char>)
    ensures
        r@ == dotted(a@, b@),
{
    let mut r: Vec<char> = Vec::new();
    let mut i: usize = 0;
    while i < a.len()
        invariant
            i <= a.len(),
            r@ == a@.take(i as int),
        decreases a.len() - i,
    {
        r.push(a[i]);
        i = i + 1;
        assert(r@ =~= a@.take(i as int));
    }
    r.push('.');
    let mut j: usize = 0;
    while j < b.len()
        invariant
            j <= b.len(),
            r@ == a@ + seq!['.'] + b@.take(j as int),
        decreases b.len() - j,
    {
        r.push(b[j]);
        j = j + 1;
        assert(r@ =~= a@ + seq!['.'] + b@.take(j as int));
    }
    assert(b@.take(b.len() as int) =~= b@);
    assert(a@.take(a.len() as int) =~= a@);
    r
}

fn get_qualified_exec(m: &PropMap, tag: &Vec<char>, prop: &Vec<char>) -> (r: Option<Value>)
    ensures
        match r {
            Some(v) => get_qualified(*m, tag@, prop@) == Some(value_model(v)),
            None => get_qualified(*m, tag@, prop@) is None,
        },
{
    let key = join_dotted(tag, prop);
    match m.get_chars(&key) {
        Some(v) => Some(v.duplicate()),
        None => match m.get_chars(prop) {
            Some(v) => Some(v.duplicate()),
            None => None,
        },
    }
}

impl EvalContext {
    /// A context with no bindings.
    pub fn new() -> (c: EvalContext)
        ensures
            forall|k: Seq<char>| #[trigger] c.current.spec_get(k) is None,
            forall|k: Seq<char>| #[trigger] c.source.spec_get(k) is None,
            forall|k: Seq<char>| #[trigger] c.destination.spec_get(k) is None,
            c.variables@.len() == 0,
    {
        EvalContext {
            current: PropMap::new(),
            source: PropMap::new(),
            destination: PropMap::new(),
            variables: Vec::new(),
        }
    }

    /// Replaces the current vertex properties.
    pub fn with_current(self, props: PropMap) -> (c: EvalContext)
        ensures
            c == (EvalContext { current: props, ..self }),
    {
        EvalContext { current: props, ..self }
    }

    /// Replaces the source vertex properties.
    pub fn with_source(self, props: PropMap) -> (c: EvalContext)
        ensures
            c == (EvalContext { source: props, ..self }),
    {
        EvalContext { source: props, ..self }
    }

    /// Replaces the destination vertex properties.
    pub fn with_destination(self, props: PropMap) -> (c: EvalContext)
        ensures
            c == (EvalContext { destination: props, ..self }),
    {
        EvalContext { destination: props, ..self }
    }

    /// Binds variable `name` to `props`, replacing an earlier binding of it.
    pub fn with_variable(self, name: &str, props: PropMap) -> (c: EvalContext)
        ensures
            c.current == self.current,
            c.source == self.source,
            c.destination == self.destination,
            find_variable(c.variables@, name@) == Some(props),
            forall|n: Seq<char>| n != name@ ==> #[trigger] find_variable(c.variables@, n)
                == find_variable(self.variables@, n),
    {
        let mut ctx = self;
        let key = chars_of(name);
        let mut i: usize = 0;
        let ghost vars = ctx.variables@;
        while i < ctx.variables.len()
            invariant
                ctx.variables@ == vars,
                i <= vars.len(),
                key@ == name@,
                forall|j: int| 0 <= j < i ==> vars[j].0@ != name@,
            ensures
                ctx.variables@ == vars,
                i <= vars.len(),
                forall|j: int| 0 <= j < i ==> vars[j].0@ != name@,
                i < vars.len() ==> vars[i as int].0@ == name@,
            decreases vars.len() - i,
        {
            let k = chars_of(ctx.variables[i].0.as_str());
            if chars_equal(&k, &key) {
                break;
            }
            i = i + 1;
        }
        let ghost before = ctx.variables@;
        let entry = (String::from_str(name), props);
        if i < ctx.variables.len() {
            ctx.variables.set(i, entry);
            proof {
                lemma_find_variable_update(before, i as int, entry);
            }
        } else {
            ctx.variables.push(entry);
            proof {
                lemma_find_variable_push(before, entry);
            }
        }
        ctx
    }

    /// Resolves a property path (see [`spec_get_property`]).
    pub fn get_property(&self, path: &str) -> (r: Option<Value>)
        ensures
            match r {
                Some(v) => spec_get_property(*self, path@) == Some(value_model(v)),
                None => spec_get_property(*self, path@) is None,
            },
    {
        let pc = chars_of(path);
        self.get_property_chars(&pc)
    }

    /// Resolves a property path given by its characters.
    pub fn get_property_chars(&self, path: &Vec<char>) -> (r: Option<Value>)
        ensures
            match r {
                Some(v) => spec_get_property(*self, path@) == Some(value_model(v)),
                None => spec_get_property(*self, path@) is None,
            },
    {
        let parts = split_chars(path, '.');
        proof {
            lemma_split_on_nonempty(path@, '.');
        }
        let dd = chars_of("$$");
        let dc = chars_of("$^");
        if parts.len() == 3 && chars_equal(&parts[0], &dd) {
            get_qualified_exec(&self.destination, &parts[1], &parts[2])
        } else if parts.len() == 3 && chars_equal(&parts[0], &dc) {
            get_qualified_exec(&self.source, &parts[1], &parts[2])
        } else if parts.len() == 2 {
            match self.variable(&parts[0]) {
                Some(vars) => match vars.get_chars(&parts[1]) {
                    Some(v) => Some(v.duplicate()),
                    None => None,
                },
                None => get_qualified_exec(&self.current, &parts[0], &parts[1]),
            }
        } else if parts.len() == 1 {
            match self.current.get_chars(&parts[0]) {
                Some(v) => Some(v.duplicate()),
                None => self.search_variables(&parts[0]),
            }
        } else {
            None
        }
    }

    fn variable(&self, name: &Vec<char>) -> (r: Option<&PropMap>)
        ensures
            match r {
                Some(m) => find_variable(self.variables@, name@) == Some(*m),
                None => find_variable(self.variables@, name@) is None,
            },
    {
        let mut i: usize = 0;
        assert(self.variables@.skip(0) =~= self.variables@);
        while i < self.variables.len()
            invariant
                i <= self.variables.len(),
                find_variable(self.variables@, name@) == find_variable(
                    self.variables@.skip(i as int),
                    name@,
                ),
            decreases self.variables.len() - i,
        {
            let k = chars_of(self.variables[i].0.as_str());
            assert(self.variables@.skip(i as int).drop_first() =~= self.variables@.skip(i + 1));
            if chars_equal(&k, name) {
                return Some(&self.variables[i].1);
            }
            i = i + 1;
        }
        None
    }

    fn search_variables(&self, prop: &Vec<char>) -> (r: Option<Value>)
        ensures
            match r {
                Some(v) => find_in_variables(self.variables@, prop@) == Some(value_model(v)),
                None => find_in_variables(self.variables@, prop@) is None,
            },
    {
        let mut i: usize = 0;
        assert(self.variables@.skip(0) =~= self.variables@);
        while i < self.variables.len()
            invariant
                i <= self.variables.len(),
                find_in_variables(self.variables@, prop@) == find_in_variables(
                    self.variables@.skip(i as int),
                    prop@,
                ),
            decreases self.variables.len() - i,
        {
            assert(self.variables@.skip(i as int).drop_first() =~= self.variables@.skip(i + 1));
            match self.variables[i].1.get_chars(prop) {
                Some(v) => {
                    return Some(v.duplicate());
                },
                None => {},
            }
            i = i + 1;
        }
        None
    }
}

proof fn lemma_find_variable_update(s: Seq<(String, PropMap)>, i: int, e: (String, PropMap))
    requires
        0 <= i < s.len(),
        s[i].0@ == e.0@,
        forall|j: int| 0 <= j < i ==> s[j].0@ != e.0@,
    ensures
        find_variable(s.update(i, e), e.0@) == Some(e.1),
        forall|n: Seq<char>| n != e.0@ ==> #[trigger] find_variable(s.update(i, e), n)
            == find_variable(s, n),
    decreases s.len(),
{
    let t = s.update(i, e);
    if i == 0 {
        assert(t[0] == e);
        assert(t.drop_first() =~= s.drop_first());
    } else {
        assert(t[0] == s[0]);
        assert(t.drop_first() =~= s.drop_first().update(i - 1, e));
        lemma_find_variable_update(s.drop_first(), i - 1, e);
    }
    assert forall|n: Seq<char>| n != e.0@ implies #[trigger] find_variable(t, n)
        == find_variable(s, n) by {
        if i == 0 {
            assert(t[0] == e);
            assert(t.drop_first() =~= s.drop_first());
        } else {
            assert(t[0] == s[0]);
            let u = s.drop_first().update(i - 1, e);
            assert(t.drop_first() =~= u);
            assert(find_variable(u, n) == find_variable(s.drop_first(), n));
        }
    }
}

proof fn lemma_find_variable_push(s: Seq<(String, PropMap)>, e: (String, PropMap))
    requires
        forall|j: int| 0 <= j < s.len() ==> s[j].0@ != e.0@,
    ensures
        find_variable(s.push(e), e.0@) == Some(e.1),
        forall|n: Seq<char>| n != e.0@ ==> #[trigger] find_variable(s.push(e), n)
            == find_variable(s, n),
    decreases s.len(),
{
    let t = s.push(e);
    if s.len() > 0 {
        assert(t[0] == s[0]);
        assert(t.drop_first() =~= s.drop_first().push(e));
        lemma_find_variable_push(s.drop_first(), e);
    } else {
        assert(t[0] == e);
        assert(t.drop_first() =~= Seq::<(String, PropMap)>::empty());
    }
    assert forall|n: Seq<char>| n != e.0@ implies #[trigger] find_variable(t, n)
        == find_variable(s, n) by {
        if s.len() > 0 {
            assert(t[0] == s[0]);
            let u = s.drop_first().push(e);
            assert(t.drop_first() =~= u);
            assert(find_variable(u, n) == find_variable(s.drop_first(), n));
        } else {
            assert(t[0] == e);
            assert(t.drop_first() =~= Seq::<(String, PropMap)>::empty());
            assert(find_variable(t.drop_first(), n) is None);
        }
    }
}

} // verus!
