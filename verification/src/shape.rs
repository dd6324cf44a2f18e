//! Shape constraints on vertex properties and their evaluation.
use vstd::prelude::*;
use vstd::string::StringExecFns;
use crate::eval::{Evaluator, ctx_lookup, evaluation_fits};
use crate::eval_spec::condition_outcome;
use crate::expr::{EvalContext, Expression};
use crate::text::{decimal, push_decimal};
use crate::value::{VModel, Value, value_model};

verus! {

/// A declared property datatype.
#[derive(Debug, Clone, Copy, PartialEq, Eq, Structural)]
pub enum DataType {
    Bool,
    Int8,
    Int16,
    Int32,
    Int64,
    Float,
    Double,
    String,
    FixedString(usize),
    Timestamp,
    Date,
    Time,
    DateTime,
    Geography,
}

/// What a constraint demands of its property.
#[derive(Debug)]
pub enum ShapeConstraintKind {
    /// The property is present and not null.
    Required,
    /// A present, non-null value has this datatype.
    DataType(DataType),
    /// The expression holds of the vertex's properties.
    Predicate(Expression),
}

/// A constraint on one property.
#[derive(Debug)]
pub struct ShapeConstraint {
    pub property: String,
    pub kind: ShapeConstraintKind,
}

/// A named set of constraints on the instances of a class.
#[derive(Debug)]
pub struct ShapeDef {
    pub name: String,
    pub target_class: String,
    pub constraints: Vec<ShapeConstraint>,
}

/// Whether a stored value is compatible with a declared datatype. Nulls pass
/// (absence is a REQUIRED concern), integers fit real-valued fields, and
/// lists and maps are not constrained by scalar datatypes.
pub open spec fn type_matches(v: VModel, dt: DataType) -> bool {
    match v {
        VModel::Null => true,
        VModel::Bool(_) => dt == DataType::Bool,
        VModel::Int(_) => match dt {
            DataType::Int8 | DataType::Int16 | DataType::Int32 | DataType::Int64
            | DataType::Timestamp | DataType::Float | DataType::Double => true,
            _ => false,
        },
        VModel::Str(_) => dt == DataType::String || dt is FixedString,
        _ => true,
    }
}

/// Whether `value` may be stored in a property of type `dt`.
pub fn value_matches_type(value: &Value, dt: &DataType) -> (r: bool)
    ensures
        r == type_matches(value_model(*value), *dt),
{
    match value {
        Value::Null => true,
        Value::Bool(_) => *dt == DataType::Bool,
        Value::Int(_) => match dt {
            DataType::Int8 | DataType::Int16 | DataType::Int32 | DataType::Int64
            | DataType::Timestamp | DataType::Float | DataType::Double => true,
            _ => false,
        },
        Value::String(_) => match dt {
            DataType::String | DataType::FixedString(_) => true,
            _ => false,
        },
        _ => true,
    }
}

/// The name of a datatype as the violation report shows it.
pub open spec fn data_type_text(dt: DataType) -> Seq<char> {
    match dt {
        DataType::Bool => "Bool"@,
        DataType::Int8 => "Int8"@,
        DataType::Int16 => "Int16"@,
        DataType::Int32 => "Int32"@,
        DataType::Int64 => "Int64"@,
        DataType::Float => "Float"@,
        DataType::Double => "Double"@,
        DataType::String => "String"@,
        DataType::FixedString(n) => "FixedString("@ + decimal(n as nat) + ")"@,
        DataType::Timestamp => "Timestamp"@,
        DataType::Date => "Date"@,
        DataType::Time => "Time"@,
        DataType::DateTime => "DateTime"@,
        DataType::Geography => "Geography"@,
    }
}

/// Renders a datatype name.
pub fn data_type_name(dt: &DataType) -> (r: String)
    ensures
        r@ == data_type_text(*dt),
{
    match dt {
        DataType::Bool => String::from_str("Bool"),
        DataType::Int8 => String::from_str("Int8"),
        DataType::Int16 => String::from_str("Int16"),
        DataType::Int32 => String::from_str("Int32"),
        DataType::Int64 => String::from_str("Int64"),
        DataType::Float => String::from_str("Float"),
        DataType::Double => String::from_str("Double"),
        DataType::String => String::from_str("String"),
        DataType::FixedString(n) => {
            let mut out = String::from_str("FixedString(");
            push_decimal(&mut out, *n as u64);
            out.append(")");
            out
        },
        DataType::Timestamp => String::from_str("Timestamp"),
        DataType::Date => String::from_str("Date"),
        DataType::Time => String::from_str("Time"),
        DataType::DateTime => String::from_str("DateTime"),
        DataType::Geography => String::from_str("Geography"),
    }
}

/// The reason `c` is violated by the vertex whose properties are the current
/// ones of `ctx`, if it is.
pub open spec fn constraint_violation(c: ShapeConstraint, ctx: EvalContext) -> Option<Seq<char>> {
    let value = ctx.current.spec_get(c.property@);
    match c.kind {
        ShapeConstraintKind::Required => if value matches Some(v) && !(v is Null) {
            None
        } else {
            Some("required property is missing"@)
        },
        ShapeConstraintKind::DataType(dt) => match value {
            Some(v) => if !(v is Null) && !type_matches(v, dt) {
                Some("expected type "@ + data_type_text(dt))
            } else {
                None
            },
            None => None,
        },
        ShapeConstraintKind::Predicate(e) => if condition_outcome(e, ctx_lookup(ctx)) == Some(
            Ok::<bool, crate::error::ErrorKind>(true),
        ) {
            None
        } else {
            Some("value predicate not satisfied"@)
        },
    }
}

/// The `(property, reason)` pairs of the violated constraints, in order.
pub open spec fn violations(cs: Seq<ShapeConstraint>, ctx: EvalContext) -> Seq<(Seq<char>, Seq<char>)>
    decreases cs.len(),
{
    if cs.len() == 0 {
        Seq::empty()
    } else {
        let rest = violations(cs.drop_last(), ctx);
        match constraint_violation(cs.last(), ctx) {
            Some(reason) => rest.push((cs.last().property@, reason)),
            None => rest,
        }
    }
}

/// Whether every predicate of the shape evaluates within 64-bit arithmetic.
pub open spec fn predicates_fit(cs: Seq<ShapeConstraint>, ctx: EvalContext) -> bool {
    forall|i: int|
        0 <= i < cs.len() ==> match #[trigger] cs[i].kind {
            ShapeConstraintKind::Predicate(e) => evaluation_fits(e, ctx),
            _ => true,
        }
}

pub open spec fn pairs_model(r: Seq<(String, String)>) -> Seq<(Seq<char>, Seq<char>)> {
    r.map_values(|p: (String, String)| (p.0@, p.1@))
}

/// Checks every constraint of `shape` against the current properties of
/// `ctx` and reports each violation as `(property, reason)`.
pub fn shape_violations(shape: &ShapeDef, ctx: &EvalContext) -> (r: Vec<(String, String)>)
    requires
        predicates_fit(shape.constraints@, *ctx),
    ensures
        pairs_model(r@) == violations(shape.constraints@, *ctx),
{
    let mut out: Vec<(String, String)> = Vec::new();
    let mut i: usize = 0;
    while i < shape.constraints.len()
        invariant
            i <= shape.constraints.len(),
            predicates_fit(shape.constraints@, *ctx),
            pairs_model(out@) == violations(shape.constraints@.take(i as int), *ctx),
        decreases shape.constraints.len() - i,
    {
        let c = &shape.constraints[i];
        assert(shape.constraints@.take(i + 1).drop_last() =~= shape.constraints@.take(i as int));
        assert(shape.constraints@.take(i + 1).last() == *c);
        let ghost prev = out@;
        match constraint_check(c, ctx) {
            Some(reason) => {
                out.push((c.property.clone(), reason));
                assert(pairs_model(out@) =~= pairs_model(prev).push((c.property@, out@.last().1@)));
            },
            None => {},
        }
        i = i + 1;
    }
    assert(shape.constraints@.take(shape.constraints.len() as int) =~= shape.constraints@);
    out
}

fn constraint_check(c: &ShapeConstraint, ctx: &EvalContext) -> (r: Option<String>)
    requires
        c.kind matches ShapeConstraintKind::Predicate(e) ==> evaluation_fits(e, *ctx),
    ensures
        match r {
            Some(s) => constraint_violation(*c, *ctx) == Some(s@),
            None => constraint_violation(*c, *ctx) is None,
        },
{
    match &c.kind {
        ShapeConstraintKind::Required => {
            let present = match ctx.current.get(c.property.as_str()) {
                Some(v) => !v.is_null(),
                None => false,
            };
            if present {
                None
            } else {
                Some(String::from_str("required property is missing"))
            }
        },
        ShapeConstraintKind::DataType(dt) => match ctx.current.get(c.property.as_str()) {
            Some(v) => {
                if !v.is_null() && !value_matches_type(v, dt) {
                    let mut reason = String::from_str("expected type ");
                    let name = data_type_name(dt);
                    reason.append(name.as_str());
                    Some(reason)
                } else {
                    None
                }
            },
            None => None,
        },
        ShapeConstraintKind::Predicate(e) => {
            let holds = match Evaluator::evaluate_condition(e, ctx) {
                Ok(b) => b,
                Err(_) => false,
            };
            if holds {
                None
            } else {
                Some(String::from_str("value predicate not satisfied"))
            }
        },
    }
}

/// Like [`shape_violations`], but `None` when some predicate of the shape
/// would overflow 64-bit integer arithmetic.
pub fn try_shape_violations(shape: &ShapeDef, ctx: &EvalContext) -> (r: Option<Vec<(String, String)>>)
    ensures
        r is None <==> !predicates_fit(shape.constraints@, *ctx),
        r matches Some(v) ==> pairs_model(v@) == violations(shape.constraints@, *ctx),
{
    let mut i: usize = 0;
    while i < shape.constraints.len()
        invariant
            i <= shape.constraints.len(),
            forall|k: int|
                0 <= k < i ==> match #[trigger] shape.constraints@[k].kind {
                    ShapeConstraintKind::Predicate(e) => evaluation_fits(e, *ctx),
                    _ => true,
                },
        decreases shape.constraints.len() - i,
    {
        match &shape.constraints[i].kind {
            ShapeConstraintKind::Predicate(e) => {
                if Evaluator::try_evaluate_with_context(e, ctx).is_none() {
                    return None;
                }
            },
            _ => {},
        }
        i = i + 1;
    }
    Some(shape_violations(shape, ctx))
}

/// How a column type is displayed in schema listings.
pub open spec fn data_type_display(dt: DataType) -> Seq<char> {
    match dt {
        DataType::Bool => "BOOL"@,
        DataType::Int8 => "INT8"@,
        DataType::Int16 => "INT16"@,
        DataType::Int32 => "INT32"@,
        DataType::Int64 => "INT64"@,
        DataType::Float => "FLOAT"@,
        DataType::Double => "DOUBLE"@,
        DataType::String => "STRING"@,
        DataType::FixedString(n) => "FIXED_STRING("@ + decimal(n as nat) + ")"@,
        DataType::Timestamp => "TIMESTAMP"@,
        DataType::Date => "DATE"@,
        DataType::Time => "TIME"@,
        DataType::DateTime => "DATETIME"@,
        DataType::Geography => "GEOGRAPHY"@,
    }
}

/// Formats a column type for display.
pub fn format_data_type(dt: &DataType) -> (r: String)
    ensures
        r@ == data_type_display(*dt),
{
    match dt {
        DataType::Bool => String::from_str("BOOL"),
        DataType::Int8 => String::from_str("INT8"),
        DataType::Int16 => String::from_str("INT16"),
        DataType::Int32 => String::from_str("INT32"),
        DataType::Int64 => String::from_str("INT64"),
        DataType::Float => String::from_str("FLOAT"),
        DataType::Double => String::from_str("DOUBLE"),
        DataType::String => String::from_str("STRING"),
        DataType::FixedString(n) => {
            let mut out = String::from_str("FIXED_STRING(");
            push_decimal(&mut out, *n as u64);
            out.append(")");
            out
        },
        DataType::Timestamp => String::from_str("TIMESTAMP"),
        DataType::Date => String::from_str("DATE"),
        DataType::Time => String::from_str("TIME"),
        DataType::DateTime => String::from_str("DATETIME"),
        DataType::Geography => String::from_str("GEOGRAPHY"),
    }
}

/// The type stored in the schema for a declared column type: the types the
/// schema store knows are kept, any other is stored as `String`.
pub fn convert_ast_type_to_meta(dt: DataType) -> (r: DataType)
    ensures
        r == (match dt {
            DataType::Int64 | DataType::String | DataType::Bool | DataType::Double | DataType::Date
            | DataType::DateTime | DataType::Timestamp | DataType::Int32 | DataType::Float => dt,
            _ => DataType::String,
        }),
{
    match dt {
        DataType::Int64 => DataType::Int64,
        DataType::String => DataType::String,
        DataType::Bool => DataType::Bool,
        DataType::Double => DataType::Double,
        DataType::Date => DataType::Date,
        DataType::DateTime => DataType::DateTime,
        DataType::Timestamp => DataType::Timestamp,
        DataType::Int32 => DataType::Int32,
        DataType::Float => DataType::Float,
        _ => DataType::String,
    }
}

/// The vertex id type of a space.
#[derive(Debug, Clone, Copy, PartialEq, Eq, Structural)]
pub enum VidType {
    Int64,
    FixedString(usize),
}

pub open spec fn vid_type_display(t: VidType) -> Seq<char> {
    match t {
        VidType::Int64 => "INT64"@,
        VidType::FixedString(n) => "FIXED_STRING("@ + decimal(n as nat) + ")"@,
    }
}

/// Formats a vertex id type for display.
pub fn format_vid_type(t: &VidType) -> (r: String)
    ensures
        r@ == vid_type_display(*t),
{
    match t {
        VidType::Int64 => String::from_str("INT64"),
        VidType::FixedString(n) => {
            let mut out = String::from_str("FIXED_STRING(");
            push_decimal(&mut out, *n as u64);
            out.append(")");
            out
        },
    }
}

/// Whether a value may be written to a column whose type has this name
/// (`None`: a parameterised type, not checked). Null is allowed, integers fit
/// real and temporal columns, strings fit textual and temporal ones, and
/// lists and maps are not checked.
pub open spec fn assignable(v: VModel, column_type: Option<Seq<char>>) -> bool {
    match column_type {
        None => true,
        Some(t) => match v {
            VModel::Null => true,
            VModel::Bool(_) => t == "Bool"@,
            VModel::Int(_) => t == "Int8"@ || t == "Int16"@ || t == "Int32"@ || t == "Int64"@ || t
                == "Float"@ || t == "Double"@ || t == "Timestamp"@ || t == "Date"@ || t == "Time"@
                || t == "DateTime"@,
            VModel::Str(_) => t == "String"@ || t == "Geography"@ || t == "Date"@ || t == "Time"@
                || t == "DateTime"@ || t == "Timestamp"@,
            _ => true,
        },
    }
}

fn names_one_of(t: &str, names: &Vec<&str>) -> (r: bool)
    ensures
        r == exists|i: int| 0 <= i < names@.len() && t@ == (#[trigger] names@[i])@,
{
    let tt = String::from_str(t);
    let mut i: usize = 0;
    while i < names.len()
        invariant
            i <= names.len(),
            tt@ == t@,
            forall|k: int| 0 <= k < i ==> t@ != (#[trigger] names@[k])@,
        decreases names.len() - i,
    {
        let n = String::from_str(names[i]);
        if tt == n {
            return true;
        }
        i = i + 1;
    }
    false
}

/// Whether `value` may be written to a column of the named type.
pub fn value_assignable(value: &Value, column_type: Option<&str>) -> (r: bool)
    ensures
        r == assignable(value_model(*value), match column_type {
            Some(t) => Some(t@),
            None => None,
        }),
{
    let t = match column_type {
        None => return true,
        Some(t) => t,
    };
    match value {
        Value::Null => true,
        Value::Bool(_) => {
            let names = vec!["Bool"];
            let r = names_one_of(t, &names);
            proof {
                assert(names@[0]@ == "Bool"@);
            }
            r
        },
        Value::Int(_) => {
            let names = vec![
                "Int8",
                "Int16",
                "Int32",
                "Int64",
                "Float",
                "Double",
                "Timestamp",
                "Date",
                "Time",
                "DateTime",
            ];
            let r = names_one_of(t, &names);
            proof {
                let n = names@;
                assert(n[0]@ == "Int8"@ && n[1]@ == "Int16"@ && n[2]@ == "Int32"@ && n[3]@ == "Int64"@
                    && n[4]@ == "Float"@ && n[5]@ == "Double"@ && n[6]@ == "Timestamp"@ && n[7]@
                    == "Date"@ && n[8]@ == "Time"@ && n[9]@ == "DateTime"@);
                if r {
                    let i = choose|i: int| 0 <= i < n.len() && t@ == (#[trigger] n[i])@;
                    assert(0 <= i < 10);
                } else {
                    assert(t@ != n[0]@ && t@ != n[1]@ && t@ != n[2]@ && t@ != n[3]@ && t@ != n[4]@ && t@
                        != n[5]@ && t@ != n[6]@ && t@ != n[7]@ && t@ != n[8]@ && t@ != n[9]@);
                }
            }
            r
        },
        Value::String(_) => {
            let names = vec!["String", "Geography", "Date", "Time", "DateTime", "Timestamp"];
            let r = names_one_of(t, &names);
            proof {
                let n = names@;
                assert(n[0]@ == "String"@ && n[1]@ == "Geography"@ && n[2]@ == "Date"@ && n[3]@
                    == "Time"@ && n[4]@ == "DateTime"@ && n[5]@ == "Timestamp"@);
                if r {
                    let i = choose|i: int| 0 <= i < n.len() && t@ == (#[trigger] n[i])@;
                    assert(0 <= i < 6);
                } else {
                    assert(t@ != n[0]@ && t@ != n[1]@ && t@ != n[2]@ && t@ != n[3]@ && t@ != n[4]@ && t@
                        != n[5]@);
                }
            }
            r
        },
        _ => true,
    }
}


/// Law: an integer may be written to every integer column type.
pub proof fn lemma_integers_fit_integer_columns(i: i64, t: Seq<char>)
    requires
        t == "Int8"@ || t == "Int16"@ || t == "Int32"@ || t == "Int64"@,
    ensures
        assignable(VModel::Int(i), Some(t)),
{
}

} // verus!
