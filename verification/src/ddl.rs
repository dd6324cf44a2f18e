//! Checks on schema changes.
use vstd::prelude::*;
use vstd::string::StringExecFns;
use vstd::pervasive::VecAdditionalExecFns;
use crate::error::{ErrorKind, ExecutionError, fails_with, make_error};
use crate::expr::{Expression, Literal};
use crate::text::{push_signed_decimal, signed_decimal, str_is, to_uppercase, uppercase_of};
use crate::shape::{DataType, data_type_name, data_type_text};
use crate::dml::SchemaKind;

verus! {

/// A property (column) declared in a schema statement.
#[derive(Debug)]
pub struct PropertyDef {
    pub name: String,
    pub data_type: DataType,
    pub nullable: bool,
    pub default_value: Option<Expression>,
}

/// A column added to existing data must be nullable or have a default.
pub fn validate_add_column(prop: &PropertyDef) -> (r: Result<(), ExecutionError>)
    ensures
        r is Ok <==> (prop.nullable || prop.default_value is Some),
        r is Err ==> fails_with(
            r,
            ErrorKind::InvalidOperation,
            "Column '"@ + prop.name@ + "' must be nullable or have a default value for ADD COLUMN"@,
        ),
{
    if !prop.nullable && prop.default_value.is_none() {
        let mut detail = String::from_str("Column '");
        detail.append(prop.name.as_str());
        detail.append("' must be nullable or have a default value for ADD COLUMN");
        return Err(make_error(ErrorKind::InvalidOperation, detail));
    }
    Ok(())
}

/// The text stored for a literal default value.
pub open spec fn default_text(l: Literal) -> Seq<char> {
    match l {
        Literal::String(s) => s@,
        Literal::Int(i) => signed_decimal(i as int),
        Literal::Bool(b) => if b {
            "true"@
        } else {
            "false"@
        },
        Literal::Null => "null"@,
    }
}

/// Renders a default value for the schema store; only literals are allowed.
pub fn convert_expr_to_string(expr: &Expression) -> (r: Result<String, ExecutionError>)
    ensures
        match expr {
            Expression::Literal(l) => r matches Ok(s) && s@ == default_text(*l),
            _ => fails_with(r, ErrorKind::InvalidOperation, "Default value must be a literal"@),
        },
{
    match expr {
        Expression::Literal(lit) => match lit {
            Literal::String(s) => Ok(s.clone()),
            Literal::Int(i) => {
                let mut out = String::new();
                push_signed_decimal(&mut out, *i);
                Ok(out)
            },
            Literal::Bool(b) => Ok(
                if *b {
                    String::from_str("true")
                } else {
                    String::from_str("false")
                },
            ),
            Literal::Null => Ok(String::from_str("null")),
        },
        _ => Err(
            make_error(
                ErrorKind::InvalidOperation,
                String::from_str("Default value must be a literal"),
            ),
        ),
    }
}


/// A column as the schema store records it.
#[derive(Debug)]
pub struct SchemaColumn {
    pub name: String,
    /// The type's name, such as `Int64` or `FixedString(8)`.
    pub data_type: String,
    pub nullable: bool,
    pub default_value: Option<Expression>,
}

/// What an ALTER operation does to a column.
#[derive(Debug, Clone, Copy, PartialEq, Eq, Structural)]
pub enum AlterOpType {
    AddColumn,
    DropColumn,
    ChangeColumn,
}

/// One operation of an ALTER TAG or ALTER EDGE statement.
#[derive(Debug)]
pub struct AlterColumnOp {
    pub op_type: AlterOpType,
    pub prop: PropertyDef,
}

/// The stored column for a declared property.
pub open spec fn column_for(p: PropertyDef) -> (Seq<char>, Seq<char>, bool, Option<Expression>) {
    (p.name@, data_type_text(p.data_type), p.nullable, p.default_value)
}

/// A stored column by its parts.
pub open spec fn column_view(c: SchemaColumn) -> (Seq<char>, Seq<char>, bool, Option<Expression>) {
    (c.name@, c.data_type@, c.nullable, c.default_value)
}

pub open spec fn columns_view(cs: Seq<SchemaColumn>) -> Seq<(Seq<char>, Seq<char>, bool, Option<Expression>)> {
    cs.map_values(|c: SchemaColumn| column_view(c))
}

/// Position of the first column named `n`.
pub open spec fn column_index_of(
    cs: Seq<(Seq<char>, Seq<char>, bool, Option<Expression>)>,
    n: Seq<char>,
) -> Option<int>
    decreases cs.len(),
{
    if cs.len() == 0 {
        None
    } else if cs[0].0 == n {
        Some(0)
    } else {
        match column_index_of(cs.drop_first(), n) {
            Some(i) => Some(i + 1),
            None => None,
        }
    }
}

pub open spec fn kind_word(kind: SchemaKind) -> Seq<char> {
    match kind {
        SchemaKind::Tag => "tag"@,
        SchemaKind::Edge => "edge"@,
    }
}

pub open spec fn column_exists_detail(col: Seq<char>, kind: SchemaKind, name: Seq<char>) -> Seq<char> {
    "Column '"@ + col + "' already exists in "@ + kind_word(kind) + " '"@ + name + "'"@
}

pub open spec fn column_missing_detail(col: Seq<char>, kind: SchemaKind, name: Seq<char>) -> Seq<char> {
    "Column '"@ + col + "' does not exist in "@ + kind_word(kind) + " '"@ + name + "'"@
}

pub open spec fn add_column_detail(col: Seq<char>) -> Seq<char> {
    "Column '"@ + col + "' must be nullable or have a default value for ADD COLUMN"@
}

/// Whether a column is not named `col`.
pub open spec fn not_named(col: Seq<char>) -> spec_fn((Seq<char>, Seq<char>, bool, Option<Expression>)) -> bool {
    |c: (Seq<char>, Seq<char>, bool, Option<Expression>)| c.0 != col
}

/// One ALTER operation on the columns of a schema, or the error it raises.
pub open spec fn alter_step(
    cs: Seq<(Seq<char>, Seq<char>, bool, Option<Expression>)>,
    op: AlterColumnOp,
    kind: SchemaKind,
    name: Seq<char>,
) -> Result<Seq<(Seq<char>, Seq<char>, bool, Option<Expression>)>, Seq<char>> {
    let col = op.prop.name@;
    match op.op_type {
        AlterOpType::AddColumn => if !(op.prop.nullable || op.prop.default_value is Some) {
            Err(add_column_detail(col))
        } else if column_index_of(cs, col) is Some {
            Err(column_exists_detail(col, kind, name))
        } else {
            Ok(cs.push(column_for(op.prop)))
        },
        AlterOpType::DropColumn => if column_index_of(cs, col) is None {
            Err(column_missing_detail(col, kind, name))
        } else {
            Ok(cs.filter(not_named(col)))
        },
        AlterOpType::ChangeColumn => match column_index_of(cs, col) {
            Some(i) => Ok(cs.update(i, column_for(op.prop))),
            None => Err(column_missing_detail(col, kind, name)),
        },
    }
}

/// The ALTER operations applied in order; the first failing one stops them.
pub open spec fn alter_fold(
    cs: Seq<(Seq<char>, Seq<char>, bool, Option<Expression>)>,
    ops: Seq<AlterColumnOp>,
    kind: SchemaKind,
    name: Seq<char>,
) -> Result<Seq<(Seq<char>, Seq<char>, bool, Option<Expression>)>, Seq<char>>
    decreases ops.len(),
{
    if ops.len() == 0 {
        Ok(cs)
    } else {
        match alter_fold(cs, ops.drop_last(), kind, name) {
            Ok(c) => alter_step(c, ops.last(), kind, name),
            Err(e) => Err(e),
        }
    }
}

fn find_column(cs: &Vec<SchemaColumn>, n: &str) -> (r: Option<usize>)
    ensures
        match r {
            Some(i) => column_index_of(columns_view(cs@), n@) == Some(i as int) && i < cs@.len(),
            None => column_index_of(columns_view(cs@), n@) is None,
        },
{
    let ghost vs = columns_view(cs@);
    let mut i: usize = 0;
    assert(vs.skip(0) =~= vs);
    while i < cs.len()
        invariant
            i <= cs.len(),
            vs == columns_view(cs@),
            column_index_of(vs, n@) == match column_index_of(vs.skip(i as int), n@) {
                Some(j) => Some(j + i),
                None => None,
            },
        decreases cs.len() - i,
    {
        assert(vs.skip(i as int).drop_first() =~= vs.skip(i + 1));
        assert(vs.skip(i as int)[0] == column_view(cs@[i as int]));
        if str_is(cs[i].name.as_str(), n) {
            return Some(i);
        }
        i = i + 1;
    }
    None
}

fn column_error(prefix: &str, col: &String, middle: &str, kind: SchemaKind, name: &str) -> (e: ExecutionError)
    ensures
        e.spec_kind() == ErrorKind::InvalidOperation,
        e.spec_detail() == prefix@ + col@ + middle@ + kind_word(kind) + " '"@ + name@ + "'"@,
{
    let mut d = String::from_str(prefix);
    d.append(col.as_str());
    d.append(middle);
    match kind {
        SchemaKind::Tag => d.append("tag"),
        SchemaKind::Edge => d.append("edge"),
    }
    d.append(" '");
    d.append(name);
    d.append("'");
    make_error(ErrorKind::InvalidOperation, d)
}

fn column_from(p: PropertyDef) -> (c: SchemaColumn)
    ensures
        column_view(c) == column_for(p),
{
    let t = data_type_name(&p.data_type);
    SchemaColumn { name: p.name, data_type: t, nullable: p.nullable, default_value: p.default_value }
}

/// Applies the operations of an ALTER statement to the columns of a tag or
/// edge schema named `name`, in order: ADD needs a nullable column or a
/// default and a new name, DROP and CHANGE need an existing one (CHANGE
/// replaces the first column of that name). The first operation that
/// fails gives the error.
pub fn apply_alter_operations(
    columns: Vec<SchemaColumn>,
    operations: Vec<AlterColumnOp>,
    kind: SchemaKind,
    name: &str,
) -> (r: Result<Vec<SchemaColumn>, ExecutionError>)
    ensures
        match alter_fold(columns_view(columns@), operations@, kind, name@) {
            Ok(cs) => r matches Ok(out) && columns_view(out@) == cs,
            Err(d) => fails_with(r, ErrorKind::InvalidOperation, d),
        },
{
    let ghost c0 = columns_view(columns@);
    let ghost ops = operations@;
    let n = operations.len();
    let mut src = operations;
    let mut rev: Vec<AlterColumnOp> = Vec::new();
    while src.len() > 0
        invariant
            src@.len() + rev@.len() == n,
            n == ops.len(),
            src@ == ops.subrange(0, src@.len() as int),
            forall|k: int| 0 <= k < rev@.len() ==> rev@[k] == ops[n - 1 - k],
        decreases src@.len(),
    {
        let x = src.pop().unwrap();
        rev.push(x);
    }
    let mut cols = columns;
    let mut k: usize = 0;
    while rev.len() > 0
        invariant
            k + rev@.len() == n,
            n == ops.len(),
            c0 == columns_view(columns@),
            ops == operations@,
            forall|i: int| 0 <= i < rev@.len() ==> rev@[i] == ops[n - 1 - i],
            alter_fold(c0, ops.take(k as int), kind, name@) == Ok::<
                Seq<(Seq<char>, Seq<char>, bool, Option<Expression>)>,
                Seq<char>,
            >(columns_view(cols@)),
        decreases rev@.len(),
    {
        let op = rev.pop().unwrap();
        let ghost before = columns_view(cols@);
        proof {
            assert(op == ops[k as int]);
            assert(ops.take(k + 1).drop_last() =~= ops.take(k as int));
            assert(ops.take(k + 1).last() == op);
        }
        match op.op_type {
            AlterOpType::AddColumn => {
                if let Err(e) = validate_add_column(&op.prop) {
                    proof {
                        lemma_fold_fails_on(c0, ops, k as int, kind, name@);
                    }
                    return Err(e);
                }
                if find_column(&cols, op.prop.name.as_str()).is_some() {
                    let e = column_error("Column '", &op.prop.name, "' already exists in ", kind, name);
                    proof {
                        lemma_fold_fails_on(c0, ops, k as int, kind, name@);
                    }
                    return Err(e);
                }
                let c = column_from(op.prop);
                let ghost cv = column_view(c);
                cols.push(c);
                proof {
                    assert(columns_view(cols@) =~= before.push(cv));
                    assert(alter_step(before, op, kind, name@) == Ok::<
                        Seq<(Seq<char>, Seq<char>, bool, Option<Expression>)>,
                        Seq<char>,
                    >(before.push(cv)));
                }
            },
            AlterOpType::DropColumn => {
                if find_column(&cols, op.prop.name.as_str()).is_none() {
                    let e = column_error("Column '", &op.prop.name, "' does not exist in ", kind, name);
                    proof {
                        lemma_fold_fails_on(c0, ops, k as int, kind, name@);
                    }
                    return Err(e);
                }
                cols = keep_other_columns(cols, op.prop.name.as_str());
                proof {
                    let f1 = not_named(op.prop.name@);
                    assert(columns_view(cols@) == before.filter(f1));
                    assert(alter_step(before, op, kind, name@) == Ok::<
                        Seq<(Seq<char>, Seq<char>, bool, Option<Expression>)>,
                        Seq<char>,
                    >(before.filter(f1)));
                }
            },
            AlterOpType::ChangeColumn => {
                match find_column(&cols, op.prop.name.as_str()) {
                    None => {
                        let e = column_error("Column '", &op.prop.name, "' does not exist in ", kind, name);
                        proof {
                            lemma_fold_fails_on(c0, ops, k as int, kind, name@);
                        }
                        return Err(e);
                    },
                    Some(i) => {
                        let mut c = column_from(op.prop);
                        let ghost cv = column_view(c);
                        cols.set_and_swap(i, &mut c);
                        proof {
                            assert(columns_view(cols@) =~= before.update(i as int, cv));
                            assert(alter_step(before, op, kind, name@) == Ok::<
                                Seq<(Seq<char>, Seq<char>, bool, Option<Expression>)>,
                                Seq<char>,
                            >(before.update(i as int, cv)));
                        }
                    },
                }
            },
        }
        k = k + 1;
    }
    assert(ops.take(n as int) =~= ops);
    Ok(cols)
}

/// Once the fold has reached the operations before `k` and operation `k`
/// fails, the whole fold fails with that operation's error.
proof fn lemma_fold_fails_on(
    c0: Seq<(Seq<char>, Seq<char>, bool, Option<Expression>)>,
    ops: Seq<AlterColumnOp>,
    k: int,
    kind: SchemaKind,
    name: Seq<char>,
)
    requires
        0 <= k < ops.len(),
        alter_fold(c0, ops.take(k), kind, name) matches Ok(c) && alter_step(c, ops[k], kind, name) is Err,
    ensures
        alter_fold(c0, ops, kind, name) == alter_step(
            alter_fold(c0, ops.take(k), kind, name)->Ok_0,
            ops[k],
            kind,
            name,
        ),
    decreases ops.len() - k,
{
    let c = alter_fold(c0, ops.take(k), kind, name)->Ok_0;
    let e = alter_step(c, ops[k], kind, name);
    assert(ops.take(k + 1).drop_last() =~= ops.take(k));
    assert(alter_fold(c0, ops.take(k + 1), kind, name) == e);
    lemma_fold_stays_failed(c0, ops, k + 1, kind, name);
}

proof fn lemma_fold_stays_failed(
    c0: Seq<(Seq<char>, Seq<char>, bool, Option<Expression>)>,
    ops: Seq<AlterColumnOp>,
    k: int,
    kind: SchemaKind,
    name: Seq<char>,
)
    requires
        0 <= k <= ops.len(),
        alter_fold(c0, ops.take(k), kind, name) is Err,
    ensures
        alter_fold(c0, ops, kind, name) == alter_fold(c0, ops.take(k), kind, name),
    decreases ops.len() - k,
{
    if k == ops.len() {
        assert(ops.take(k) =~= ops);
    } else {
        assert(ops.take(k + 1).drop_last() =~= ops.take(k));
        lemma_fold_stays_failed(c0, ops, k + 1, kind, name);
    }
}

fn keep_other_columns(cols: Vec<SchemaColumn>, n: &str) -> (r: Vec<SchemaColumn>)
    ensures
        columns_view(r@) == columns_view(cols@).filter(not_named(n@)),
{
    let ghost cs = cols@;
    let ghost pred = not_named(n@);
    let len = cols.len();
    let mut src = cols;
    let mut rev: Vec<SchemaColumn> = Vec::new();
    while src.len() > 0
        invariant
            src@.len() + rev@.len() == len,
            len == cs.len(),
            src@ == cs.subrange(0, src@.len() as int),
            forall|k: int| 0 <= k < rev@.len() ==> rev@[k] == cs[len - 1 - k],
        decreases src@.len(),
    {
        let x = src.pop().unwrap();
        rev.push(x);
    }
    let mut out: Vec<SchemaColumn> = Vec::new();
    let mut k: usize = 0;
    while rev.len() > 0
        invariant
            k + rev@.len() == len,
            len == cs.len(),
            forall|i: int| 0 <= i < rev@.len() ==> rev@[i] == cs[len - 1 - i],
            pred == not_named(n@),
            columns_view(out@) == columns_view(cs.take(k as int)).filter(pred),
        decreases rev@.len(),
    {
        let c = rev.pop().unwrap();
        proof {
            assert(c == cs[k as int]);
            assert(columns_view(cs.take(k + 1)) =~= columns_view(cs.take(k as int)).push(column_view(c)));
            columns_view(cs.take(k as int)).lemma_filter_push(column_view(c), pred);
        }
        let ghost before = columns_view(out@);
        if !str_is(c.name.as_str(), n) {
            out.push(c);
            proof {
                assert(columns_view(out@) =~= before.push(column_view(c)));
            }
        }
        k = k + 1;
    }
    assert(cs.take(len as int) =~= cs);
    out
}


/// A field of a stored schema as SHOW CREATE renders it: the type name
/// (`None`: not recorded), whether it may be null (`None`: not recorded,
/// taken as nullable), and the text of its default value, if any.
pub struct DdlField {
    pub name: String,
    pub data_type: Option<String>,
    pub nullable: Option<bool>,
    pub default_text: Option<String>,
}

/// One field of the DDL: name, upper-cased type (`STRING` when none is
/// recorded), ` NOT NULL` unless nullable, and ` DEFAULT <text>`.
pub open spec fn ddl_field_text(f: DdlField) -> Seq<char> {
    f.name@ + " "@ + (match f.data_type {
        Some(t) => uppercase_of(t@),
        None => "STRING"@,
    }) + (if f.nullable == Some(false) {
        " NOT NULL"@
    } else {
        Seq::empty()
    }) + (match f.default_text {
        Some(d) => " DEFAULT "@ + d@,
        None => Seq::empty(),
    })
}

/// The fields of the DDL joined with `, `.
pub open spec fn ddl_fields_text(fs: Seq<DdlField>) -> Seq<char>
    decreases fs.len(),
{
    if fs.len() == 0 {
        Seq::empty()
    } else if fs.len() == 1 {
        ddl_field_text(fs[0])
    } else {
        ddl_fields_text(fs.drop_last()) + ", "@ + ddl_field_text(fs.last())
    }
}

fn ddl_field(f: &DdlField) -> (r: String)
    ensures
        r@ == ddl_field_text(*f),
{
    let mut out = String::from_str(f.name.as_str());
    out.append(" ");
    let ghost a = out@;
    let ty = match &f.data_type {
        Some(t) => to_uppercase(t.as_str()),
        None => String::from_str("STRING"),
    };
    out.append(ty.as_str());
    let ghost b = out@;
    let nn = match f.nullable {
        Some(false) => String::from_str(" NOT NULL"),
        _ => String::new(),
    };
    out.append(nn.as_str());
    let ghost c = out@;
    let mut dflt = String::new();
    match &f.default_text {
        Some(d) => {
            dflt.append(" DEFAULT ");
            dflt.append(d.as_str());
        },
        None => {},
    }
    out.append(dflt.as_str());
    proof {
        assert(nn@ == (if f.nullable == Some(false) {
            " NOT NULL"@
        } else {
            Seq::<char>::empty()
        }));
        assert(dflt@ == (match f.default_text {
            Some(d) => " DEFAULT "@ + d@,
            None => Seq::<char>::empty(),
        }));
        assert(out@ =~= f.name@ + " "@ + ty@ + nn@ + dflt@);
    }
    out
}

/// `CREATE <kind> <name> (<fields>)`, the statement that recreates a tag or
/// edge schema.
pub fn schema_json_to_create_ddl(name: &str, kind: &str, fields: &Vec<DdlField>) -> (r: String)
    ensures
        r@ == "CREATE "@ + kind@ + " "@ + name@ + " ("@ + ddl_fields_text(fields@) + ")"@,
{
    let mut out = String::from_str("CREATE ");
    out.append(kind);
    out.append(" ");
    out.append(name);
    out.append(" (");
    let ghost head = out@;
    let mut i: usize = 0;
    while i < fields.len()
        invariant
            i <= fields@.len(),
            out@ == head + ddl_fields_text(fields@.take(i as int)),
        decreases fields.len() - i,
    {
        let ghost before = out@;
        if i > 0 {
            out.append(", ");
        }
        let ghost mid = out@;
        let ft = ddl_field(&fields[i]);
        out.append(ft.as_str());
        proof {
            let t = fields@.take(i + 1);
            assert(t.drop_last() =~= fields@.take(i as int));
            assert(t.last() == fields@[i as int]);
            if i == 0 {
                assert(fields@.take(0) =~= Seq::<DdlField>::empty());
                assert(ddl_fields_text(t) == ft@);
                assert(out@ =~= head + ddl_fields_text(t));
            } else {
                assert(out@ =~= head + (ddl_fields_text(fields@.take(i as int)) + ", "@ + ft@));
            }
        }
        i = i + 1;
    }
    assert(fields@.take(fields@.len() as int) =~= fields@);
    out.append(")");
    out
}

/// The schema object a DROP statement names.
pub enum DropKind {
    Space,
    Tag,
    Edge,
}

/// The detail of the error for dropping the reserved `sameAs` edge type.
pub open spec fn drop_sameas_detail() -> Seq<char> {
    "the reserved sameAs edge type cannot be dropped — owl:sameAs merges are irreversible (insertion-only)"@
}

/// The detail of the error for dropping the tag of a class with DROP TAG.
pub open spec fn drop_class_tag_detail(name: Seq<char>) -> Seq<char> {
    name + " is a class; use DROP CLASS"@
}

/// Whether DROP SPACE / TAG / EDGE `name` deletes it (`Ok(true)`) or does
/// nothing (`Ok(false)`, when it does not exist and IF EXISTS was given),
/// given whether it exists and, for a tag, whether a class is defined on
/// it. The reserved `sameAs` edge type is never dropped; a missing object
/// without IF EXISTS is a not-found error naming it; a class's tag must be
/// dropped with DROP CLASS.
pub fn drop_decision(kind: DropKind, name: &str, exists: bool, is_class: bool, if_exists: bool) -> (r: Result<
    bool,
    ExecutionError,
>)
    ensures
        (kind is Edge && name@ == "sameAs"@) ==> fails_with(r, ErrorKind::InvalidOperation, drop_sameas_detail()),
        !(kind is Edge && name@ == "sameAs"@) && !exists ==> (if if_exists {
            r == Ok::<bool, ExecutionError>(false)
        } else {
            fails_with(
                r,
                match kind {
                    DropKind::Space => ErrorKind::SpaceNotFound,
                    DropKind::Tag => ErrorKind::TagNotFound,
                    DropKind::Edge => ErrorKind::EdgeNotFound,
                },
                name@,
            )
        }),
        !(kind is Edge && name@ == "sameAs"@) && exists && kind is Tag && is_class ==> fails_with(
            r,
            ErrorKind::InvalidOperation,
            drop_class_tag_detail(name@),
        ),
        !(kind is Edge && name@ == "sameAs"@) && exists && !(kind is Tag && is_class) ==> r == Ok::<
            bool,
            ExecutionError,
        >(true),
{
    let is_edge = match kind {
        DropKind::Edge => true,
        _ => false,
    };
    if is_edge && crate::text::str_is(name, "sameAs") {
        return Err(
            make_error(
                ErrorKind::InvalidOperation,
                String::from_str(
                    "the reserved sameAs edge type cannot be dropped — owl:sameAs merges are irreversible (insertion-only)",
                ),
            ),
        );
    }
    if !exists {
        if if_exists {
            return Ok(false);
        }
        let k = match kind {
            DropKind::Space => ErrorKind::SpaceNotFound,
            DropKind::Tag => ErrorKind::TagNotFound,
            DropKind::Edge => ErrorKind::EdgeNotFound,
        };
        return Err(make_error(k, String::from_str(name)));
    }
    let is_tag = match kind {
        DropKind::Tag => true,
        _ => false,
    };
    if is_tag && is_class {
        let mut detail = String::from_str(name);
        detail.append(" is a class; use DROP CLASS");
        return Err(make_error(ErrorKind::InvalidOperation, detail));
    }
    Ok(true)
}

/// What DROP SPACE `name` deletes besides its indexes: everything under
/// `{name}:` (vertices, edges), everything under `space:{name}:` (its tag
/// and edge schemas), and the key `space:{name}` itself.
pub fn space_purge_keys(name: &str) -> (r: (String, String, String))
    ensures
        r.0@ == name@ + ":"@,
        r.1@ == "space:"@ + name@ + ":"@,
        r.2@ == "space:"@ + name@,
{
    let mut data = String::from_str(name);
    data.append(":");
    let mut schema = String::from_str("space:");
    schema.append(name);
    let meta = schema.clone();
    schema.append(":");
    (data, schema, meta)
}

} // verus!
