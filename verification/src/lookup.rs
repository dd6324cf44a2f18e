//! LOOKUP planning: the offset/limit window, predicate extraction from a
//! WHERE clause, and duplicate removal over candidate vertex ids.
use vstd::prelude::*;
use crate::config::ExecutionConfig;
use crate::error::{ErrorKind, ExecutionError, fails_with, make_error};
use crate::eval::literal_value;
use crate::eval_spec::literal_model;
use crate::expr::{BinaryOperator, Expression, Literal, UnaryOperator};
use crate::text::{decimal, eq_ignore_ascii_case, eq_ignore_ascii_case_spec, push_decimal};
use crate::value::{VModel, Value, value_model};
use vstd::string::StringExecFns;

verus! {

broadcast use vstd::std_specs::hash::group_hash_axioms;

/// The rows a LOOKUP returns and how far its index scan must reach.
#[derive(Debug, Clone, Copy)]
pub struct LookupWindow {
    /// Rows skipped before the first returned row.
    pub offset: usize,
    /// Rows returned at most, after the offset.
    pub limit: Option<usize>,
    /// Rows that must be decoded to fill the window (`offset + limit`).
    pub fetch_limit: Option<usize>,
    /// Candidates the index scan may produce.
    pub index_limit: Option<usize>,
}

/// `rows` with the first `offset` dropped and at most `limit` kept.
pub open spec fn window_rows<T>(rows: Seq<T>, offset: nat, limit: Option<usize>) -> Seq<T> {
    let rest = if offset <= rows.len() {
        rows.skip(offset as int)
    } else {
        Seq::empty()
    };
    match limit {
        Some(l) => if l < rest.len() {
            rest.take(l as int)
        } else {
            rest
        },
        None => rest,
    }
}

/// Detail of the error for a distributed index limit that does not fit in `u32`.
pub open spec fn distributed_limit_detail(limit: usize) -> Seq<char> {
    "LOOKUP OFFSET + LIMIT exceeds the distributed query limit: "@ + decimal(limit as nat)
}

/// Detail of the error for a scan that hit its cap before the window was full.
pub open spec fn scan_cap_detail(decoded_rows: usize) -> Seq<char> {
    "LOOKUP index candidate scan reached its safety cap after decoding "@ + decimal(
        decoded_rows as nat,
    ) + " rows"@
}

impl LookupWindow {
    /// Whether enough rows have been decoded to fill the window.
    pub fn is_satisfied(self, decoded_rows: usize) -> (r: bool)
        ensures
            r == (self.fetch_limit matches Some(required) && decoded_rows >= required),
    {
        match self.fetch_limit {
            Some(required) => decoded_rows >= required,
            None => false,
        }
    }

    /// Drops `offset` rows and keeps at most `limit` of the rest.
    pub fn apply<T>(self, rows: Vec<T>) -> (r: Vec<T>)
        ensures
            r@ == window_rows(rows@, self.offset as nat, self.limit),
    {
        let mut rows = rows;
        if self.offset > rows.len() {
            return Vec::new();
        }
        let mut rest = rows.split_off(self.offset);
        match self.limit {
            Some(limit) => {
                if limit < rest.len() {
                    rest.truncate(limit);
                }
            },
            None => {},
        }
        rest
    }

    /// The index limit as the `u32` a distributed scan takes; no limit is `u32::MAX`.
    pub fn index_limit_u32(self) -> (r: Result<u32, ExecutionError>)
        ensures
            match self.index_limit {
                Some(limit) => match r {
                    Ok(v) => limit <= u32::MAX && v == limit,
                    Err(e) => limit > u32::MAX && e.spec_kind() == ErrorKind::InvalidOperation
                        && e.spec_detail() == distributed_limit_detail(limit),
                },
                None => r == Ok::<u32, ExecutionError>(u32::MAX),
            },
    {
        match self.index_limit {
            Some(limit) => {
                if limit <= 4294967295usize {
                    Ok(limit as u32)
                } else {
                    let mut detail = String::from_str(
                        "LOOKUP OFFSET + LIMIT exceeds the distributed query limit: ",
                    );
                    push_decimal(&mut detail, limit as u64);
                    Err(make_error(ErrorKind::InvalidOperation, detail))
                }
            },
            None => Ok(u32::MAX),
        }
    }
}

/// The limit a LOOKUP applies: the explicit one, else the configured scan cap
/// when that is non-zero.
pub open spec fn effective_limit(max_scan_limit: usize, explicit: Option<usize>) -> Option<usize> {
    match explicit {
        Some(l) => Some(l),
        None => if max_scan_limit > 0 {
            Some(max_scan_limit)
        } else {
            None
        },
    }
}

/// Builds the window for a LOOKUP with the given OFFSET and LIMIT. Fails when
/// `offset + limit` does not fit in `usize`.
pub fn lookup_window(config: &ExecutionConfig, offset: Option<usize>, explicit: Option<usize>) -> (r:
    Result<LookupWindow, ExecutionError>)
    ensures
        ({
            let off: usize = match offset {
                Some(o) => o,
                None => 0,
            };
            let limit = effective_limit(config.max_scan_limit, explicit);
            match r {
                Ok(w) => {
                    &&& w.offset == off
                    &&& w.limit == limit
                    &&& w.fetch_limit == (match limit {
                        Some(l) => Some((off + l) as usize),
                        None => None::<usize>,
                    })
                    &&& (limit matches Some(l) ==> off + l <= usize::MAX)
                    &&& w.index_limit == (if config.max_scan_limit > 0 {
                        let f: usize = match w.fetch_limit {
                            Some(f) => f,
                            None => 0,
                        };
                        Some(if f >= config.max_scan_limit { f } else { config.max_scan_limit })
                    } else {
                        None::<usize>
                    })
                },
                Err(e) => {
                    &&& limit matches Some(l) && off + l > usize::MAX
                    &&& e.spec_kind() == ErrorKind::InvalidOperation
                    &&& e.spec_detail() == "LOOKUP OFFSET + LIMIT exceeds the platform size"@
                },
            }
        }),
{
    let off: usize = match offset {
        Some(o) => o,
        None => 0,
    };
    let limit: Option<usize> = match explicit {
        Some(l) => Some(l),
        None => if config.max_scan_limit > 0 {
            Some(config.max_scan_limit)
        } else {
            None
        },
    };
    let fetch_limit: Option<usize> = match limit {
        Some(l) => match off.checked_add(l) {
            Some(f) => Some(f),
            None => {
                return Err(
                    make_error(
                        ErrorKind::InvalidOperation,
                        String::from_str("LOOKUP OFFSET + LIMIT exceeds the platform size"),
                    ),
                );
            },
        },
        None => None,
    };
    let index_limit: Option<usize> = if config.max_scan_limit > 0 {
        let f: usize = match fetch_limit {
            Some(f) => f,
            None => 0,
        };
        Some(if f >= config.max_scan_limit { f } else { config.max_scan_limit })
    } else {
        None
    };
    Ok(LookupWindow { offset: off, limit, fetch_limit, index_limit })
}

/// Fails when the index scan stopped at its cap before enough rows were
/// decoded to fill the window.
pub fn ensure_index_window_satisfied(
    lookup_window: LookupWindow,
    candidate_cap_reached: bool,
    decoded_rows: usize,
) -> (r: Result<(), ExecutionError>)
    ensures
        r is Err <==> (candidate_cap_reached && (lookup_window.fetch_limit matches Some(required)
            && decoded_rows < required)),
        r matches Err(e) ==> e.spec_kind() == ErrorKind::ResourceExhausted && e.spec_detail()
            == scan_cap_detail(decoded_rows),
{
    let short = match lookup_window.fetch_limit {
        Some(required) => decoded_rows < required,
        None => false,
    };
    if candidate_cap_reached && short {
        let mut detail = String::from_str(
            "LOOKUP index candidate scan reached its safety cap after decoding ",
        );
        push_decimal(&mut detail, decoded_rows as u64);
        detail.append(" rows");
        return Err(make_error(ErrorKind::ResourceExhausted, detail));
    }
    Ok(())
}

/// `s` with every element after its first occurrence removed.
pub open spec fn first_occurrences<A>(s: Seq<A>) -> Seq<A>
    decreases s.len(),
{
    if s.len() == 0 {
        Seq::empty()
    } else {
        let p = first_occurrences(s.drop_last());
        if s.drop_last().contains(s.last()) {
            p
        } else {
            p.push(s.last())
        }
    }
}

/// Deduplication keeps exactly the ids that occur, each of them once.
pub proof fn lemma_first_occurrences<A>(s: Seq<A>)
    ensures
        first_occurrences(s).no_duplicates(),
        forall|x: A| first_occurrences(s).contains(x) <==> s.contains(x),
    decreases s.len(),
{
    if s.len() > 0 {
        let t = s.drop_last();
        lemma_first_occurrences(t);
        let p = first_occurrences(t);
        assert forall|x: A| s.contains(x) <==> (t.contains(x) || x == s.last()) by {
            if s.contains(x) && x != s.last() {
                let k = choose|k: int| 0 <= k < s.len() && #[trigger] s[k] == x;
                assert(t[k] == x);
            }
            if t.contains(x) {
                let k = choose|k: int| 0 <= k < t.len() && #[trigger] t[k] == x;
                assert(s[k] == x);
            }
            if x == s.last() {
                assert(s[s.len() - 1] == x);
            }
        }
        if !t.contains(s.last()) {
            let q = p.push(s.last());
            assert forall|x: A| q.contains(x) <==> (p.contains(x) || x == s.last()) by {
                if q.contains(x) && x != s.last() {
                    let k = choose|k: int| 0 <= k < q.len() && #[trigger] q[k] == x;
                    assert(p[k] == x);
                }
                if p.contains(x) {
                    let k = choose|k: int| 0 <= k < p.len() && #[trigger] p[k] == x;
                    assert(q[k] == x);
                }
                if x == s.last() {
                    assert(q[q.len() - 1] == x);
                }
            }
            assert forall|a: int, b: int| 0 <= a < q.len() && 0 <= b < q.len() && a != b implies q[a]
                != q[b] by {
                if a == q.len() - 1 {
                    assert(p.contains(q[b]));
                } else if b == q.len() - 1 {
                    assert(p.contains(q[a]));
                }
            }
        }
    }
}

/// Removes repeated ids, keeping the first occurrence of each in its place.
pub fn stable_dedupe_vids(vids: Vec<i64>) -> (r: Vec<i64>)
    ensures
        r@ == first_occurrences(vids@),
{
    let mut seen: std::collections::HashSet<i64> = std::collections::HashSet::with_capacity(
        vids.len(),
    );
    let mut out: Vec<i64> = Vec::new();
    let mut i: usize = 0;
    while i < vids.len()
        invariant
            i <= vids.len(),
            forall|x: i64| seen@.contains(x) <==> vids@.take(i as int).contains(x),
            out@ == first_occurrences(vids@.take(i as int)),
        decreases vids.len() - i,
    {
        let v = vids[i];
        let ghost prefix = vids@.take(i as int);
        assert(vids@.take(i + 1).drop_last() =~= prefix);
        assert(vids@.take(i + 1).last() == v);
        let fresh = seen.insert(v);
        if fresh {
            out.push(v);
        }
        assert forall|x: i64| seen@.contains(x) <==> vids@.take(i + 1).contains(x) by {
            if vids@.take(i + 1).contains(x) && x != v {
                let k = choose|k: int| 0 <= k < i + 1 && #[trigger] vids@.take(i + 1)[k] == x;
                assert(prefix[k] == x);
            }
            if prefix.contains(x) {
                let k = choose|k: int| 0 <= k < i && #[trigger] prefix[k] == x;
                assert(vids@.take(i + 1)[k] == x);
            }
            if x == v {
                assert(vids@.take(i + 1)[i as int] == v);
            }
        }
        i = i + 1;
    }
    assert(vids@.take(vids.len() as int) =~= vids@);
    out
}

/// What a distributed LOOKUP asks each storage node for: every tag and
/// every property (empty selections), since LOOKUP returns whole tags.
pub fn distributed_lookup_fetch_selection() -> (r: (Vec<String>, Vec<String>))
    ensures
        r.0@.len() == 0,
        r.1@.len() == 0,
{
    (Vec::new(), Vec::new())
}

/// The comparison a range predicate asks of an indexed field.
#[derive(Debug, Clone, Copy, PartialEq, Eq, Structural)]
pub enum RangeOperator {
    GreaterThan,
    GreaterThanOrEqual,
    LessThan,
    LessThanOrEqual,
}

/// The property name an operand names: a bare identifier or `object.prop`.
pub open spec fn field_name_spec(e: Expression) -> Option<Seq<char>> {
    match e {
        Expression::Identifier(s) => Some(s@),
        Expression::PropRef { prop, .. } => Some(prop@),
        _ => None,
    }
}

/// Two's-complement negation, as `-i` computes it in a release build.
pub open spec fn wrapping_neg(i: i64) -> i64 {
    if i == i64::MIN {
        i64::MIN
    } else {
        (-i) as i64
    }
}

/// The constant an operand denotes: a literal, or a negated integer literal.
pub open spec fn constant_value(e: Expression) -> Option<VModel>
    decreases e,
{
    match e {
        Expression::Literal(l) => Some(literal_model(l)),
        Expression::UnaryOp { op: UnaryOperator::Neg, operand } => match constant_value(*operand) {
            Some(VModel::Int(i)) => Some(VModel::Int(wrapping_neg(i))),
            _ => None,
        },
        _ => None,
    }
}

/// A `field`/`constant` operand pair.
pub open spec fn field_value_spec(field: Expression, value: Expression) -> Option<
    (Seq<char>, VModel),
> {
    match (field_name_spec(field), constant_value(value)) {
        (Some(f), Some(v)) => Some((f, v)),
        _ => None,
    }
}

/// `(field, value)` of `field == value` or `value == field`.
pub open spec fn eq_condition_spec(e: Expression) -> Option<(Seq<char>, VModel)> {
    match e {
        Expression::BinaryOp { op: BinaryOperator::Eq, left, right } => match field_value_spec(
            *left,
            *right,
        ) {
            Some(p) => Some(p),
            None => field_value_spec(*right, *left),
        },
        _ => None,
    }
}

pub open spec fn range_operator_of(op: BinaryOperator) -> Option<RangeOperator> {
    match op {
        BinaryOperator::Gt => Some(RangeOperator::GreaterThan),
        BinaryOperator::Gte => Some(RangeOperator::GreaterThanOrEqual),
        BinaryOperator::Lt => Some(RangeOperator::LessThan),
        BinaryOperator::Lte => Some(RangeOperator::LessThanOrEqual),
        _ => None,
    }
}

/// The operator with its operands swapped: `a < b` is `b > a`.
pub open spec fn mirrored(op: RangeOperator) -> RangeOperator {
    match op {
        RangeOperator::GreaterThan => RangeOperator::LessThan,
        RangeOperator::GreaterThanOrEqual => RangeOperator::LessThanOrEqual,
        RangeOperator::LessThan => RangeOperator::GreaterThan,
        RangeOperator::LessThanOrEqual => RangeOperator::GreaterThanOrEqual,
    }
}

/// `(field, value, op)` of `field op value`, or of `value op field` with the
/// operator mirrored so that the field stands on the left.
pub open spec fn range_condition_spec(e: Expression) -> Option<(Seq<char>, VModel, RangeOperator)> {
    match e {
        Expression::BinaryOp { op, left, right } => match range_operator_of(op) {
            Some(direct) => match field_value_spec(*left, *right) {
                Some(p) => Some((p.0, p.1, direct)),
                None => match field_value_spec(*right, *left) {
                    Some(p) => Some((p.0, p.1, mirrored(direct))),
                    None => None,
                },
            },
            None => None,
        },
        _ => None,
    }
}

/// The property name of an identifier or `object.prop` operand.
pub fn field_name_of(expr: &Expression) -> (r: Option<String>)
    ensures
        match r {
            Some(s) => field_name_spec(*expr) == Some(s@),
            None => field_name_spec(*expr) is None,
        },
{
    match expr {
        Expression::Identifier(s) => Some(s.clone()),
        Expression::PropRef { prop, .. } => Some(prop.clone()),
        _ => None,
    }
}

/// The constant an operand denotes, if it is a literal or a negated literal.
pub fn expr_to_value(expr: &Expression) -> (r: Option<Value>)
    ensures
        match r {
            Some(v) => constant_value(*expr) == Some(value_model(v)),
            None => constant_value(*expr) is None,
        },
    decreases expr,
{
    match expr {
        Expression::Literal(lit) => Some(literal_value(lit)),
        Expression::UnaryOp { op: UnaryOperator::Neg, operand } => match expr_to_value(operand) {
            Some(Value::Int(i)) => Some(
                Value::Int(
                    if i == i64::MIN {
                        i64::MIN
                    } else {
                        -i
                    },
                ),
            ),
            Some(v) => {
                proof {
                    assert(!(value_model(v) is Int));
                }
                None
            },
            None => None,
        },
        _ => None,
    }
}

fn field_value_pair(field_expr: &Expression, value_expr: &Expression) -> (r: Option<(String, Value)>)
    ensures
        match r {
            Some(p) => field_value_spec(*field_expr, *value_expr) == Some((p.0@, value_model(p.1))),
            None => field_value_spec(*field_expr, *value_expr) is None,
        },
{
    let field = match field_name_of(field_expr) {
        Some(f) => f,
        None => return None,
    };
    let value = match expr_to_value(value_expr) {
        Some(v) => v,
        None => return None,
    };
    Some((field, value))
}

/// `(field, value)` when `expr` is `field == value` or `value == field`.
pub fn extract_eq_condition(expr: &Expression) -> (r: Option<(String, Value)>)
    ensures
        match r {
            Some(p) => eq_condition_spec(*expr) == Some((p.0@, value_model(p.1))),
            None => eq_condition_spec(*expr) is None,
        },
{
    match expr {
        Expression::BinaryOp { op: BinaryOperator::Eq, left, right } => {
            if let Some(pair) = field_value_pair(left, right) {
                return Some(pair);
            }
            if let Some(pair) = field_value_pair(right, left) {
                return Some(pair);
            }
            None
        },
        _ => None,
    }
}

/// `(field, value, op)` when `expr` is an ordered comparison between a field
/// and a constant, normalised so that the field is on the left.
pub fn extract_range_condition(expr: &Expression) -> (r: Option<(String, Value, RangeOperator)>)
    ensures
        match r {
            Some(t) => range_condition_spec(*expr) == Some((t.0@, value_model(t.1), t.2)),
            None => range_condition_spec(*expr) is None,
        },
{
    let (op, left, right) = match expr {
        Expression::BinaryOp { op, left, right } => (op, left, right),
        _ => return None,
    };
    let direct = match op {
        BinaryOperator::Gt => RangeOperator::GreaterThan,
        BinaryOperator::Gte => RangeOperator::GreaterThanOrEqual,
        BinaryOperator::Lt => RangeOperator::LessThan,
        BinaryOperator::Lte => RangeOperator::LessThanOrEqual,
        _ => return None,
    };
    if let Some((field, value)) = field_value_pair(left, right) {
        return Some((field, value, direct));
    }
    let reversed = match direct {
        RangeOperator::GreaterThan => RangeOperator::LessThan,
        RangeOperator::GreaterThanOrEqual => RangeOperator::LessThanOrEqual,
        RangeOperator::LessThan => RangeOperator::GreaterThan,
        RangeOperator::LessThanOrEqual => RangeOperator::GreaterThanOrEqual,
    };
    match field_value_pair(right, left) {
        Some((field, value)) => Some((field, value, reversed)),
        None => None,
    }
}

/// A secondary index as the local registry lists it: its name, the tag it
/// is on, and the fields it covers, in order.
pub struct IndexDef {
    pub index_name: String,
    pub schema_name: String,
    pub fields: Vec<String>,
}

/// The index serves a single-field condition on `field` of `tag`: it is on
/// `tag` (ignoring ASCII case) and covers exactly that one field.
pub open spec fn index_covers(ix: IndexDef, tag: Seq<char>, field: Seq<char>) -> bool {
    &&& eq_ignore_ascii_case_spec(ix.schema_name@, tag)
    &&& ix.fields@.len() == 1
    &&& ix.fields@[0]@ == field
}

/// The first index that serves a condition on `field` of `tag`.
pub fn covering_index(indexes: &Vec<IndexDef>, tag: &str, field: &str) -> (r: Option<usize>)
    ensures
        match r {
            Some(i) => i < indexes@.len() && index_covers(indexes@[i as int], tag@, field@) && forall|j: int|
                0 <= j < i ==> !index_covers(#[trigger] indexes@[j], tag@, field@),
            None => forall|j: int|
                0 <= j < indexes@.len() ==> !index_covers(#[trigger] indexes@[j], tag@, field@),
        },
{
    let mut i: usize = 0;
    while i < indexes.len()
        invariant
            i <= indexes@.len(),
            forall|j: int| 0 <= j < i ==> !index_covers(#[trigger] indexes@[j], tag@, field@),
        decreases indexes.len() - i,
    {
        let ix = &indexes[i];
        if eq_ignore_ascii_case(ix.schema_name.as_str(), tag) && ix.fields.len() == 1 && str_eq(
            ix.fields[0].as_str(),
            field,
        ) {
            return Some(i);
        }
        i = i + 1;
    }
    None
}

fn str_eq(a: &str, b: &str) -> (r: bool)
    ensures
        r == (a@ == b@),
{
    let ac = crate::text::chars_of(a);
    let bc = crate::text::chars_of(b);
    crate::text::chars_equal(&ac, &bc)
}

/// The ids of `parts`, one list after the other.
pub open spec fn concat_parts(parts: Seq<Option<Vec<i64>>>) -> Seq<i64>
    decreases parts.len(),
{
    if parts.len() == 0 {
        Seq::empty()
    } else {
        concat_parts(parts.drop_last()) + match parts.last() {
            Some(v) => v@,
            None => Seq::empty(),
        }
    }
}

/// Some partition's scan returned as many candidates as the index limit
/// allows, so more may exist.
pub open spec fn some_part_capped(parts: Seq<Option<Vec<i64>>>, index_limit: Option<usize>) -> bool {
    exists|p: int| 0 <= p < parts.len() && #[trigger] part_capped(parts[p], index_limit)
}

/// The partition's scan returned as many candidates as the index limit.
pub open spec fn part_capped(part: Option<Vec<i64>>, index_limit: Option<usize>) -> bool {
    match (part, index_limit) {
        (Some(v), Some(l)) => v@.len() >= l,
        _ => false,
    }
}

/// Gathers the candidates of an index scan over every partition (`None`
/// for a partition whose scan failed): nothing when any partition failed,
/// since the candidates would then be incomplete; otherwise the ids in
/// partition order without repeats, and whether some partition reached the
/// index limit.
pub fn gather_partition_candidates(parts: &Vec<Option<Vec<i64>>>, index_limit: Option<usize>) -> (r: Option<
    (Vec<i64>, bool),
>)
    ensures
        r is None <==> exists|p: int| 0 <= p < parts@.len() && #[trigger] parts@[p] is None,
        r matches Some((vids, capped)) ==> vids@ == first_occurrences(concat_parts(parts@)) && capped
            == some_part_capped(parts@, index_limit),
{
    let mut all: Vec<i64> = Vec::new();
    let mut capped = false;
    let mut i: usize = 0;
    while i < parts.len()
        invariant
            i <= parts@.len(),
            forall|p: int| 0 <= p < i ==> #[trigger] parts@[p] is Some,
            all@ == concat_parts(parts@.take(i as int)),
            capped == some_part_capped(parts@.take(i as int), index_limit),
        decreases parts.len() - i,
    {
        let ghost t = parts@.take(i as int);
        assert(parts@.take(i + 1).drop_last() =~= t);
        match &parts[i] {
            Some(v) => {
                let ghost before = all@;
                let mut j: usize = 0;
                while j < v.len()
                    invariant
                        j <= v@.len(),
                        all@ == before + v@.take(j as int),
                    decreases v.len() - j,
                {
                    all.push(v[j]);
                    assert(v@.take(j + 1) =~= v@.take(j as int).push(v@[j as int]));
                    j = j + 1;
                }
                assert(v@.take(v@.len() as int) =~= v@);
                let hit = match index_limit {
                    Some(l) => v.len() >= l,
                    None => false,
                };
                proof {
                    let t1 = parts@.take(i + 1);
                    if hit {
                        assert(t1[i as int] == parts@[i as int]);
                    }
                    assert(hit == part_capped(t1[i as int], index_limit));
                    if hit {
                        assert(part_capped(t1[i as int], index_limit));
                    }
                    if some_part_capped(t1, index_limit) && !hit {
                        let p = choose|p: int| 0 <= p < t1.len() && #[trigger] part_capped(t1[p], index_limit);
                        assert(t[p] == t1[p]);
                        assert(part_capped(t[p], index_limit));
                    }
                    if some_part_capped(t, index_limit) {
                        let p = choose|p: int| 0 <= p < t.len() && #[trigger] part_capped(t[p], index_limit);
                        assert(t1[p] == t[p]);
                        assert(part_capped(t1[p], index_limit));
                    }
                }
                capped = capped || hit;
            },
            None => {
                return None;
            },
        }
        i = i + 1;
    }
    assert(parts@.take(parts@.len() as int) =~= parts@);
    let vids = stable_dedupe_vids(all);
    Some((vids, capped))
}

/// How a LOOKUP on a tag is served.
pub struct LookupRoute {
    /// The rows to return and how far scans must reach.
    pub window: LookupWindow,
    /// The range condition and the index that serves it, tried first.
    pub range: Option<(usize, String, Value, RangeOperator)>,
    /// The equality condition and the index that serves it, tried next.
    pub eq: Option<(usize, String, Value)>,
}

/// The detail of the error for LOOKUP on an edge type.
pub open spec fn lookup_edge_detail(name: Seq<char>) -> Seq<char> {
    "LOOKUP ON edge type '"@ + name + "' is not supported yet — only tag LOOKUP is implemented"@
}

/// The result columns of LOOKUP ON `tag`: `tag.vid` and `tag.*`.
pub fn lookup_columns(tag: &str) -> (r: Vec<String>)
    ensures
        r@.len() == 2,
        r@[0]@ == tag@ + ".vid"@,
        r@[1]@ == tag@ + ".*"@,
{
    let mut a = String::from_str(tag);
    a.append(".vid");
    let mut b = String::from_str(tag);
    b.append(".*");
    let mut r: Vec<String> = Vec::new();
    r.push(a);
    r.push(b);
    r
}

/// How LOOKUP ON `name` is served, given whether `name` is a declared tag
/// and an edge type, the OFFSET and LIMIT, the WHERE clause, and the local
/// index registry (`None` when there is none). A name that is an edge type
/// and not a tag is refused. `Ok(None)` when the window is empty (LIMIT 0).
/// Otherwise, with a registry and a WHERE clause: a single-field range
/// condition served by an index is tried first, then a single-field
/// equality served by an index; a full scan with the condition pushed down
/// is the fallback for what they cannot serve.
pub fn lookup_route(
    name: &str,
    is_tag: bool,
    is_edge: bool,
    config: &ExecutionConfig,
    offset: Option<usize>,
    limit: Option<usize>,
    where_clause: Option<&Expression>,
    indexes: Option<&Vec<IndexDef>>,
) -> (r: Result<Option<LookupRoute>, ExecutionError>)
    ensures
        !is_tag && is_edge ==> fails_with(r, ErrorKind::InvalidOperation, lookup_edge_detail(name@)),
        !(!is_tag && is_edge) ==> match r {
            Err(e) => {
                &&& e.spec_kind() == ErrorKind::InvalidOperation
                &&& e.spec_detail() == "LOOKUP OFFSET + LIMIT exceeds the platform size"@
                &&& effective_limit(config.max_scan_limit, limit) matches Some(l) && (match offset {
                    Some(o) => o as int,
                    None => 0int,
                }) + l > usize::MAX
            },
            Ok(None) => effective_limit(config.max_scan_limit, limit) == Some(0usize),
            Ok(Some(route)) => {
                &&& effective_limit(config.max_scan_limit, limit) != Some(0usize)
                &&& route.window.limit == effective_limit(config.max_scan_limit, limit)
                &&& route.window.offset == (match offset { Some(o) => o, None => 0usize })
                &&& match route.range {
                    Some((i, f, v, op)) => indexes matches Some(ix) && where_clause matches Some(w)
                        && range_condition_spec(*w) == Some((f@, value_model(v), op)) && i < ix@.len()
                        && index_covers(ix@[i as int], name@, f@) && forall|j: int|
                        0 <= j < i ==> !index_covers(#[trigger] ix@[j], name@, f@),
                    None => match (indexes, where_clause) {
                        (Some(ix), Some(w)) => match range_condition_spec(*w) {
                            Some((f, _, _)) => forall|j: int| 0 <= j < ix@.len() ==> !index_covers(#[trigger] ix@[j], name@, f),
                            None => true,
                        },
                        _ => true,
                    },
                }
                &&& match route.eq {
                    Some((i, f, v)) => indexes matches Some(ix) && where_clause matches Some(w)
                        && eq_condition_spec(*w) == Some((f@, value_model(v))) && i < ix@.len()
                        && index_covers(ix@[i as int], name@, f@) && forall|j: int|
                        0 <= j < i ==> !index_covers(#[trigger] ix@[j], name@, f@),
                    None => match (indexes, where_clause) {
                        (Some(ix), Some(w)) => match eq_condition_spec(*w) {
                            Some((f, _)) => forall|j: int| 0 <= j < ix@.len() ==> !index_covers(#[trigger] ix@[j], name@, f),
                            None => true,
                        },
                        _ => true,
                    },
                }
            },
        },
{
    if !is_tag && is_edge {
        let mut detail = String::from_str("LOOKUP ON edge type '");
        detail.append(name);
        detail.append("' is not supported yet — only tag LOOKUP is implemented");
        return Err(make_error(ErrorKind::InvalidOperation, detail));
    }
    let window = lookup_window(config, offset, limit)?;
    match window.limit {
        Some(l) => if l == 0 {
            return Ok(None);
        },
        None => {},
    }
    let mut range: Option<(usize, String, Value, RangeOperator)> = None;
    let mut eq: Option<(usize, String, Value)> = None;
    match (indexes, where_clause) {
        (Some(ix), Some(w)) => {
            match extract_range_condition(w) {
                Some((f, v, op)) => match covering_index(ix, name, f.as_str()) {
                    Some(i) => {
                        range = Some((i, f, v, op));
                    },
                    None => {},
                },
                None => {},
            }
            match extract_eq_condition(w) {
                Some((f, v)) => match covering_index(ix, name, f.as_str()) {
                    Some(i) => {
                        eq = Some((i, f, v));
                    },
                    None => {},
                },
                None => {},
            }
        },
        _ => {},
    }
    Ok(Some(LookupRoute { window, range, eq }))
}


/// `a op b` for an ordering comparison operator, on integers.
pub open spec fn comparison_holds(op: BinaryOperator, a: int, b: int) -> bool {
    match op {
        BinaryOperator::Gt => a > b,
        BinaryOperator::Gte => a >= b,
        BinaryOperator::Lt => a < b,
        BinaryOperator::Lte => a <= b,
        _ => false,
    }
}

/// `x op c` for a range operator, on integers.
pub open spec fn range_holds(op: RangeOperator, x: int, c: int) -> bool {
    match op {
        RangeOperator::GreaterThan => x > c,
        RangeOperator::GreaterThanOrEqual => x >= c,
        RangeOperator::LessThan => x < c,
        RangeOperator::LessThanOrEqual => x <= c,
    }
}

/// Law: an extracted range condition `field rop c` selects exactly the
/// values the WHERE comparison accepts: for every value `x` of the field,
/// `x rop c` holds exactly when `x op c` does (field on the left) or
/// `c op x` does (field on the right), so `30 > age` becomes `age < 30`.
pub proof fn lemma_range_condition_is_the_comparison(
    op: BinaryOperator,
    left: Expression,
    right: Expression,
    f: Seq<char>,
    c: i64,
    rop: RangeOperator,
)
    requires
        range_condition_spec(Expression::BinaryOp { op, left: Box::new(left), right: Box::new(right) }) == Some(
            (f, VModel::Int(c), rop),
        ),
    ensures
        field_name_spec(left) is Some && constant_value(right) is Some ==> forall|x: int|
            #[trigger] range_holds(rop, x, c as int) == comparison_holds(op, x, c as int),
        !(field_name_spec(left) is Some && constant_value(right) is Some) ==> forall|x: int|
            #[trigger] range_holds(rop, x, c as int) == comparison_holds(op, c as int, x),
{
}

} // verus!
