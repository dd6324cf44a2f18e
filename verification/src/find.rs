//! The FIND PATH statement: which endpoints it names and which path search
//! it runs.
use vstd::prelude::*;
use crate::error::{ErrorKind, ExecutionError, fails_with, make_error};
use crate::expr::Expression;
use crate::lookup::{constant_value, expr_to_value};
use crate::text::{decimal, push_decimal, str_is};
use crate::value::{Value, VModel};

verus! {

/// A vertex id as the client wrote it: an integer or a string.
#[derive(Debug)]
pub enum Vid {
    Int(i64),
    String(String),
}

/// Which paths a FIND statement asks for.
#[derive(Debug, Clone, Copy, PartialEq, Eq, Structural)]
pub enum FindType {
    ShortestPath,
    AllShortestPaths,
}

/// A FIND PATH statement.
pub struct FindPlan {
    pub find_type: FindType,
    pub from_vid: Expression,
    pub to_vid: Expression,
    pub over_edge: String,
    pub weight_prop: Option<String>,
    pub bidirect: bool,
    pub upto_steps: Option<u32>,
}

/// Which end of the path an endpoint is.
#[derive(Debug, Clone, Copy, PartialEq, Eq, Structural)]
pub enum PathEnd {
    From,
    To,
}

pub open spec fn end_word(end: PathEnd) -> Seq<char> {
    match end {
        PathEnd::From => "FROM"@,
        PathEnd::To => "TO"@,
    }
}

/// The detail of the error for an endpoint that is not an integer or string.
pub open spec fn endpoint_detail(end: PathEnd) -> Seq<char> {
    "Invalid "@ + end_word(end) + " VID (must be an integer or string literal)"@
}

/// The vertex id an endpoint expression names: an integer or string
/// constant (a negated integer included); anything else is refused.
pub fn find_endpoint(expr: &Expression, end: PathEnd) -> (r: Result<Vid, ExecutionError>)
    ensures
        match constant_value(*expr) {
            Some(VModel::Int(i)) => r matches Ok(Vid::Int(j)) && j == i,
            Some(VModel::Str(s)) => r matches Ok(Vid::String(t)) && t@ == s,
            _ => fails_with(r, ErrorKind::InvalidOperation, endpoint_detail(end)),
        },
{
    match expr_to_value(expr) {
        Some(Value::Int(i)) => Ok(Vid::Int(i)),
        Some(Value::String(s)) => Ok(Vid::String(s)),
        _ => {
            let mut detail = String::from_str("Invalid ");
            match end {
                PathEnd::From => detail.append("FROM"),
                PathEnd::To => detail.append("TO"),
            }
            detail.append(" VID (must be an integer or string literal)");
            Err(make_error(ErrorKind::InvalidOperation, detail))
        },
    }
}

/// The search a FIND statement runs.
pub enum PathAlgorithm {
    /// Least total weight under this edge property.
    Weighted(String),
    /// Every minimum-hop path, at most this many (0: no cap).
    AllShortest(usize),
    /// One minimum-hop path.
    Shortest,
}

/// How a FIND statement searches: over which edge types (empty: all), up
/// to how many hops, in both directions or not, and with which algorithm.
pub struct FindStrategy {
    pub edge_types: Vec<String>,
    pub max_steps: usize,
    pub bidirect: bool,
    pub algorithm: PathAlgorithm,
}

/// Hops searched when the statement gives no UPTO.
pub const DEFAULT_FIND_STEPS: u32 = 10;

pub open spec fn upto_detail(upto: nat, cap: nat) -> Seq<char> {
    "UPTO "@ + decimal(upto) + " STEPS exceeds the maximum of "@ + decimal(cap)
}

pub open spec fn weight_conflict_detail() -> Seq<char> {
    "WEIGHT BY cannot be combined with BIDIRECT or ALL SHORTEST PATHS"@
}

/// Whether the UPTO of a plan is above a non-zero cap.
pub open spec fn upto_too_far(plan: FindPlan, max_go_steps: u32) -> bool {
    plan.upto_steps matches Some(u) && max_go_steps > 0 && u > max_go_steps
}

/// Whether a plan asks for weights together with BIDIRECT or all paths.
pub open spec fn weight_conflict(plan: FindPlan) -> bool {
    plan.weight_prop is Some && (plan.bidirect || plan.find_type == FindType::AllShortestPaths)
}

/// The search a FIND statement runs: `*` covers every edge type, UPTO
/// (default 10) bounds the hops and may not pass a non-zero `max_go_steps`,
/// WEIGHT BY picks the weighted search and excludes BIDIRECT and ALL
/// SHORTEST PATHS, which caps its paths at `max_find_paths`.
pub fn find_strategy(plan: &FindPlan, max_go_steps: u32, max_find_paths: usize) -> (r: Result<
    FindStrategy,
    ExecutionError,
>)
    ensures
        upto_too_far(*plan, max_go_steps) ==> fails_with(
            r,
            ErrorKind::InvalidOperation,
            upto_detail(plan.upto_steps->0 as nat, max_go_steps as nat),
        ),
        !upto_too_far(*plan, max_go_steps) && weight_conflict(*plan) ==> fails_with(
            r,
            ErrorKind::InvalidOperation,
            weight_conflict_detail(),
        ),
        !upto_too_far(*plan, max_go_steps) && !weight_conflict(*plan) ==> (r matches Ok(s) && {
            &&& s.edge_types@.len() == (if plan.over_edge@ == "*"@ {
                0int
            } else {
                1int
            })
            &&& plan.over_edge@ != "*"@ ==> s.edge_types@[0]@ == plan.over_edge@
            &&& s.max_steps == match plan.upto_steps {
                Some(u) => u as usize,
                None => DEFAULT_FIND_STEPS as usize,
            }
            &&& s.bidirect == plan.bidirect
            &&& match plan.weight_prop {
                Some(w) => s.algorithm matches PathAlgorithm::Weighted(p) && p@ == w@,
                None => if plan.find_type == FindType::AllShortestPaths {
                    s.algorithm matches PathAlgorithm::AllShortest(n) && n == max_find_paths
                } else {
                    s.algorithm is Shortest
                },
            }
        }),
{
    let mut edge_types: Vec<String> = Vec::new();
    if !str_is(plan.over_edge.as_str(), "*") {
        edge_types.push(plan.over_edge.clone());
    }
    if let Some(upto) = plan.upto_steps {
        if max_go_steps > 0 && upto > max_go_steps {
            let mut detail = String::from_str("UPTO ");
            push_decimal(&mut detail, upto as u64);
            detail.append(" STEPS exceeds the maximum of ");
            push_decimal(&mut detail, max_go_steps as u64);
            return Err(make_error(ErrorKind::InvalidOperation, detail));
        }
    }
    let max_steps = match plan.upto_steps {
        Some(u) => u as usize,
        None => DEFAULT_FIND_STEPS as usize,
    };
    let all = plan.find_type == FindType::AllShortestPaths;
    let algorithm = match &plan.weight_prop {
        Some(w) => {
            if plan.bidirect || all {
                return Err(
                    make_error(
                        ErrorKind::InvalidOperation,
                        String::from_str(
                            "WEIGHT BY cannot be combined with BIDIRECT or ALL SHORTEST PATHS",
                        ),
                    ),
                );
            }
            PathAlgorithm::Weighted(w.clone())
        },
        None => if all {
            PathAlgorithm::AllShortest(max_find_paths)
        } else {
            PathAlgorithm::Shortest
        },
    };
    Ok(FindStrategy { edge_types, max_steps, bidirect: plan.bidirect, algorithm })
}

} // verus!
