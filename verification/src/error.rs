//! Errors reported by query execution.
use vstd::prelude::*;
use vstd::string::*;

verus! {

/// Which kind of failure an [`ExecutionError`] reports.
#[derive(Debug, Clone, Copy, PartialEq, Eq, Structural)]
pub enum ErrorKind {
    SpaceNotFound,
    TagNotFound,
    EdgeNotFound,
    IndexNotFound,
    VertexNotFound,
    TypeMismatch,
    ConstraintViolation,
    InvalidOperation,
    ResourceExhausted,
}

/// An execution failure with its human-readable detail.
#[derive(Debug)]
pub enum ExecutionError {
    SpaceNotFound(String),
    TagNotFound(String),
    EdgeNotFound(String),
    IndexNotFound(String),
    VertexNotFound(String),
    TypeMismatch(String),
    ConstraintViolation(String),
    InvalidOperation(String),
    ResourceExhausted(String),
}

impl ExecutionError {
    pub open spec fn spec_kind(&self) -> ErrorKind {
        match self {
            ExecutionError::SpaceNotFound(_) => ErrorKind::SpaceNotFound,
            ExecutionError::TagNotFound(_) => ErrorKind::TagNotFound,
            ExecutionError::EdgeNotFound(_) => ErrorKind::EdgeNotFound,
            ExecutionError::IndexNotFound(_) => ErrorKind::IndexNotFound,
            ExecutionError::VertexNotFound(_) => ErrorKind::VertexNotFound,
            ExecutionError::TypeMismatch(_) => ErrorKind::TypeMismatch,
            ExecutionError::ConstraintViolation(_) => ErrorKind::ConstraintViolation,
            ExecutionError::InvalidOperation(_) => ErrorKind::InvalidOperation,
            ExecutionError::ResourceExhausted(_) => ErrorKind::ResourceExhausted,
        }
    }

    pub open spec fn spec_detail(&self) -> Seq<char> {
        match self {
            ExecutionError::SpaceNotFound(m) => m@,
            ExecutionError::TagNotFound(m) => m@,
            ExecutionError::EdgeNotFound(m) => m@,
            ExecutionError::IndexNotFound(m) => m@,
            ExecutionError::VertexNotFound(m) => m@,
            ExecutionError::TypeMismatch(m) => m@,
            ExecutionError::ConstraintViolation(m) => m@,
            ExecutionError::InvalidOperation(m) => m@,
            ExecutionError::ResourceExhausted(m) => m@,
        }
    }

    /// The kind of this error.
    pub fn kind(&self) -> (k: ErrorKind)
        ensures
            k == self.spec_kind(),
    {
        match self {
            ExecutionError::SpaceNotFound(_) => ErrorKind::SpaceNotFound,
            ExecutionError::TagNotFound(_) => ErrorKind::TagNotFound,
            ExecutionError::EdgeNotFound(_) => ErrorKind::EdgeNotFound,
            ExecutionError::IndexNotFound(_) => ErrorKind::IndexNotFound,
            ExecutionError::VertexNotFound(_) => ErrorKind::VertexNotFound,
            ExecutionError::TypeMismatch(_) => ErrorKind::TypeMismatch,
            ExecutionError::ConstraintViolation(_) => ErrorKind::ConstraintViolation,
            ExecutionError::InvalidOperation(_) => ErrorKind::InvalidOperation,
            ExecutionError::ResourceExhausted(_) => ErrorKind::ResourceExhausted,
        }
    }

    /// The full human-readable text: a prefix naming the kind, then the detail.
    pub fn message(&self) -> (r: String)
        ensures
            r@ == kind_prefix(self.spec_kind()) + self.spec_detail(),
    {
        let (prefix, detail) = match self {
            ExecutionError::SpaceNotFound(m) => (String::from_str("Space not found: "), m),
            ExecutionError::TagNotFound(m) => (String::from_str("Tag not found: "), m),
            ExecutionError::EdgeNotFound(m) => (String::from_str("Edge not found: "), m),
            ExecutionError::IndexNotFound(m) => (String::from_str("Index not found: "), m),
            ExecutionError::VertexNotFound(m) => (String::from_str("Vertex not found: "), m),
            ExecutionError::TypeMismatch(m) => (String::from_str("Type mismatch: "), m),
            ExecutionError::ConstraintViolation(m) => (
                String::from_str("Constraint violation: "),
                m,
            ),
            ExecutionError::InvalidOperation(m) => (String::from_str("Invalid operation: "), m),
            ExecutionError::ResourceExhausted(m) => (String::from_str("Resource exhausted: "), m),
        };
        prefix.concat(detail.as_str())
    }
}

/// The text that [`ExecutionError::message`] puts before the detail.
pub open spec fn kind_prefix(k: ErrorKind) -> Seq<char> {
    match k {
        ErrorKind::SpaceNotFound => "Space not found: "@,
        ErrorKind::TagNotFound => "Tag not found: "@,
        ErrorKind::EdgeNotFound => "Edge not found: "@,
        ErrorKind::IndexNotFound => "Index not found: "@,
        ErrorKind::VertexNotFound => "Vertex not found: "@,
        ErrorKind::TypeMismatch => "Type mismatch: "@,
        ErrorKind::ConstraintViolation => "Constraint violation: "@,
        ErrorKind::InvalidOperation => "Invalid operation: "@,
        ErrorKind::ResourceExhausted => "Resource exhausted: "@,
    }
}

/// `r` is an error of kind `k` with exactly this detail.
pub open spec fn fails_with<T>(r: Result<T, ExecutionError>, k: ErrorKind, detail: Seq<char>) -> bool {
    r matches Err(e) && e.spec_kind() == k && e.spec_detail() == detail
}

/// Builds an error of kind `k` with the given detail.
pub fn make_error(k: ErrorKind, detail: String) -> (e: ExecutionError)
    ensures
        e.spec_kind() == k,
        e.spec_detail() == detail@,
{
    match k {
        ErrorKind::SpaceNotFound => ExecutionError::SpaceNotFound(detail),
        ErrorKind::TagNotFound => ExecutionError::TagNotFound(detail),
        ErrorKind::EdgeNotFound => ExecutionError::EdgeNotFound(detail),
        ErrorKind::IndexNotFound => ExecutionError::IndexNotFound(detail),
        ErrorKind::VertexNotFound => ExecutionError::VertexNotFound(detail),
        ErrorKind::TypeMismatch => ExecutionError::TypeMismatch(detail),
        ErrorKind::ConstraintViolation => ExecutionError::ConstraintViolation(detail),
        ErrorKind::InvalidOperation => ExecutionError::InvalidOperation(detail),
        ErrorKind::ResourceExhausted => ExecutionError::ResourceExhausted(detail),
    }
}

} // verus!
