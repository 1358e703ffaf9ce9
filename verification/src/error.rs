//! The ways in which building or lowering a graph can fail.

use vstd::prelude::*;

verus! {

/// Why a graph was refused, or why no plan came out of it.
#[derive(Debug, Clone, Copy, PartialEq, Eq, Hash, Structural)]
pub enum ErrorKind {
    /// An operation names an operand that does not exist, has the wrong number
    /// of operands, cannot be applied to an operand of that rank, or would
    /// give a result too large to hold.
    MalformedGraph,
    /// A reshape whose target holds another number of elements than its
    /// source.
    IncompatibleReshape,
    /// An operation for which no kernel can be generated or dispatched.
    UnsupportedOperation,
    /// The backend failed; nothing more is known about the cause.
    BackendFailure,
}

impl ErrorKind {
    /// A short description, for messages.
    pub fn description(&self) -> (text: &'static str)
        ensures
            text@ == match *self {
                ErrorKind::MalformedGraph => "malformed graph"@,
                ErrorKind::IncompatibleReshape => "incompatible reshape"@,
                ErrorKind::UnsupportedOperation => "unsupported operation"@,
                ErrorKind::BackendFailure => "backend failure"@,
            },
    {
        match self {
            ErrorKind::MalformedGraph => "malformed graph",
            ErrorKind::IncompatibleReshape => "incompatible reshape",
            ErrorKind::UnsupportedOperation => "unsupported operation",
            ErrorKind::BackendFailure => "backend failure",
        }
    }
}

} // verus!
