//! The engine's error taxonomy: what is fatal to an operation, what is
//! recorded per item, and what merely marks work already done.

use vstd::prelude::*;
use vstd::string::*;

verus! {

/// One error kind per policy in the design: `NotFound` is operation-fatal,
/// `IntegrityMismatch` is per-item, `ExternalTool` is tolerated by
/// caller-specific rules, `Cancelled` supersedes other outcomes, and
/// `AlreadyExists` is reported as skipped work, not as a failure.
#[derive(Clone, Copy, Debug, PartialEq, Eq, Structural)]
pub enum EngineError {
    NotFound,
    IntegrityMismatch,
    ExternalTool,
    Cancelled,
    AlreadyExists,
}

impl EngineError {
    /// A short description, for callers that render errors as text.
    pub fn describe(&self) -> (r: String)
        ensures
            *self is NotFound ==> r@ == "not found"@,
            *self is IntegrityMismatch ==> r@ == "integrity mismatch"@,
            *self is ExternalTool ==> r@ == "external tool failed"@,
            *self is Cancelled ==> r@ == "cancelled"@,
            *self is AlreadyExists ==> r@ == "already exists"@,
    {
        match self {
            EngineError::NotFound => String::from_str("not found"),
            EngineError::IntegrityMismatch => String::from_str("integrity mismatch"),
            EngineError::ExternalTool => String::from_str("external tool failed"),
            EngineError::Cancelled => String::from_str("cancelled"),
            EngineError::AlreadyExists => String::from_str("already exists"),
        }
    }
}

} // verus!
