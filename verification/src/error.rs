//! What a platform engine can fail with.

use crate::text::owned;
use vstd::prelude::*;

verus! {

/// Why an engine's operation failed.
#[derive(Debug, PartialEq, Eq)]
pub enum EngineError {
    NotInitialized,
    PermissionDenied(String),
    Os(String),
    NotFound(String),
    Other(String),
}

/// An engine's result.
pub type EngineResult<T> = Result<T, EngineError>;

impl EngineError {
    /// The sentence that an error is reported with.
    pub open spec fn sentence(self) -> Seq<char> {
        match self {
            EngineError::NotInitialized => "engine not initialized"@,
            EngineError::PermissionDenied(m) => "permission denied: "@ + m@,
            EngineError::Os(m) => "os call failed: "@ + m@,
            EngineError::NotFound(m) => "resource not found: "@ + m@,
            EngineError::Other(m) => m@,
        }
    }

    /// The sentence that an error is reported with.
    pub fn message(&self) -> (s: String)
        ensures
            s@ == self.sentence(),
    {
        match self {
            EngineError::NotInitialized => owned("engine not initialized"),
            EngineError::PermissionDenied(m) => {
                let mut s = owned("permission denied: ");
                s.push_str(m.as_str());
                s
            },
            EngineError::Os(m) => {
                let mut s = owned("os call failed: ");
                s.push_str(m.as_str());
                s
            },
            EngineError::NotFound(m) => {
                let mut s = owned("resource not found: ");
                s.push_str(m.as_str());
                s
            },
            EngineError::Other(m) => m.clone(),
        }
    }
}

} // verus!
