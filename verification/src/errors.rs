//! The coordinator's error taxonomy.  No failure is fatal to the process;
//! each is isolated to the connection whose event raised it.

use vstd::prelude::*;

verus! {

#[derive(Clone, Copy, Debug, PartialEq, Eq, Structural)]
pub enum MyError {
    /// An identity, message or collection was absent.
    NotFound,
    /// A durable-layer call failed.
    StoreUnavailable,
    /// A malformed inbound event was rejected before it reached the
    /// coordinator.
    ValidationFailure,
}

impl MyError {
    /// A short description of the error.
    pub fn describe(&self) -> (r: String)
        ensures
            r@ == match self {
                MyError::NotFound => "not found"@,
                MyError::StoreUnavailable => "store unavailable"@,
                MyError::ValidationFailure => "validation failure"@,
            },
    {
        match self {
            MyError::NotFound => "not found".to_string(),
            MyError::StoreUnavailable => "store unavailable".to_string(),
            MyError::ValidationFailure => "validation failure".to_string(),
        }
    }
}

} // verus!
