//! Shutting a warm pool down.
use vstd::prelude::*;

verus! {

/// Why a shutdown could not be confirmed.
#[derive(Debug, Clone, Copy, PartialEq, Eq, Structural)]
pub enum WarmShutdownError {
    /// The state of the pool was left behind by a panic.
    StatePoisoned,
}

impl WarmShutdownError {
    /// The text of the error.
    pub fn message(&self) -> (message: &'static str)
        ensures
            message@ == "cannot confirm warm pool shutdown: state lock poisoned"@,
    {
        "cannot confirm warm pool shutdown: state lock poisoned"
    }
}

} // verus!
