//! Errors of the optimizer.
use vstd::prelude::*;

use crate::text::{push_str, to_owned_string};

verus! {

#[derive(Debug, Clone, PartialEq, Eq)]
pub enum OptimizationError {
    OptimizationFailed(String),
    VerificationError(String),
    InvalidOptimizationLevel(String),
}

pub open spec fn optimization_error_text(e: OptimizationError) -> Seq<char> {
    match e {
        OptimizationError::OptimizationFailed(msg) => "Optimization failed: "@ + msg@,
        OptimizationError::VerificationError(msg) => "Verification error: "@ + msg@,
        OptimizationError::InvalidOptimizationLevel(msg) => "Invalid optimization level: "@ + msg@,
    }
}

impl OptimizationError {
    pub fn to_string(&self) -> (result: String)
        ensures
            result@ == optimization_error_text(*self),
    {
        let (prefix, msg) = match self {
            OptimizationError::OptimizationFailed(msg) => ("Optimization failed: ", msg),
            OptimizationError::VerificationError(msg) => ("Verification error: ", msg),
            OptimizationError::InvalidOptimizationLevel(msg) => ("Invalid optimization level: ", msg),
        };
        let mut out = to_owned_string(prefix);
        push_str(&mut out, msg.as_str());
        out
    }
}

} // verus!
