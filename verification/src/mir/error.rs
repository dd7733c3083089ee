//! Errors of the mid-level representation.
use vstd::prelude::*;

use crate::text::{push_str, to_owned_string};

verus! {

#[derive(Debug, Clone, PartialEq, Eq)]
pub enum MirError {
    InvalidInput(String),
    LoweringError(String),
    ValidationError(String),
}

/// The message of an error: its kind, a colon, then its detail.
pub open spec fn mir_error_text(e: MirError) -> Seq<char> {
    match e {
        MirError::InvalidInput(msg) => "Invalid input: "@ + msg@,
        MirError::LoweringError(msg) => "Lowering error: "@ + msg@,
        MirError::ValidationError(msg) => "Validation error: "@ + msg@,
    }
}

impl MirError {
    pub fn to_string(&self) -> (result: String)
        ensures
            result@ == mir_error_text(*self),
    {
        let (prefix, msg) = match self {
            MirError::InvalidInput(msg) => ("Invalid input: ", msg),
            MirError::LoweringError(msg) => ("Lowering error: ", msg),
            MirError::ValidationError(msg) => ("Validation error: ", msg),
        };
        let mut out = to_owned_string(prefix);
        push_str(&mut out, msg.as_str());
        out
    }
}

} // verus!
