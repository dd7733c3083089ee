//! Why lowering to the high-level representation failed.
use vstd::prelude::*;

use crate::text::{push_str, to_owned_string};

verus! {

#[derive(Debug, Clone, PartialEq, Eq)]
pub enum HirError {
    InvalidInput(String),
    LoweringError(String),
}

/// How an error reads.
pub open spec fn hir_error_text(e: HirError) -> Seq<char> {
    match e {
        HirError::InvalidInput(message) => "Invalid input: "@ + message@,
        HirError::LoweringError(message) => "Lowering error: "@ + message@,
    }
}

impl HirError {
    /// How the error reads.
    pub fn to_string(&self) -> (result: String)
        ensures
            result@ == hir_error_text(*self),
    {
        let (head, message) = match self {
            HirError::InvalidInput(message) => ("Invalid input: ", message),
            HirError::LoweringError(message) => ("Lowering error: ", message),
        };
        let mut out = to_owned_string(head);
        push_str(&mut out, message.as_str());
        out
    }
}

} // verus!
