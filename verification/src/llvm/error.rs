//! Errors of LLVM IR generation.
use vstd::prelude::*;

use crate::text::{push_str, to_owned_string};

verus! {

#[derive(Debug, Clone, PartialEq, Eq)]
pub enum LlvmError {
    GenerationError(String),
    VerificationError(String),
    TypeError(String),
}

pub open spec fn llvm_error_text(e: LlvmError) -> Seq<char> {
    match e {
        LlvmError::GenerationError(msg) => "LLVM generation error: "@ + msg@,
        LlvmError::VerificationError(msg) => "LLVM verification error: "@ + msg@,
        LlvmError::TypeError(msg) => "LLVM type error: "@ + msg@,
    }
}

impl LlvmError {
    pub fn to_string(&self) -> (result: String)
        ensures
            result@ == llvm_error_text(*self),
    {
        let (prefix, msg) = match self {
            LlvmError::GenerationError(msg) => ("LLVM generation error: ", msg),
            LlvmError::VerificationError(msg) => ("LLVM verification error: ", msg),
            LlvmError::TypeError(msg) => ("LLVM type error: ", msg),
        };
        let mut out = to_owned_string(prefix);
        push_str(&mut out, msg.as_str());
        out
    }
}

} // verus!
