//! Sanity checks on generated IR.
use vstd::prelude::*;

use crate::llvm::error::LlvmError;
use crate::text::{chars_of, contains_seq, count_char, count_chars, decimal, push_decimal, push_str, str_contains, to_owned_string};

verus! {

pub struct LlvmVerifier;

/// What `LlvmVerifier::verify` reports on `ir`: nothing when it declares or
/// defines a function, names a target triple and balances its braces;
/// otherwise the first of these that fails.
pub open spec fn ir_problem(ir: Seq<char>) -> Option<Seq<char>> {
    if !contains_seq(ir, "define"@) && !contains_seq(ir, "declare"@) {
        Some("No functions found in LLVM IR"@)
    } else if !contains_seq(ir, "target triple"@) {
        Some("Missing target triple"@)
    } else if count_char(ir, '{') != count_char(ir, '}') {
        Some("Unbalanced braces: "@ + decimal(count_char(ir, '{')) + " open, "@ + decimal(count_char(ir, '}')) + " close"@)
    } else {
        None
    }
}

impl LlvmVerifier {
    pub fn verify(ir: &str) -> (result: Result<(), LlvmError>)
        ensures
            match result {
                Ok(()) => ir_problem(ir@).is_none(),
                Err(LlvmError::VerificationError(msg)) => ir_problem(ir@) == Some(msg@),
                Err(_) => false,
            },
    {
        if !str_contains(ir, "define") && !str_contains(ir, "declare") {
            return Err(LlvmError::VerificationError(to_owned_string("No functions found in LLVM IR")));
        }
        if !str_contains(ir, "target triple") {
            return Err(LlvmError::VerificationError(to_owned_string("Missing target triple")));
        }
        let cs = chars_of(ir);
        let open_braces = count_chars(&cs, '{');
        let close_braces = count_chars(&cs, '}');
        if open_braces != close_braces {
            let mut msg = to_owned_string("Unbalanced braces: ");
            push_decimal(&mut msg, open_braces);
            push_str(&mut msg, " open, ");
            push_decimal(&mut msg, close_braces);
            push_str(&mut msg, " close");
            return Err(LlvmError::VerificationError(msg));
        }
        Ok(())
    }
}

} // verus!
