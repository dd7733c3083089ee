//! An operand of an instruction: a value, a constant, or a named slot or
//! function.
use vstd::prelude::*;

use crate::mir::types::{MirValue, MirValueId};

verus! {

#[derive(Debug, Clone, PartialEq, Eq)]
pub enum MirOperand {
    Value(MirValueId),
    Constant(MirValue),
    Local(String),
    Global(String),
    Function(String),
}

} // verus!
