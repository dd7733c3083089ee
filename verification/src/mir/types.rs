//! Identifiers and value types of the mid-level representation.
use vstd::prelude::*;

verus! {

/// Names one value (an SSA-like temporary, a local slot, a constant, ...).
#[derive(Debug, Clone, Copy, PartialEq, Eq, Hash, Structural)]
pub struct MirValueId(pub usize);

impl MirValueId {
    pub fn new(id: usize) -> (result: Self)
        ensures
            result.0 == id,
    {
        MirValueId(id)
    }
}

/// Names one basic block of a function.
#[derive(Debug, Clone, Copy, PartialEq, Eq, Hash, Structural)]
pub struct MirBlockId(pub usize);

impl MirBlockId {
    pub fn new(id: usize) -> (result: Self)
        ensures
            result.0 == id,
    {
        MirBlockId(id)
    }
}

/// Names one function of a module.
#[derive(Debug, Clone, Copy, PartialEq, Eq, Hash, Structural)]
pub struct MirFunctionId(pub usize);

impl MirFunctionId {
    pub fn new(id: usize) -> (result: Self)
        ensures
            result.0 == id,
    {
        MirFunctionId(id)
    }
}

/// The type of a value.
#[derive(Debug, Clone, Copy, PartialEq, Eq, Structural)]
pub enum MirType {
    Void,
    Integer,
    Float,
    Boolean,
    String,
    Table,
    Function,
    Any,
    Unknown,
}

/// How two values are compared by a `Compare` instruction.
#[derive(Debug, Clone, Copy, PartialEq, Eq, Structural)]
pub enum MirCompareOperator {
    Equal,
    NotEqual,
    LessThan,
    LessEqual,
    GreaterThan,
    GreaterEqual,
}

/// A constant value. A floating-point constant is held as the text of the
/// double, as Rust's `Display` for `f64` writes it (the shortest decimal
/// that reads back as the same double), so that the value itself never
/// passes through verified code.
#[derive(Debug, Clone, PartialEq, Eq)]
pub enum MirValue {
    Integer(i64),
    Float(String),
    Boolean(bool),
    String(String),
    Nil,
    Unit,
}

} // verus!
