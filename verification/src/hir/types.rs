//! Types and operators of the high-level representation.
use vstd::prelude::*;

verus! {

/// The type of a value, as far as it is known.
#[derive(Debug, Clone, Copy, PartialEq, Eq, Structural)]
pub enum HirType {
    Nil,
    Boolean,
    Integer,
    Number,
    String,
    Table,
    Function,
    Thread,
    Userdata,
    Any,
    Unknown,
}

/// The name of a type as it is written.
pub open spec fn hir_type_name(t: HirType) -> Seq<char> {
    match t {
        HirType::Nil => "nil"@,
        HirType::Boolean => "boolean"@,
        HirType::Integer => "integer"@,
        HirType::Number => "number"@,
        HirType::String => "string"@,
        HirType::Table => "table"@,
        HirType::Function => "function"@,
        HirType::Thread => "thread"@,
        HirType::Userdata => "userdata"@,
        HirType::Any => "any"@,
        HirType::Unknown => "unknown"@,
    }
}

impl HirType {
    /// The name of the type as it is written.
    pub fn name(&self) -> (result: &'static str)
        ensures
            result@ == hir_type_name(*self),
    {
        match self {
            HirType::Nil => "nil",
            HirType::Boolean => "boolean",
            HirType::Integer => "integer",
            HirType::Number => "number",
            HirType::String => "string",
            HirType::Table => "table",
            HirType::Function => "function",
            HirType::Thread => "thread",
            HirType::Userdata => "userdata",
            HirType::Any => "any",
            HirType::Unknown => "unknown",
        }
    }

    /// The name of the type as an owned string.
    pub fn to_string(&self) -> (result: String)
        ensures
            result@ == hir_type_name(*self),
    {
        crate::text::to_owned_string(self.name())
    }
}

/// How a function is called.
#[derive(Debug, Clone, Copy, PartialEq, Eq, Structural)]
pub enum HirCallingConvention {
    GraduaLuau,
    Builtin,
    Native,
}

/// The parameter and result types of a function.
#[derive(Debug, Clone, PartialEq, Eq)]
pub struct HirFunctionSignature {
    pub parameter_types: Vec<HirType>,
    pub return_type: HirType,
    pub calling_convention: HirCallingConvention,
    pub is_variadic: bool,
}

/// A prefix operator: `-`, `not`, `#`, `~`.
#[derive(Debug, Clone, Copy, PartialEq, Eq, Structural)]
pub enum HirUnaryOperator {
    Negate,
    Not,
    Length,
    BitwiseNot,
}

/// An infix operator.
#[derive(Debug, Clone, Copy, PartialEq, Eq, Structural)]
pub enum HirBinaryOperator {
    Add,
    Subtract,
    Multiply,
    Divide,
    FloorDivide,
    Modulo,
    Exponent,
    Equal,
    NotEqual,
    LessThan,
    LessEqual,
    GreaterThan,
    GreaterEqual,
    And,
    Or,
    Concatenate,
    BitwiseAnd,
    BitwiseOr,
    BitwiseXor,
    BitwiseShiftLeft,
    BitwiseShiftRight,
}

/// A function the runtime provides.
#[derive(Debug, Clone, Copy, PartialEq, Eq, Structural)]
pub enum HirBuiltinFunction {
    Print,
    Type,
    ToNumber,
    ToString,
    Error,
    Pairs,
    Ipairs,
    Require,
}

} // verus!
