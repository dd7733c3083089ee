//! LLVM types and how MIR types map to them.
use vstd::prelude::*;

use crate::mir::types::MirType;
use crate::text::{decimal, push_decimal, push_str};

verus! {

#[derive(Debug, PartialEq, Eq)]
pub enum LlvmType {
    Void,
    Integer(u32),
    Float,
    Double,
    Boolean,
    Pointer(Box<LlvmType>),
    Function(Box<LlvmType>, Vec<LlvmType>),
    Unknown,
}

/// How LLVM writes a type.
pub open spec fn llvm_type_text(t: LlvmType) -> Seq<char>
    decreases t,
{
    match t {
        LlvmType::Void => "void"@,
        LlvmType::Integer(bits) => "i"@ + decimal(bits as nat),
        LlvmType::Float => "float"@,
        LlvmType::Double => "double"@,
        LlvmType::Boolean => "i1"@,
        LlvmType::Pointer(inner) => llvm_type_text(*inner) + "*"@,
        LlvmType::Function(ret, params) => llvm_type_text(*ret) + " ("@ + llvm_types_text(params@, params@.len() as int) + ")"@,
        LlvmType::Unknown => "i8*"@,
    }
}

/// The first `n` types of `ts`, separated by commas.
pub open spec fn llvm_types_text(ts: Seq<LlvmType>, n: int) -> Seq<char>
    decreases ts, n,
{
    if n <= 0 || n > ts.len() {
        seq![]
    } else if n == 1 {
        llvm_type_text(ts[0])
    } else {
        llvm_types_text(ts, n - 1) + ", "@ + llvm_type_text(ts[n - 1])
    }
}

impl LlvmType {
    /// Appends how LLVM writes the type.
    pub fn push_text(&self, out: &mut String)
        ensures
            final(out)@ == old(out)@ + llvm_type_text(*self),
        decreases self,
    {
        match self {
            LlvmType::Void => push_str(out, "void"),
            LlvmType::Integer(bits) => {
                push_str(out, "i");
                push_decimal(out, *bits as usize);
            },
            LlvmType::Float => push_str(out, "float"),
            LlvmType::Double => push_str(out, "double"),
            LlvmType::Boolean => push_str(out, "i1"),
            LlvmType::Pointer(inner) => {
                (**inner).push_text(out);
                push_str(out, "*");
            },
            LlvmType::Function(ret, params) => {
                (**ret).push_text(out);
                push_str(out, " (");
                let ghost base = out@;
                let mut k: usize = 0;
                while k < params.len()
                    invariant
                        *self == LlvmType::Function(*ret, *params),
                        k <= params@.len(),
                        out@ == base + llvm_types_text(params@, k as int),
                    decreases params.len() - k,
                {
                    if k > 0 {
                        push_str(out, ", ");
                    }
                    proof {
                        assert(params@[k as int] == params[k as int]);
                        assert(decreases_to!(*params => params[k as int]));
                        assert((*self)->1 == *params);
                        assert(decreases_to!(*self => (*self)->1));
                        assert(decreases_to!(*self => params[k as int]));
                    }
                    params[k].push_text(out);
                    k = k + 1;
                }
                push_str(out, ")");
            },
            LlvmType::Unknown => push_str(out, "i8*"),
        }
    }

    pub fn to_string(&self) -> (result: String)
        ensures
            result@ == llvm_type_text(*self),
    {
        let mut out = String::new();
        self.push_text(&mut out);
        assert(out@ =~= llvm_type_text(*self));
        out
    }
}

/// The LLVM type of each MIR type: integers are 64-bit, floats double,
/// booleans `i1`, strings, tables, functions and dynamic values byte
/// pointers.
pub open spec fn mir_llvm_type(t: MirType) -> LlvmType {
    match t {
        MirType::Void => LlvmType::Void,
        MirType::Integer => LlvmType::Integer(64),
        MirType::Float => LlvmType::Double,
        MirType::Boolean => LlvmType::Boolean,
        MirType::String => LlvmType::Pointer(Box::new(LlvmType::Integer(8))),
        MirType::Table => LlvmType::Pointer(Box::new(LlvmType::Integer(8))),
        MirType::Function => LlvmType::Pointer(Box::new(LlvmType::Integer(8))),
        MirType::Any => LlvmType::Pointer(Box::new(LlvmType::Integer(8))),
        MirType::Unknown => LlvmType::Unknown,
    }
}

pub fn map_mir_type(mir_type: &MirType) -> (result: LlvmType)
    ensures
        result == mir_llvm_type(*mir_type),
{
    match mir_type {
        MirType::Void => LlvmType::Void,
        MirType::Integer => LlvmType::Integer(64),
        MirType::Float => LlvmType::Double,
        MirType::Boolean => LlvmType::Boolean,
        MirType::String => LlvmType::Pointer(Box::new(LlvmType::Integer(8))),
        MirType::Table => LlvmType::Pointer(Box::new(LlvmType::Integer(8))),
        MirType::Function => LlvmType::Pointer(Box::new(LlvmType::Integer(8))),
        MirType::Any => LlvmType::Pointer(Box::new(LlvmType::Integer(8))),
        MirType::Unknown => LlvmType::Unknown,
    }
}

} // verus!
