//! LLVM IR: the text form of a compiled module and its generation.
pub mod error;
pub mod generator;
pub mod types;
pub mod ir_check;
pub mod laws;

use vstd::prelude::*;

use crate::mir::function::MirFunction;
use crate::mir::module::MirModule;
use crate::text::{decimal, push_decimal, push_str};

verus! {

/// A module as LLVM IR text.
#[derive(Debug, Clone)]
pub struct LlvmModule {
    pub ir: String,
}

/// Emits a summary of a MIR module as IR comments.
#[derive(Debug)]
pub struct LlvmStage;

/// One comment line per function, in order.
pub open spec fn function_summaries(functions: Seq<MirFunction>) -> Seq<char>
    decreases functions.len(),
{
    if functions.len() == 0 {
        seq![]
    } else {
        function_summaries(functions.drop_last()) + "; Function: "@ + functions.last().name@ + " with "@
            + decimal(functions.last().blocks@.len()) + " blocks\n"@
    }
}

/// The summary `LlvmStage::generate` writes for a module.
pub open spec fn module_summary(mir: MirModule) -> Seq<char> {
    "; LLVM IR generated from MIR\n"@ + "; Module: "@ + mir.name@ + "\n"@ + "; Functions: "@
        + decimal(mir.functions@.len()) + "\n"@ + function_summaries(mir.functions@)
}

impl LlvmStage {
    pub fn generate(mir: &MirModule) -> (result: LlvmModule)
        ensures
            result.ir@ == module_summary(*mir),
    {
        let mut ir = String::new();
        push_str(&mut ir, "; LLVM IR generated from MIR\n");
        push_str(&mut ir, "; Module: ");
        push_str(&mut ir, mir.name.as_str());
        push_str(&mut ir, "\n");
        push_str(&mut ir, "; Functions: ");
        push_decimal(&mut ir, mir.functions.len());
        push_str(&mut ir, "\n");
        let ghost head = ir@;
        let mut k: usize = 0;
        while k < mir.functions.len()
            invariant
                k <= mir.functions@.len(),
                ir@ == head + function_summaries(mir.functions@.subrange(0, k as int)),
            decreases mir.functions.len() - k,
        {
            let function = &mir.functions[k];
            push_str(&mut ir, "; Function: ");
            push_str(&mut ir, function.name.as_str());
            push_str(&mut ir, " with ");
            push_decimal(&mut ir, function.blocks.len());
            push_str(&mut ir, " blocks\n");
            proof {
                assert(mir.functions@.subrange(0, k + 1).drop_last() =~= mir.functions@.subrange(0, k as int));
                assert(ir@ =~= head + function_summaries(mir.functions@.subrange(0, k + 1)));
            }
            k = k + 1;
        }
        assert(mir.functions@.subrange(0, mir.functions@.len() as int) =~= mir.functions@);
        assert(ir@ =~= module_summary(*mir));
        LlvmModule { ir }
    }
}

} // verus!
