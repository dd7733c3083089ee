//! The optimizer: passes run over the textual LLVM IR of a module.
pub mod config;
pub mod error;
pub mod passes;

use vstd::prelude::*;

use crate::llvm::LlvmModule;
use crate::optimization::config::OptimizationLevel;
use crate::optimization::error::OptimizationError;
use crate::optimization::passes::{optimized_ir, OptimizationPasses};

verus! {

/// Optimizes a module's IR at one level.
#[derive(Debug)]
pub struct OptimizationStage {
    level: OptimizationLevel,
}

impl OptimizationStage {
    pub closed spec fn level(self) -> OptimizationLevel {
        self.level
    }

    pub fn new(level: OptimizationLevel) -> (result: Self)
        ensures
            result.level() == level,
    {
        OptimizationStage { level }
    }

    /// The module with its IR run through the passes of the stage's level;
    /// never fails.
    pub fn optimize(&self, llvm_module: &LlvmModule) -> (result: Result<LlvmModule, OptimizationError>)
        ensures
            result matches Ok(m) && m.ir@ == optimized_ir(self.level(), llvm_module.ir@),
    {
        let passes = OptimizationPasses::new(self.level);
        let optimized = passes.run(llvm_module.ir.as_str())?;
        Ok(LlvmModule { ir: optimized })
    }
}

impl Default for OptimizationStage {
    fn default() -> (result: Self)
        ensures
            result.level() == OptimizationLevel::O2,
    {
        OptimizationStage::new(OptimizationLevel::O2)
    }
}

} // verus!
