//! The passes run over textual LLVM IR.
use vstd::prelude::*;

use crate::optimization::config::{level_name, OptimizationLevel};
use crate::optimization::error::OptimizationError;
use crate::text::{
    contains_seq, join_strings, join_with, lines_of, push_str, split_lines, str_contains, to_owned_string,
};

verus! {

/// Runs the passes that a level asks for.
pub struct OptimizationPasses {
    level: OptimizationLevel,
}

/// `ir` without its lines that hold `marker`, the remaining lines joined by
/// line feeds (so no final line feed is kept).
pub open spec fn without_marked_lines(ir: Seq<char>, marker: Seq<char>) -> Seq<char> {
    join_with(lines_of(ir).filter(|line: Seq<char>| !contains_seq(line, marker)), "\n"@)
}

/// What the passes of `level` make of `ir`: a comment naming the level is
/// appended; from level 1 on the lines marked as dead code are dropped, and
/// at level 3 the lines marked unreachable too.
pub open spec fn optimized_ir(level: OptimizationLevel, ir: Seq<char>) -> Seq<char> {
    let marked = ir + "; Optimized at level "@ + level_name(level) + "\n"@;
    match level {
        OptimizationLevel::O0 => marked,
        OptimizationLevel::O1 => without_marked_lines(marked, "; dead code"@),
        OptimizationLevel::O2 => without_marked_lines(marked, "; dead code"@),
        OptimizationLevel::O3 => without_marked_lines(without_marked_lines(marked, "; dead code"@), "; unreachable"@),
    }
}

/// `ir` without the lines that hold `marker`.
fn drop_marked_lines(ir: &str, marker: &str) -> (result: String)
    ensures
        result@ == without_marked_lines(ir@, marker@),
{
    let lines = split_lines(ir);
    let ghost all = lines@.map_values(|l: String| l@);
    let ghost pred = |line: Seq<char>| !contains_seq(line, marker@);
    let mut kept: Vec<String> = Vec::new();
    let mut i: usize = 0;
    while i < lines.len()
        invariant
            i <= lines@.len(),
            all == lines@.map_values(|l: String| l@),
            all == lines_of(ir@),
            pred == (|line: Seq<char>| !contains_seq(line, marker@)),
            kept@.map_values(|l: String| l@) == all.subrange(0, i as int).filter(pred),
        decreases lines.len() - i,
    {
        proof {
            reveal(Seq::filter);
            assert(all.subrange(0, i + 1).drop_last() =~= all.subrange(0, i as int));
            assert(all.subrange(0, i + 1).last() == lines@[i as int]@);
        }
        if !str_contains(lines[i].as_str(), marker) {
            let line = to_owned_string(lines[i].as_str());
            let ghost before = kept@;
            kept.push(line);
            proof {
                assert(kept@.map_values(|l: String| l@) =~= before.map_values(|l: String| l@).push(line@));
            }
        }
        i = i + 1;
    }
    assert(all.subrange(0, all.len() as int) =~= all);
    join_strings(&kept, "\n")
}

impl OptimizationPasses {
    pub closed spec fn level(self) -> OptimizationLevel {
        self.level
    }

    pub fn new(level: OptimizationLevel) -> (result: Self)
        ensures
            result.level() == level,
    {
        OptimizationPasses { level }
    }

    /// Runs the passes of the level over `llvm_ir`; never fails.
    pub fn run(&self, llvm_ir: &str) -> (result: Result<String, OptimizationError>)
        ensures
            result matches Ok(ir) && ir@ == optimized_ir(self.level(), llvm_ir@),
    {
        let mut optimized_ir = to_owned_string(llvm_ir);
        push_str(&mut optimized_ir, "; Optimized at level ");
        push_str(&mut optimized_ir, self.level.as_str());
        push_str(&mut optimized_ir, "\n");
        match self.level {
            OptimizationLevel::O0 => {},
            OptimizationLevel::O1 => {
                optimized_ir = self.constant_folding(&optimized_ir)?;
                optimized_ir = self.dead_code_elimination(&optimized_ir)?;
            },
            OptimizationLevel::O2 => {
                optimized_ir = self.constant_folding(&optimized_ir)?;
                optimized_ir = self.constant_propagation(&optimized_ir)?;
                optimized_ir = self.dead_code_elimination(&optimized_ir)?;
                optimized_ir = self.instruction_simplification(&optimized_ir)?;
            },
            OptimizationLevel::O3 => {
                optimized_ir = self.constant_folding(&optimized_ir)?;
                optimized_ir = self.constant_propagation(&optimized_ir)?;
                optimized_ir = self.dead_code_elimination(&optimized_ir)?;
                optimized_ir = self.instruction_simplification(&optimized_ir)?;
                optimized_ir = self.control_flow_simplification(&optimized_ir)?;
            },
        }
        Ok(optimized_ir)
    }

    /// Folds constant arithmetic; the IR is kept as it is.
    fn constant_folding(&self, ir: &str) -> (result: Result<String, OptimizationError>)
        ensures
            result matches Ok(out) && out@ == ir@,
    {
        Ok(to_owned_string(ir))
    }

    /// Propagates constants to their uses; the IR is kept as it is.
    fn constant_propagation(&self, ir: &str) -> (result: Result<String, OptimizationError>)
        ensures
            result matches Ok(out) && out@ == ir@,
    {
        Ok(to_owned_string(ir))
    }

    /// Drops the lines marked as dead code.
    fn dead_code_elimination(&self, ir: &str) -> (result: Result<String, OptimizationError>)
        ensures
            result matches Ok(out) && out@ == without_marked_lines(ir@, "; dead code"@),
    {
        Ok(drop_marked_lines(ir, "; dead code"))
    }

    /// Simplifies instructions; the IR is kept as it is.
    fn instruction_simplification(&self, ir: &str) -> (result: Result<String, OptimizationError>)
        ensures
            result matches Ok(out) && out@ == ir@,
    {
        Ok(to_owned_string(ir))
    }

    /// Drops the lines marked unreachable.
    fn control_flow_simplification(&self, ir: &str) -> (result: Result<String, OptimizationError>)
        ensures
            result matches Ok(out) && out@ == without_marked_lines(ir@, "; unreachable"@),
    {
        Ok(drop_marked_lines(ir, "; unreachable"))
    }
}

} // verus!
