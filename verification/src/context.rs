//! The state shared by the stages of one compilation.
use vstd::prelude::*;

use crate::diagnostics::{DiagnosticBag, DiagnosticView};
use crate::source::{SourceFileView, SourceManager};
use crate::text::to_owned_string;

verus! {

/// The sources being compiled, what has been reported about them, and the
/// options of the compilation.
#[derive(Debug)]
pub struct CompilerContext {
    pub sources: SourceManager,
    pub diagnostics: DiagnosticBag,
    pub options: CompilerOptions,
}

impl CompilerContext {
    pub fn new(options: CompilerOptions) -> (result: Self)
        ensures
            result.sources@ == Seq::<SourceFileView>::empty(),
            result.diagnostics@ == Seq::<DiagnosticView>::empty(),
            result.options == options,
    {
        CompilerContext { sources: SourceManager::new(), diagnostics: DiagnosticBag::new(), options }
    }
}

#[derive(Debug, Clone, PartialEq, Eq)]
pub struct CompilerOptions {
    pub build_mode: BuildMode,
    pub target_triple: String,
    pub output_path: String,
    pub debug_symbols: bool,
    pub warnings: WarningMode,
    pub runtime_mode: RuntimeMode,
    pub emit: EmitOptions,
}

impl CompilerOptions {
    /// The default options for a host whose target triple is given: a debug
    /// build with debug symbols into `build`, default warnings, the native
    /// runtime, and nothing emitted.
    pub fn for_target(target_triple: String) -> (result: Self)
        ensures
            result.build_mode == BuildMode::Debug,
            result.target_triple == target_triple,
            result.output_path@ == "build"@,
            result.debug_symbols,
            result.warnings == WarningMode::Default,
            result.runtime_mode == RuntimeMode::Native,
            result.emit == EmitOptions::default_spec(),
    {
        CompilerOptions {
            build_mode: BuildMode::Debug,
            target_triple,
            output_path: to_owned_string("build"),
            debug_symbols: true,
            warnings: WarningMode::Default,
            runtime_mode: RuntimeMode::Native,
            emit: EmitOptions::default(),
        }
    }
}

#[derive(Debug, Clone, Copy, PartialEq, Eq, Structural)]
pub enum BuildMode {
    Debug,
    Release,
}

impl BuildMode {
    pub fn description(self) -> (result: &'static str)
        ensures
            result@ == (match self {
                BuildMode::Debug => "debug build"@,
                BuildMode::Release => "release build"@,
            }),
    {
        match self {
            BuildMode::Debug => "debug build",
            BuildMode::Release => "release build",
        }
    }
}

#[derive(Debug, Clone, Copy, PartialEq, Eq, Structural)]
pub enum WarningMode {
    Default,
    Deny,
    Allow,
}

#[derive(Debug, Clone, Copy, PartialEq, Eq, Structural)]
pub enum RuntimeMode {
    Native,
}

/// Which intermediate forms to write out.
#[derive(Debug, Clone, Copy, PartialEq, Eq, Structural)]
pub struct EmitOptions {
    pub llvm: bool,
    pub hir: bool,
    pub mir: bool,
    pub ast: bool,
    pub tokens: bool,
}

impl EmitOptions {
    /// Nothing emitted.
    pub open spec fn default_spec() -> Self {
        EmitOptions { llvm: false, hir: false, mir: false, ast: false, tokens: false }
    }

    pub fn any(self) -> (result: bool)
        ensures
            result == (self.llvm || self.hir || self.mir || self.ast || self.tokens),
    {
        self.llvm || self.hir || self.mir || self.ast || self.tokens
    }
}

impl Default for EmitOptions {
    fn default() -> (result: Self)
        ensures
            result == EmitOptions::default_spec(),
    {
        EmitOptions { llvm: false, hir: false, mir: false, ast: false, tokens: false }
    }
}

} // verus!
