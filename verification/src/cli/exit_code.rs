//! Process exit codes of the command-line driver.
use vstd::prelude::*;

verus! {

#[derive(Debug, Clone, Copy, PartialEq, Eq, Structural)]
pub enum CliExitCode {
    Success,
    CompilationError,
    InvalidUsage,
    InternalCompilerError,
}

impl CliExitCode {
    /// The status the process exits with: 0 on success, 1 for a compilation
    /// error, 2 for invalid usage, 3 for an internal compiler error.
    pub fn code(self) -> (result: u8)
        ensures
            result == match self {
                CliExitCode::Success => 0u8,
                CliExitCode::CompilationError => 1u8,
                CliExitCode::InvalidUsage => 2u8,
                CliExitCode::InternalCompilerError => 3u8,
            },
    {
        match self {
            CliExitCode::Success => 0,
            CliExitCode::CompilationError => 1,
            CliExitCode::InvalidUsage => 2,
            CliExitCode::InternalCompilerError => 3,
        }
    }
}

} // verus!
