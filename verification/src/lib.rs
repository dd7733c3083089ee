pub mod ast;
pub mod cli;
pub mod context;
pub mod diagnostics;
pub mod hir;
pub mod lexer;
pub mod llvm;
pub mod mir;
pub mod optimization;
pub mod parser;
pub mod pipeline;
pub mod runtime;
pub mod source;
pub mod text;
