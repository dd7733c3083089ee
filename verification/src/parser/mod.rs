pub mod ast_builder;
pub mod cursor;
pub mod grammar;
pub mod parser;
pub mod precedence;
pub mod precedence_laws;
pub mod recovery;
pub mod statement_grammar;

pub use parser::Parser;

use vstd::prelude::*;

verus! {

/// The parsing stage of the pipeline.
#[derive(Debug, Default)]
pub struct ParserStage;

} // verus!
