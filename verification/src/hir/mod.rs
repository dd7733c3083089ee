//! The high-level representation: the program after names are resolved,
//! with typed expressions, functions, scopes and symbols.
pub mod builder;
pub mod error;
pub mod expression;
pub mod function;
pub mod ids;
pub mod module;
pub mod statement;
pub mod symbol;
pub mod types;
pub mod printer;
pub mod validator;
pub mod optimizer;
pub mod fold_laws;

use vstd::prelude::*;

use crate::hir::builder::{program_lowered, HirBuilder};
use crate::hir::error::HirError;
use crate::hir::ids::HirScopeId;
use crate::hir::module::HirModule;
use crate::hir::validator::{module_issues, HirValidator};
use crate::parser::ast_builder::AstNode;
use crate::text::{decimal, push_decimal, push_str, to_owned_string};

verus! {

/// Lowering of a syntax tree into a checked high-level module.
#[derive(Debug, Default)]
pub struct HirStage;

/// A builder as `HirBuilder::new` makes it: one open root scope, no symbols,
/// all counters at their start.
pub open spec fn fresh_builder(b: HirBuilder) -> bool {
    &&& b.wf()
    &&& b.open_scopes() == seq![HirScopeId(0)]
    &&& b.counters() == (0usize, 0usize, 0usize, 1usize)
    &&& b.tables() == seq![Seq::<(Seq<char>, crate::hir::builder::HirBinding)>::empty()]
    &&& b.scope_list().len() == 1
    &&& b.scope_list()[0].id == HirScopeId(0)
    &&& b.scope_list()[0].parent.is_none()
    &&& b.scope_list()[0].symbols@.len() == 0
    &&& b.symbol_list().len() == 0
}

/// What lowering `ast` with a fresh builder and checking the module gives:
/// the module when it has no problems, else an error with their number; a
/// node other than a program is refused.
pub open spec fn hir_lowering(ast: AstNode, r: Result<HirModule, HirError>) -> bool {
    match ast {
        AstNode::Program(program) => exists|b0: HirBuilder, b1: HirBuilder, m: HirModule|
            fresh_builder(b0) && #[trigger] program_lowered(program, m, b0, b1) && match r {
                Ok(x) => x == m && module_issues(m).len() == 0,
                Err(e) => module_issues(m).len() > 0 && (e matches HirError::LoweringError(msg) && msg@ == "HIR validation failed with "@
                    + decimal(module_issues(m).len()) + " errors"@),
            },
        _ => r matches Err(HirError::InvalidInput(msg)) && msg@ == "Expected program node"@,
    }
}

impl HirStage {
    /// Lowers a program with a fresh builder, then checks the module; a
    /// module with problems is refused with their number.
    pub fn lower(ast: &AstNode) -> (r: Result<HirModule, HirError>)
        ensures
            hir_lowering(*ast, r),
    {
        let mut builder = HirBuilder::new();
        let ghost b0 = builder;
        let module = match builder.build(ast) {
            Ok(m) => m,
            Err(e) => return Err(e),
        };
        let ghost b1 = builder;
        let mut validator = HirValidator::new();
        let checked = validator.validate(&module);
        proof {
            if ast is Program {
                assert(program_lowered(ast->Program_0, module, b0, b1));
            }
        }
        match checked {
            Ok(()) => Ok(module),
            Err(errors) => {
                let mut message = to_owned_string("HIR validation failed with ");
                push_decimal(&mut message, errors.len());
                push_str(&mut message, " errors");
                Err(HirError::LoweringError(message))
            },
        }
    }
}

} // verus!
