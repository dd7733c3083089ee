//! What a run of the compiler driver produces, and the stages it chains:
//! reading a source file into a checked syntax tree, and lowering a tree to
//! LLVM IR.
use vstd::prelude::*;

use crate::diagnostics::{plain_diagnostic, Diagnostic, DiagnosticView, NoteView, Severity};
use crate::hir::error::hir_error_text;
use crate::hir::module::HirModule;
use crate::hir::{hir_lowering, HirStage};
use crate::llvm::{module_summary, LlvmModule, LlvmStage};
use crate::mir::error::mir_error_text;
use crate::mir::module::MirModule;
use crate::mir::{mir_lowering, MirStage};
use crate::diagnostics::severity_is_error;
use crate::lexer::{lex_step, Lexer, LexerMode, Token, TokenKind, TokenView};
use crate::parser::ast_builder::AstNode;
use crate::parser::statement_grammar::{program_spec, program_view};
use crate::parser::Parser;
use crate::source::{FileId, SourceFile, SourceSpan};

verus! {

/// Which command the driver ran.
#[derive(Debug, Clone, Copy, PartialEq, Eq, Structural)]
pub enum PipelineKind {
    Build,
    Run,
    Check,
}

/// The outcome of a successful run.
#[derive(Debug, Clone, Copy, PartialEq, Eq, Structural)]
pub struct PipelineOutput {
    pub kind: PipelineKind,
}

/// A run either succeeds or stops at the first error it reports.
pub type PipelineResult = Result<PipelineOutput, Diagnostic>;

/// The error reported when the stage named `stage` fails: a plain error with
/// the stage's own error text as its one note.
pub open spec fn stage_failure(stage: Seq<char>, detail: Seq<char>) -> DiagnosticView {
    DiagnosticView { notes: seq![NoteView { span: None, message: detail }], ..plain_diagnostic(Severity::Error, stage) }
}

/// Lowers a syntax tree to HIR, then to MIR, then to LLVM IR. A failed
/// lowering is reported as "HIR lowering failed" or "MIR lowering failed",
/// with the lowering's error as a note.
pub fn generate_module(ast: &AstNode) -> (r: Result<LlvmModule, Diagnostic>)
    ensures
        exists|h: Result<HirModule, crate::hir::error::HirError>| #[trigger] hir_lowering(*ast, h) && match h {
            Err(e) => r matches Err(d) && d@ == stage_failure("HIR lowering failed"@, hir_error_text(e)),
            Ok(hm) => exists|mm: Result<MirModule, crate::mir::error::MirError>| #[trigger] mir_lowering(hm, mm) && match mm {
                Err(e) => r matches Err(d) && d@ == stage_failure("MIR lowering failed"@, mir_error_text(e)),
                Ok(m) => r matches Ok(l) && l.ir@ == module_summary(m),
            },
        },
{
    let hir = match HirStage::lower(ast) {
        Ok(hir) => hir,
        Err(error) => {
            let note = error.to_string();
            let d = Diagnostic::error("HIR lowering failed").with_note(note.as_str());
            assert(d@ =~= stage_failure("HIR lowering failed"@, hir_error_text(error)));
            return Err(d);
        },
    };
    let ghost hr: Result<HirModule, crate::hir::error::HirError> = Ok(hir);
    assert(hir_lowering(*ast, hr));
    let mir = match MirStage::lower(&hir) {
        Ok(mir) => mir,
        Err(error) => {
            let note = error.to_string();
            let d = Diagnostic::error("MIR lowering failed").with_note(note.as_str());
            assert(d@ =~= stage_failure("MIR lowering failed"@, mir_error_text(error)));
            return Err(d);
        },
    };
    let ghost mr: Result<MirModule, crate::mir::error::MirError> = Ok(mir);
    assert(mir_lowering(hir, mr));
    Ok(LlvmStage::generate(&mir))
}


/// A token as its kind's view and its span.
pub open spec fn token_summary(t: Token) -> (TokenView, SourceSpan) {
    (t.kind@, t.span)
}

/// The tokens a lexer of the file `file` with the bytes `s` reads from
/// position `pos` in mode `mode` with the diagnostics `d`, up to and
/// including the first `EOF` token.
pub open spec fn lexed(file: FileId, s: Seq<u8>, pos: int, mode: LexerMode, d: Seq<DiagnosticView>) -> Seq<(TokenView, SourceSpan)>
    decreases s.len() - pos,
{
    let st = lex_step(file, s, pos, mode, d);
    let t = (st.kind, SourceSpan { file_id: file, start: st.start as usize, end: st.end as usize });
    if st.kind == TokenView::EOF || !(pos < st.pos <= s.len()) {
        seq![t]
    } else {
        seq![t] + lexed(file, s, st.pos, st.mode, st.diagnostics)
    }
}

/// `ds[i]` is the first error among the diagnostics `ds`.
pub open spec fn first_error_at(ds: Seq<DiagnosticView>, i: int) -> bool {
    &&& 0 <= i < ds.len()
    &&& severity_is_error(ds[i].severity)
    &&& forall|k: int| 0 <= k < i ==> !severity_is_error(#[trigger] ds[k].severity)
}

/// The first error among the diagnostics `ds`, if there is one.
pub open spec fn first_error(ds: Seq<DiagnosticView>) -> Option<DiagnosticView> {
    if exists|i: int| first_error_at(ds, i) {
        Some(ds[choose|i: int| first_error_at(ds, i)])
    } else {
        None
    }
}

/// Reads a source file into a syntax tree: lexes it up to `EOF`, parses the
/// tokens as a program, and refuses it with the first error the parser
/// reported, if there is one.
pub fn check_source(file: &SourceFile) -> (r: Result<AstNode, Diagnostic>)
    ensures
        exists|ts: Seq<Token>|
            #![trigger program_spec(ts, 0, Seq::<DiagnosticView>::empty())]
            ts.map_values(|t: Token| token_summary(t)) == lexed(file@.id, file@.bytes, 0, LexerMode::Normal, Seq::empty())
                && match first_error(program_spec(ts, 0, Seq::<DiagnosticView>::empty()).2) {
                None => r matches Ok(AstNode::Program(p)) && program_view(p) == program_spec(
                    ts,
                    0,
                    Seq::<DiagnosticView>::empty(),
                ).0,
                Some(d) => r matches Err(e) && e@ == d,
            },
{
    let mut lexer = Lexer::new(file);
    let ghost whole = lexed(file@.id, file@.bytes, 0, LexerMode::Normal, Seq::empty());
    let mut tokens: Vec<Token> = Vec::new();
    let mut done = false;
    proof {
        lexer.lemma_next_step_span();
        assert(tokens@.map_values(|t: Token| token_summary(t)) =~= Seq::<(TokenView, SourceSpan)>::empty());
    }
    while !done
        invariant
            lexer.wf(),
            lexer@.file_id == file@.id,
            lexer@.bytes == file@.bytes,
            0 <= lexer@.pos <= lexer@.bytes.len(),
            whole == lexed(file@.id, file@.bytes, 0, LexerMode::Normal, Seq::empty()),
            !done ==> tokens@.map_values(|t: Token| token_summary(t)) + lexed(
                lexer@.file_id,
                lexer@.bytes,
                lexer@.pos,
                lexer@.mode,
                lexer@.diagnostics,
            ) == whole,
            done ==> tokens@.map_values(|t: Token| token_summary(t)) == whole,
        decreases lexer@.bytes.len() - lexer@.pos + if done { 0int } else { 1int },
    {
        let ghost before = tokens@;
        let ghost st = lex_step(lexer@.file_id, lexer@.bytes, lexer@.pos, lexer@.mode, lexer@.diagnostics);
        let ghost rest = lexed(lexer@.file_id, lexer@.bytes, lexer@.pos, lexer@.mode, lexer@.diagnostics);
        proof {
            lexer.lemma_next_step_span();
        }
        let token = lexer.next_token();
        let is_eof = matches!(token.kind, TokenKind::EOF);
        tokens.push(token);
        proof {
            lexer.lemma_next_step_span();
            assert(tokens@.map_values(|t: Token| token_summary(t)) =~= before.map_values(|t: Token| token_summary(t)).push(
                token_summary(token),
            ));
            assert(token_summary(token) == rest[0]);
            if is_eof {
                assert(st.kind == TokenView::EOF);
                assert(rest =~= seq![rest[0]]);
            } else {
                assert(st.kind != TokenView::EOF);
                assert(rest =~= seq![rest[0]] + lexed(lexer@.file_id, lexer@.bytes, lexer@.pos, lexer@.mode, lexer@.diagnostics));
            }
        }
        if is_eof {
            done = true;
        }
    }
    let ghost ts = tokens@;
    let mut parser = Parser::new(&tokens);
    let ast = parser.parse_program();
    let diagnostics = parser.diagnostics();
    let ghost ds = program_spec(ts, 0, Seq::<DiagnosticView>::empty()).2;
    let mut i: usize = 0;
    while i < diagnostics.len()
        invariant
            diagnostics@.map_values(|d: Diagnostic| d@) == ds,
            ds == program_spec(ts, 0, Seq::<DiagnosticView>::empty()).2,
            ts.map_values(|t: Token| token_summary(t)) == lexed(file@.id, file@.bytes, 0, LexerMode::Normal, Seq::empty()),
            i <= diagnostics@.len(),
            forall|k: int| 0 <= k < i ==> !severity_is_error(#[trigger] ds[k].severity),
        decreases diagnostics.len() - i,
    {
        let d = &diagnostics[i];
        assert(ds[i as int] == d@);
        if d.severity().is_error() {
            proof {
                assert(first_error_at(ds, i as int));
                let j = choose|j: int| first_error_at(ds, j);
                if j < i {
                    assert(!severity_is_error(ds[j].severity));
                }
                if j > i {
                    assert(!severity_is_error(ds[i as int].severity));
                }
                assert(j == i);
                assert(first_error(ds) == Some(ds[i as int]));
            }
            return Err(d.duplicate());
        }
        i = i + 1;
    }
    proof {
        assert forall|j: int| !first_error_at(ds, j) by {
            if 0 <= j < ds.len() {
                assert(!severity_is_error(ds[j].severity));
            }
        }
    }
    Ok(ast)
}

} // verus!
