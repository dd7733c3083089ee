use lib::parser::ast_builder::{AstNode, StatementKind};
use lib::pipeline::{check_source, generate_module};
use lib::runtime::diagnostics::BuildStatus;
use lib::runtime::link::{link_step, LinkAction, LinkPhase, LinkState, StepOutcome};
use lib::source::SourceManager;

fn checked(src: &str) -> Result<AstNode, lib::diagnostics::Diagnostic> {
    let mut sources = SourceManager::new();
    let id = sources.add_file("main.glu", String::from(src));
    check_source(sources.get(id).unwrap())
}

#[test]
fn check_source_parses_a_clean_program() {
    match checked("local x = 5\nprint(x)") {
        Ok(AstNode::Program(program)) => {
            assert_eq!(program.statements.len(), 2);
            assert!(matches!(program.statements[0].kind, StatementKind::Local { .. }));
        }
        _ => panic!("expected a program"),
    }
}

#[test]
fn check_source_reports_the_first_parse_error() {
    match checked("local x = (1 + 2\nlocal y = (3") {
        Err(diagnostic) => assert_eq!(diagnostic.message(), "Expected ')' after expression"),
        Ok(_) => panic!("expected an error"),
    }
}

#[test]
fn generate_module_lowers_a_program_to_ir() {
    let ast = checked("local x = 1").ok().unwrap();
    let module = generate_module(&ast).ok().unwrap();
    assert!(module.ir.starts_with("; LLVM IR generated from MIR\n"));
}

#[test]
fn generate_module_reports_a_failed_hir_lowering() {
    match generate_module(&AstNode::Error) {
        Err(diagnostic) => assert_eq!(diagnostic.message(), "HIR lowering failed"),
        Ok(_) => panic!("expected an error"),
    }
}

fn command(success: bool, stderr: &str, artifact: &str) -> StepOutcome {
    StepOutcome::Command {
        duration_ms: 1,
        success,
        stderr: String::from(stderr),
        artifact: String::from(artifact),
    }
}

fn materialized() -> StepOutcome {
    StepOutcome::Materialized { duration_ms: 2, output_path: String::from("out/app"), build_dir: String::from("/tmp/b") }
}

#[test]
fn link_steps_record_each_stage_until_the_build_finishes() {
    let (state, action) = link_step(LinkState::start(), materialized());
    assert!(matches!(action, LinkAction::CompileIr));
    assert_eq!(state.diagnostics.output_path, "out/app");
    assert_eq!(state.diagnostics.stages[0].message, "Prepared LLVM IR and runtime shim in /tmp/b");
    let (state, action) = link_step(state, command(true, "", "/tmp/b/program.o"));
    assert!(matches!(action, LinkAction::CompileRuntime));
    let (state, action) = link_step(state, command(true, "", "/tmp/b/gradualuau_runtime.o"));
    assert!(matches!(action, LinkAction::Link));
    let (state, action) = link_step(state, command(true, "", "out/app"));
    assert!(matches!(action, LinkAction::Validate));
    let (state, action) = link_step(state, StepOutcome::Validated { duration_ms: 3, valid: true, total_ms: 40 });
    assert!(matches!(action, LinkAction::Finish));
    assert_eq!(state.phase, LinkPhase::Finished);
    assert_eq!(state.diagnostics.duration_ms, 40);
    assert_eq!(state.diagnostics.object_files, vec![String::from("/tmp/b/program.o"), String::from("/tmp/b/gradualuau_runtime.o")]);
    assert_eq!(state.diagnostics.linked_libraries, vec![String::from("gradualuau_runtime"), String::from("c_runtime")]);
    let names: Vec<&str> = state.diagnostics.stages.iter().map(|s| s.name.as_str()).collect();
    assert_eq!(names, vec!["Materialize Sources", "Compile LLVM IR", "Compile Runtime", "Link Executable", "Validation"]);
    assert_eq!(state.diagnostics.stages[3].message, "Produced executable out/app");
}

#[test]
fn a_failed_compile_stops_the_build_with_the_trimmed_error() {
    let (state, _) = link_step(LinkState::start(), materialized());
    let (state, action) = link_step(state, command(false, "  bad ir\n", "/tmp/b/program.o"));
    match action {
        LinkAction::Fail(message) => assert_eq!(message, "LLVM compilation failed: bad ir"),
        _ => panic!("expected a failure"),
    }
    assert_eq!(state.phase, LinkPhase::Failed);
    assert_eq!(state.diagnostics.stages.len(), 2);
    assert_eq!(state.diagnostics.stages[1].status, BuildStatus::Error);
    assert_eq!(state.diagnostics.stages[1].message, "LLVM compilation failed: bad ir");
}

#[test]
fn an_empty_executable_is_a_validation_warning() {
    let (state, _) = link_step(LinkState::start(), materialized());
    let (state, _) = link_step(state, command(true, "", "a.o"));
    let (state, _) = link_step(state, command(true, "", "b.o"));
    let (state, _) = link_step(state, command(true, "", "out/app"));
    let (state, _) = link_step(state, StepOutcome::Validated { duration_ms: 0, valid: false, total_ms: 9 });
    assert_eq!(state.diagnostics.stages[4].status, BuildStatus::Warning);
    assert_eq!(state.diagnostics.stages[4].message, "Executable validation skipped (file missing or empty)");
}
