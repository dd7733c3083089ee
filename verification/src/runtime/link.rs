//! The decisions of a native build between its toolchain steps: which stage
//! is recorded after each step, with which status and message, and whether
//! the build goes on or stops at the first failure. The driver runs the
//! steps themselves (writing files, running the compiler and the linker).
use vstd::prelude::*;

use crate::parser::grammar::trim;
use crate::parser::parser::trimmed_string;
use crate::runtime::diagnostics::{BuildDiagnostics, BuildStage, BuildStatus};
use crate::text::{chars_of, push_str, to_owned_string};

verus! {

/// Where a native build stands.
#[derive(Debug, Clone, Copy, PartialEq, Eq, Structural)]
pub enum LinkPhase {
    /// The sources are being written.
    Materializing,
    /// The program's IR is being compiled.
    CompilingIr,
    /// The runtime shim is being compiled.
    CompilingRuntime,
    /// The objects are being linked.
    Linking,
    /// The executable is being checked.
    Validating,
    /// The build succeeded.
    Finished,
    /// The build stopped at a failed step.
    Failed,
}

/// A native build in progress: its phase and what it has recorded.
#[derive(Debug)]
pub struct LinkState {
    pub phase: LinkPhase,
    pub diagnostics: BuildDiagnostics,
}

/// What the step the driver just ran came to.
#[derive(Debug)]
pub enum StepOutcome {
    /// The IR and the runtime shim were written to `build_dir`; the
    /// executable goes to `output_path`.
    Materialized { duration_ms: u64, output_path: String, build_dir: String },
    /// A toolchain command ran: whether it succeeded, what it wrote to its
    /// error stream, and the file it was to produce.
    Command { duration_ms: u64, success: bool, stderr: String, artifact: String },
    /// The executable was checked (present and not empty, or not); the whole
    /// build took `total_ms`.
    Validated { duration_ms: u64, valid: bool, total_ms: u64 },
}

/// What the driver does next.
#[derive(Debug)]
pub enum LinkAction {
    CompileIr,
    CompileRuntime,
    Link,
    Validate,
    /// The build succeeded; its record is in the state.
    Finish,
    /// The build failed with this message.
    Fail(String),
}

/// A recorded stage with its texts as character sequences.
pub struct StageView {
    pub name: Seq<char>,
    pub status: BuildStatus,
    pub duration_ms: u64,
    pub message: Seq<char>,
}

/// A build record with its texts as character sequences.
pub struct BuildView {
    pub stages: Seq<StageView>,
    pub duration_ms: u64,
    pub output_path: Seq<char>,
    pub object_files: Seq<Seq<char>>,
    pub linked_libraries: Seq<Seq<char>>,
}

/// A build in progress, as views.
pub struct LinkView {
    pub phase: LinkPhase,
    pub build: BuildView,
}

/// A step's outcome, as views.
pub enum OutcomeView {
    Materialized { duration_ms: u64, output_path: Seq<char>, build_dir: Seq<char> },
    Command { duration_ms: u64, success: bool, stderr: Seq<char>, artifact: Seq<char> },
    Validated { duration_ms: u64, valid: bool, total_ms: u64 },
}

/// The next action, as a view.
pub enum ActionView {
    CompileIr,
    CompileRuntime,
    Link,
    Validate,
    Finish,
    Fail(Seq<char>),
}

pub open spec fn stage_view(s: BuildStage) -> StageView {
    StageView { name: s.name@, status: s.status, duration_ms: s.duration_ms, message: s.message@ }
}

pub open spec fn build_view(b: BuildDiagnostics) -> BuildView {
    BuildView {
        stages: b.stages@.map_values(|s: BuildStage| stage_view(s)),
        duration_ms: b.duration_ms,
        output_path: b.output_path@,
        object_files: b.object_files@.map_values(|f: String| f@),
        linked_libraries: b.linked_libraries@.map_values(|f: String| f@),
    }
}

impl View for LinkState {
    type V = LinkView;

    open spec fn view(&self) -> LinkView {
        LinkView { phase: self.phase, build: build_view(self.diagnostics) }
    }
}

impl View for StepOutcome {
    type V = OutcomeView;

    open spec fn view(&self) -> OutcomeView {
        match self {
            StepOutcome::Materialized { duration_ms, output_path, build_dir } => OutcomeView::Materialized {
                duration_ms: *duration_ms,
                output_path: output_path@,
                build_dir: build_dir@,
            },
            StepOutcome::Command { duration_ms, success, stderr, artifact } => OutcomeView::Command {
                duration_ms: *duration_ms,
                success: *success,
                stderr: stderr@,
                artifact: artifact@,
            },
            StepOutcome::Validated { duration_ms, valid, total_ms } => OutcomeView::Validated {
                duration_ms: *duration_ms,
                valid: *valid,
                total_ms: *total_ms,
            },
        }
    }
}

impl View for LinkAction {
    type V = ActionView;

    open spec fn view(&self) -> ActionView {
        match self {
            LinkAction::CompileIr => ActionView::CompileIr,
            LinkAction::CompileRuntime => ActionView::CompileRuntime,
            LinkAction::Link => ActionView::Link,
            LinkAction::Validate => ActionView::Validate,
            LinkAction::Finish => ActionView::Finish,
            LinkAction::Fail(m) => ActionView::Fail(m@),
        }
    }
}

/// `b` with one more stage recorded.
pub open spec fn with_stage(b: BuildView, name: Seq<char>, status: BuildStatus, duration_ms: u64, message: Seq<char>) -> BuildView {
    BuildView { stages: b.stages.push(StageView { name, status, duration_ms, message }), ..b }
}

/// What a toolchain command leads to: on failure an error stage with the
/// trimmed error stream, and the build stops with `failure` and the same
/// text; on success a stage that names the produced file, which is recorded
/// as an object file when `object` holds, and the phase `next`.
pub open spec fn command_transition(
    b: BuildView,
    name: Seq<char>,
    failed_stage: Seq<char>,
    failure: Seq<char>,
    produced: Seq<char>,
    object: bool,
    next: LinkPhase,
    next_action: ActionView,
    duration_ms: u64,
    success: bool,
    stderr: Seq<char>,
    artifact: Seq<char>,
) -> (LinkView, ActionView) {
    if !success {
        (
            LinkView { phase: LinkPhase::Failed, build: with_stage(b, name, BuildStatus::Error, duration_ms, failed_stage + trim(stderr)) },
            ActionView::Fail(failure + trim(stderr)),
        )
    } else {
        let b1 = with_stage(b, name, BuildStatus::Success, duration_ms, produced + artifact);
        let b2 = if object {
            BuildView { object_files: b1.object_files.push(artifact), ..b1 }
        } else {
            BuildView { linked_libraries: b1.linked_libraries.push("gradualuau_runtime"@).push("c_runtime"@), ..b1 }
        };
        (LinkView { phase: next, build: b2 }, next_action)
    }
}

/// Whether the outcome is the one the phase waits for.
pub open spec fn awaits(phase: LinkPhase, o: OutcomeView) -> bool {
    match phase {
        LinkPhase::Materializing => o is Materialized,
        LinkPhase::CompilingIr | LinkPhase::CompilingRuntime | LinkPhase::Linking => o is Command,
        LinkPhase::Validating => o is Validated,
        _ => false,
    }
}

/// One decision of the native build.
pub open spec fn link_transition(s: LinkView, o: OutcomeView) -> (LinkView, ActionView) {
    match o {
        OutcomeView::Materialized { duration_ms, output_path, build_dir } => (
            LinkView {
                phase: LinkPhase::CompilingIr,
                build: with_stage(
                    BuildView { output_path, ..s.build },
                    "Materialize Sources"@,
                    BuildStatus::Success,
                    duration_ms,
                    "Prepared LLVM IR and runtime shim in "@ + build_dir,
                ),
            },
            ActionView::CompileIr,
        ),
        OutcomeView::Command { duration_ms, success, stderr, artifact } => match s.phase {
            LinkPhase::CompilingIr => command_transition(
                s.build,
                "Compile LLVM IR"@,
                "LLVM compilation failed: "@,
                "LLVM compilation failed: "@,
                "Generated object file "@,
                true,
                LinkPhase::CompilingRuntime,
                ActionView::CompileRuntime,
                duration_ms,
                success,
                stderr,
                artifact,
            ),
            LinkPhase::CompilingRuntime => command_transition(
                s.build,
                "Compile Runtime"@,
                "Runtime compilation failed: "@,
                "runtime compilation failed: "@,
                "Generated runtime object "@,
                true,
                LinkPhase::Linking,
                ActionView::Link,
                duration_ms,
                success,
                stderr,
                artifact,
            ),
            _ => command_transition(
                s.build,
                "Link Executable"@,
                "Linking failed: "@,
                "linking failed: "@,
                "Produced executable "@,
                false,
                LinkPhase::Validating,
                ActionView::Validate,
                duration_ms,
                success,
                stderr,
                artifact,
            ),
        },
        OutcomeView::Validated { duration_ms, valid, total_ms } => {
            let b = with_stage(
                s.build,
                "Validation"@,
                if valid {
                    BuildStatus::Success
                } else {
                    BuildStatus::Warning
                },
                duration_ms,
                if valid {
                    "Executable validated successfully"@
                } else {
                    "Executable validation skipped (file missing or empty)"@
                },
            );
            (LinkView { phase: LinkPhase::Finished, build: BuildView { duration_ms: total_ms, ..b } }, ActionView::Finish)
        },
    }
}

impl LinkState {
    /// A build that has recorded nothing yet and is about to write its
    /// sources.
    pub fn start() -> (result: Self)
        ensures
            result.phase == LinkPhase::Materializing,
            result@.build.stages.len() == 0,
            result@.build.duration_ms == 0,
            result@.build.output_path == Seq::<char>::empty(),
            result@.build.object_files.len() == 0,
            result@.build.linked_libraries.len() == 0,
    {
        LinkState { phase: LinkPhase::Materializing, diagnostics: BuildDiagnostics::new() }
    }
}

/// Records a stage on `d` (its view grows by that stage, nothing else).
fn record(d: &mut BuildDiagnostics, name: &str, status: BuildStatus, duration_ms: u64, message: String)
    ensures
        build_view(*final(d)) == with_stage(build_view(*old(d)), name@, status, duration_ms, message@),
{
    let stage = BuildStage { name: to_owned_string(name), status, duration_ms, message };
    d.add_stage(stage);
    assert(build_view(*d).stages =~= build_view(*old(d)).stages.push(stage_view(stage)));
    assert(build_view(*d).object_files =~= build_view(*old(d)).object_files);
    assert(build_view(*d).linked_libraries =~= build_view(*old(d)).linked_libraries);
}

/// `prefix` followed by `text` without its leading and trailing white space.
fn with_trimmed(prefix: &str, text: &String) -> (result: String)
    ensures
        result@ == prefix@ + trim(text@),
{
    let mut out = to_owned_string(prefix);
    let trimmed = trimmed_string(&chars_of(text.as_str()));
    push_str(&mut out, trimmed.as_str());
    out
}

/// `prefix` followed by `text`.
fn joined(prefix: &str, text: &String) -> (result: String)
    ensures
        result@ == prefix@ + text@,
{
    let mut out = to_owned_string(prefix);
    push_str(&mut out, text.as_str());
    out
}

/// The decision after a toolchain command.
fn after_command(
    mut d: BuildDiagnostics,
    name: &str,
    failed_stage: &str,
    failure: &str,
    produced: &str,
    object: bool,
    next: LinkPhase,
    next_action: LinkAction,
    duration_ms: u64,
    success: bool,
    stderr: String,
    artifact: String,
) -> (r: (LinkState, LinkAction))
    ensures
        (r.0@, r.1@) == command_transition(
            build_view(d),
            name@,
            failed_stage@,
            failure@,
            produced@,
            object,
            next,
            next_action@,
            duration_ms,
            success,
            stderr@,
            artifact@,
        ),
{
    let ghost b = build_view(d);
    if !success {
        let stage_message = with_trimmed(failed_stage, &stderr);
        let fail_message = with_trimmed(failure, &stderr);
        record(&mut d, name, BuildStatus::Error, duration_ms, stage_message);
        (LinkState { phase: LinkPhase::Failed, diagnostics: d }, LinkAction::Fail(fail_message))
    } else {
        let message = joined(produced, &artifact);
        record(&mut d, name, BuildStatus::Success, duration_ms, message);
        let ghost b1 = build_view(d);
        if object {
            d.add_object_file(artifact);
            assert(build_view(d).object_files =~= b1.object_files.push(artifact@));
            assert(build_view(d).stages =~= b1.stages);
            assert(build_view(d).linked_libraries =~= b1.linked_libraries);
        } else {
            let runtime = to_owned_string("gradualuau_runtime");
            let c_runtime = to_owned_string("c_runtime");
            d.add_linked_library(runtime);
            d.add_linked_library(c_runtime);
            assert(build_view(d).linked_libraries =~= b1.linked_libraries.push("gradualuau_runtime"@).push("c_runtime"@));
            assert(build_view(d).stages =~= b1.stages);
            assert(build_view(d).object_files =~= b1.object_files);
        }
        (LinkState { phase: next, diagnostics: d }, next_action)
    }
}

/// One decision of a native build: records the stage the finished step
/// stands for and says what to do next. A failed command ends the build.
pub fn link_step(state: LinkState, outcome: StepOutcome) -> (r: (LinkState, LinkAction))
    requires
        awaits(state.phase, outcome@),
    ensures
        (r.0@, r.1@) == link_transition(state@, outcome@),
{
    let LinkState { phase, diagnostics } = state;
    let mut d = diagnostics;
    match outcome {
        StepOutcome::Materialized { duration_ms, output_path, build_dir } => {
            d.set_output_path(output_path);
            let message = joined("Prepared LLVM IR and runtime shim in ", &build_dir);
            record(&mut d, "Materialize Sources", BuildStatus::Success, duration_ms, message);
            (LinkState { phase: LinkPhase::CompilingIr, diagnostics: d }, LinkAction::CompileIr)
        },
        StepOutcome::Command { duration_ms, success, stderr, artifact } => {
            match phase {
                LinkPhase::CompilingIr => after_command(
                    d,
                    "Compile LLVM IR",
                    "LLVM compilation failed: ",
                    "LLVM compilation failed: ",
                    "Generated object file ",
                    true,
                    LinkPhase::CompilingRuntime,
                    LinkAction::CompileRuntime,
                    duration_ms,
                    success,
                    stderr,
                    artifact,
                ),
                LinkPhase::CompilingRuntime => after_command(
                    d,
                    "Compile Runtime",
                    "Runtime compilation failed: ",
                    "runtime compilation failed: ",
                    "Generated runtime object ",
                    true,
                    LinkPhase::Linking,
                    LinkAction::Link,
                    duration_ms,
                    success,
                    stderr,
                    artifact,
                ),
                _ => after_command(
                    d,
                    "Link Executable",
                    "Linking failed: ",
                    "linking failed: ",
                    "Produced executable ",
                    false,
                    LinkPhase::Validating,
                    LinkAction::Validate,
                    duration_ms,
                    success,
                    stderr,
                    artifact,
                ),
            }
        },
        StepOutcome::Validated { duration_ms, valid, total_ms } => {
            let (status, message) = if valid {
                (BuildStatus::Success, to_owned_string("Executable validated successfully"))
            } else {
                (BuildStatus::Warning, to_owned_string("Executable validation skipped (file missing or empty)"))
            };
            record(&mut d, "Validation", status, duration_ms, message);
            d.duration_ms = total_ms;
            (LinkState { phase: LinkPhase::Finished, diagnostics: d }, LinkAction::Finish)
        },
    }
}

} // verus!
