//! The mid-level representation: functions as basic blocks of simple
//! instructions, and the control-flow analyses over them.
pub mod block;
pub mod cfg;
pub mod error;
pub mod instruction;
pub mod types;
pub mod value;
pub mod function;
pub mod module;
pub mod printer;
pub mod validator;
pub mod optimizer;
pub mod fold_laws;
pub mod builder;
pub mod operand;
pub mod ssa;
pub mod lifetime;

use vstd::prelude::*;

use crate::hir::module::HirModule;
use crate::mir::builder::{lower_fns, module_matches, ok_models, BuildState, MirBuilder};
use crate::mir::cfg::{built_from, MirControlFlowGraph};
use crate::mir::error::MirError;
use crate::mir::module::MirModule;
use crate::mir::validator::{functions_issues, issues_of, MirIssue, MirValidationError, MirValidationErrorKind, MirValidator};
use crate::text::{chars_of, decimal, push_char, push_decimal, push_str, to_owned_string};

verus! {

/// Lowering of a high-level module into a checked mid-level one.
#[derive(Debug, Default)]
pub struct MirStage;

/// The state of a builder as `MirBuilder::new` makes it.
pub open spec fn initial_build_state() -> BuildState {
    BuildState { values: 0, blocks: 0, functions: 0, vars: seq![], exit: None, slot: None }
}

/// The lowercase hexadecimal digits of `n`.
pub open spec fn hex(n: nat) -> Seq<char>
    decreases n,
{
    if n < 16 {
        seq![hex_digit(n)]
    } else {
        hex(n / 16).push(hex_digit(n % 16))
    }
}

/// The lowercase hexadecimal digit of `d` (`d < 16`).
pub open spec fn hex_digit(d: nat) -> char {
    if d < 10 {
        ((48 + d) as u8) as char
    } else {
        ((87 + d) as u8) as char
    }
}

/// How `Debug` writes a character inside a string: quotes, backslashes and
/// ASCII control characters are escaped; other characters stand for
/// themselves.
pub open spec fn escaped_char(c: char) -> Seq<char> {
    if c == '"' {
        seq!['\\', '"']
    } else if c == '\\' {
        seq!['\\', '\\']
    } else if c == '\n' {
        seq!['\\', 'n']
    } else if c == '\r' {
        seq!['\\', 'r']
    } else if c == '\t' {
        seq!['\\', 't']
    } else if c == '\0' {
        seq!['\\', '0']
    } else if (c as u32) < 32 || (c as u32) == 127 {
        seq!['\\', 'u', '{'] + hex((c as u32) as nat) + seq!['}']
    } else {
        seq![c]
    }
}

/// A text with each character escaped as above.
pub open spec fn escaped(s: Seq<char>) -> Seq<char>
    decreases s.len(),
{
    if s.len() == 0 {
        seq![]
    } else {
        escaped(s.drop_last()) + escaped_char(s.last())
    }
}

/// A string as `Debug` writes it.
pub open spec fn string_debug(s: Seq<char>) -> Seq<char> {
    "\""@ + escaped(s) + "\""@
}

/// A validation error as `Debug` writes it.
pub open spec fn issue_debug(i: MirIssue) -> Seq<char> {
    match i.0 {
        MirValidationErrorKind::UnreachableBlock => "UnreachableBlock { block_id: "@ + decimal(i.1 as nat) + " }"@,
        MirValidationErrorKind::InvalidInstruction => "InvalidInstruction { message: "@ + string_debug(i.2) + " }"@,
        MirValidationErrorKind::MissingExitPath => "MissingExitPath { function: "@ + string_debug(i.2) + " }"@,
        MirValidationErrorKind::MissingTerminator => "MissingTerminator { block_id: "@ + decimal(i.1 as nat) + " }"@,
        MirValidationErrorKind::InvalidTerminator => "InvalidTerminator { block_id: "@ + decimal(i.1 as nat) + ", message: "@
            + string_debug(i.2) + " }"@,
        MirValidationErrorKind::InvalidBranchTarget => "InvalidBranchTarget { target: "@ + decimal(i.1 as nat) + " }"@,
        MirValidationErrorKind::InvalidValue => "InvalidValue { value_id: "@ + decimal(i.1 as nat) + ", message: "@
            + string_debug(i.2) + " }"@,
    }
}

/// Validation errors separated by `, `.
pub open spec fn issues_items(is: Seq<MirIssue>) -> Seq<char>
    decreases is.len(),
{
    if is.len() == 0 {
        seq![]
    } else if is.len() == 1 {
        issue_debug(is[0])
    } else {
        issues_items(is.drop_last()) + ", "@ + issue_debug(is.last())
    }
}

/// A list of validation errors as `Debug` writes it.
pub open spec fn issues_debug(is: Seq<MirIssue>) -> Seq<char> {
    "["@ + issues_items(is) + "]"@
}

fn push_hex(out: &mut String, n: u32)
    ensures
        final(out)@ == old(out)@ + hex(n as nat),
    decreases n,
{
    if n >= 16 {
        push_hex(out, n / 16);
    }
    let d = n % 16;
    let c: char = if d < 10 {
        ((48 + d) as u8) as char
    } else {
        ((87 + d) as u8) as char
    };
    push_char(out, c);
    assert(final(out)@ =~= old(out)@ + hex(n as nat));
}

/// Appends a string as `Debug` writes it.
fn push_string_debug(out: &mut String, s: &str)
    ensures
        final(out)@ == old(out)@ + string_debug(s@),
{
    let cs = chars_of(s);
    push_str(out, "\"");
    let ghost start = out@;
    let mut i: usize = 0;
    while i < cs.len()
        invariant
            i <= cs@.len(),
            cs@ == s@,
            out@ == start + escaped(cs@.subrange(0, i as int)),
        decreases cs.len() - i,
    {
        let c = cs[i];
        let ghost before = out@;
        if c == '"' || c == '\\' {
            push_char(out, '\\');
            push_char(out, c);
            assert(out@ =~= before + escaped_char(c));
        } else if c == '\n' {
            push_char(out, '\\');
            push_char(out, 'n');
        } else if c == '\r' {
            push_char(out, '\\');
            push_char(out, 'r');
        } else if c == '\t' {
            push_char(out, '\\');
            push_char(out, 't');
        } else if c == '\0' {
            push_char(out, '\\');
            push_char(out, '0');
            assert(out@ =~= before + escaped_char(c));
        } else if (c as u32) < 32 || (c as u32) == 127 {
            push_char(out, '\\');
            push_char(out, 'u');
            push_char(out, '{');
            push_hex(out, c as u32);
            push_char(out, '}');
            assert(out@ =~= before + escaped_char(c));
        } else {
            push_char(out, c);
            assert(out@ =~= before + escaped_char(c));
        }
        proof {
            assert(out@ =~= before + escaped_char(c));
            assert(cs@.subrange(0, i + 1).drop_last() =~= cs@.subrange(0, i as int));
            assert(out@ =~= start + escaped(cs@.subrange(0, i + 1)));
        }
        i = i + 1;
    }
    assert(cs@.subrange(0, cs@.len() as int) =~= cs@);
    push_str(out, "\"");
    assert(final(out)@ =~= old(out)@ + string_debug(s@));
}

/// Appends a validation error as `Debug` writes it.
fn push_issue_debug(out: &mut String, e: &MirValidationError)
    ensures
        final(out)@ == old(out)@ + issue_debug(e@),
{
    match e {
        MirValidationError::UnreachableBlock { block_id } => {
            push_str(out, "UnreachableBlock { block_id: ");
            push_decimal(out, *block_id);
            push_str(out, " }");
        },
        MirValidationError::InvalidInstruction { message } => {
            push_str(out, "InvalidInstruction { message: ");
            push_string_debug(out, message.as_str());
            push_str(out, " }");
        },
        MirValidationError::MissingExitPath { function } => {
            push_str(out, "MissingExitPath { function: ");
            push_string_debug(out, function.as_str());
            push_str(out, " }");
        },
        MirValidationError::MissingTerminator { block_id } => {
            push_str(out, "MissingTerminator { block_id: ");
            push_decimal(out, *block_id);
            push_str(out, " }");
        },
        MirValidationError::InvalidTerminator { block_id, message } => {
            push_str(out, "InvalidTerminator { block_id: ");
            push_decimal(out, *block_id);
            push_str(out, ", message: ");
            push_string_debug(out, message.as_str());
            push_str(out, " }");
        },
        MirValidationError::InvalidBranchTarget { target } => {
            push_str(out, "InvalidBranchTarget { target: ");
            push_decimal(out, *target);
            push_str(out, " }");
        },
        MirValidationError::InvalidValue { value_id, message } => {
            push_str(out, "InvalidValue { value_id: ");
            push_decimal(out, *value_id);
            push_str(out, ", message: ");
            push_string_debug(out, message.as_str());
            push_str(out, " }");
        },
    }
    assert(final(out)@ =~= old(out)@ + issue_debug(e@));
}

/// Appends a list of validation errors as `Debug` writes it.
fn push_issues_debug(out: &mut String, errors: &Vec<MirValidationError>)
    ensures
        final(out)@ == old(out)@ + issues_debug(issues_of(errors@)),
{
    let ghost is = issues_of(errors@);
    push_str(out, "[");
    let ghost start = out@;
    let mut i: usize = 0;
    while i < errors.len()
        invariant
            i <= errors@.len(),
            is == issues_of(errors@),
            out@ == start + issues_items(is.subrange(0, i as int)),
        decreases errors.len() - i,
    {
        if i > 0 {
            push_str(out, ", ");
        }
        push_issue_debug(out, &errors[i]);
        proof {
            let run = is.subrange(0, i + 1);
            assert(run.drop_last() =~= is.subrange(0, i as int));
            assert(run.last() == errors@[i as int]@);
            if i == 0 {
                assert(issues_items(is.subrange(0, 0)) =~= Seq::<char>::empty());
                assert(run[0] == errors@[0]@);
            }
            assert(out@ =~= start + issues_items(run));
        }
        i = i + 1;
    }
    assert(is.subrange(0, is.len() as int) =~= is);
    push_str(out, "]");
    assert(final(out)@ =~= old(out)@ + issues_debug(is));
}

/// What lowering `hir` with a fresh builder and checking the module gives:
/// the module when every function's graph is free of problems, else the
/// lowering error, or an error with the number and list of problems.
pub open spec fn mir_lowering(hir: HirModule, r: Result<MirModule, MirError>) -> bool {
    match r {
        Ok(m) => lower_fns(hir.functions@, initial_build_state()).1 is Ok && module_matches(
            m,
            hir,
            ok_models(lower_fns(hir.functions@, initial_build_state()).1),
        ) && exists|cfgs: Seq<Option<MirControlFlowGraph>>|
            #![trigger functions_issues(m.functions@, cfgs)]
            cfgs.len() == m.functions@.len() && (forall|i: int| 0 <= i < cfgs.len() ==> built_from(m.functions@[i], #[trigger] cfgs[i]))
                && functions_issues(m.functions@, cfgs).len() == 0,
        Err(e) => match lower_fns(hir.functions@, initial_build_state()).1 {
            Err(message) => e is LoweringError && crate::mir::builder::error_detail(e) == message,
            Ok(models) => exists|m: MirModule, cfgs: Seq<Option<MirControlFlowGraph>>|
                #![trigger module_matches(m, hir, models), functions_issues(m.functions@, cfgs)]
                module_matches(m, hir, models) && cfgs.len() == m.functions@.len() && (forall|i: int|
                    0 <= i < cfgs.len() ==> built_from(m.functions@[i], #[trigger] cfgs[i])) && functions_issues(m.functions@, cfgs).len()
                    > 0 && e is ValidationError && crate::mir::builder::error_detail(e) == "MIR validation failed with "@ + decimal(
                    functions_issues(m.functions@, cfgs).len() as nat,
                ) + " errors: "@ + issues_debug(functions_issues(m.functions@, cfgs)),
        },
    }
}

impl MirStage {
    /// Lowers a module with a fresh builder, then checks it; a module with
    /// problems is refused with their number and their `Debug` list.
    pub fn lower(hir: &HirModule) -> (r: Result<MirModule, MirError>)
        ensures
            mir_lowering(*hir, r),
    {
        let mut builder = MirBuilder::new();
        let module = match builder.build(hir) {
            Ok(m) => m,
            Err(e) => return Err(e),
        };
        let mut validator = MirValidator::new();
        let checked = validator.validate(&module);
        let ghost cfgs = choose|cfgs: Seq<Option<MirControlFlowGraph>>| {
            &&& cfgs.len() == module.functions@.len()
            &&& forall|i: int| 0 <= i < cfgs.len() ==> built_from(module.functions@[i], #[trigger] cfgs[i])
            &&& validator.recorded() == Seq::<MirIssue>::empty() + functions_issues(module.functions@, cfgs)
        };
        proof {
            assert(Seq::<MirIssue>::empty() + functions_issues(module.functions@, cfgs) =~= functions_issues(module.functions@, cfgs));
        }
        match checked {
            Ok(()) => Ok(module),
            Err(errors) => {
                let mut message = to_owned_string("MIR validation failed with ");
                push_decimal(&mut message, errors.len());
                push_str(&mut message, " errors: ");
                push_issues_debug(&mut message, &errors);
                proof {
                    assert(issues_of(errors@).len() == errors@.len());
                }
                Err(MirError::ValidationError(message))
            },
        }
    }
}

} // verus!
