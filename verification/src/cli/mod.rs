//! The command line: which command was asked for, with which file, and what
//! the compiler reports back to the shell.
pub mod exit_code;

use vstd::prelude::*;

use crate::diagnostics::{plain_diagnostic, Diagnostic, DiagnosticView, NoteView, Severity};
use crate::text::{chars_of, push_str, str_eq, to_owned_string};

verus! {

/// A parsed command line.
#[derive(Debug, Clone, PartialEq, Eq)]
pub struct Cli {
    command: Command,
}

/// What the command line asks for.
#[derive(Debug, Clone, PartialEq, Eq)]
pub enum Command {
    Build { file: String },
    Run { file: String },
    Check { file: String },
    Version,
    Help,
    Invalid { diagnostic: Diagnostic },
}

/// A command as plain values.
pub enum CommandView {
    Build(Seq<char>),
    Run(Seq<char>),
    Check(Seq<char>),
    Version,
    Help,
    Invalid(DiagnosticView),
}

impl View for Command {
    type V = CommandView;

    open spec fn view(&self) -> CommandView {
        match self {
            Command::Build { file } => CommandView::Build(file@),
            Command::Run { file } => CommandView::Run(file@),
            Command::Check { file } => CommandView::Check(file@),
            Command::Version => CommandView::Version,
            Command::Help => CommandView::Help,
            Command::Invalid { diagnostic } => CommandView::Invalid(diagnostic@),
        }
    }
}

/// An error with the given message and plain notes.
pub open spec fn error_with(message: Seq<char>, notes: Seq<Seq<char>>) -> DiagnosticView {
    DiagnosticView {
        notes: notes.map_values(|n: Seq<char>| NoteView { span: None, message: n }),
        ..plain_diagnostic(Severity::Error, message)
    }
}

/// Where the component of a path that ends at `end` starts: just after the
/// separator before it, or at the start.
pub open spec fn component_start(p: Seq<char>, end: int) -> int
    decreases end,
{
    if end <= 0 {
        0
    } else if p[end - 1] == '/' {
        end
    } else {
        component_start(p, end - 1)
    }
}

/// A component starts at or before where it ends.
pub proof fn lemma_component_start_bounds(p: Seq<char>, end: int)
    ensures
        end >= 0 ==> 0 <= component_start(p, end) <= end,
    decreases end,
{
    if end > 0 && p[end - 1] != '/' {
        lemma_component_start_bounds(p, end - 1);
    }
}

/// The bounds of the last named component of `p[..end]`: separators are
/// skipped, and so are `.` components; there is none when nothing is left or
/// the last component is `..`.
pub open spec fn last_name(p: Seq<char>, end: int) -> Option<(int, int)>
    decreases end,
{
    if end <= 0 {
        None
    } else if p[end - 1] == '/' {
        last_name(p, end - 1)
    } else {
        let s = component_start(p, end - 1);
        let c = p.subrange(s, end);
        if c == "."@ {
            proof {
                lemma_component_start_bounds(p, end - 1);
            }
            last_name(p, s)
        } else if c == ".."@ {
            None
        } else {
            Some((s, end))
        }
    }
}

/// The position of the last `.` of `name`, or -1.
pub open spec fn last_dot(name: Seq<char>) -> int
    decreases name.len(),
{
    if name.len() == 0 {
        -1
    } else if name.last() == '.' {
        name.len() - 1
    } else {
        last_dot(name.drop_last())
    }
}

/// Whether the file named by a path has the extension `glu`: its last name
/// has a `.` after its first character and `glu` after its last `.`.
pub open spec fn has_glu_extension(p: Seq<char>) -> bool {
    match last_name(p, p.len() as int) {
        Some((s, e)) => {
            let name = p.subrange(s, e);
            let d = last_dot(name);
            d > 0 && name.subrange(d + 1, name.len() as int) == "glu"@
        },
        None => false,
    }
}

/// A file command with its arguments: exactly one argument, a `.glu` file.
pub open spec fn file_command(args: Seq<Seq<char>>, name: Seq<char>) -> CommandView {
    if args.len() != 1 {
        CommandView::Invalid(
            error_with("'"@ + name + "' expects exactly one .glu file"@, seq!["usage: gluauc "@ + name + " <file.glu>"@]),
        )
    } else if !has_glu_extension(args[0]) {
        CommandView::Invalid(
            error_with("GraduaLuau source files must use the .glu extension"@, seq!["received '"@ + args[0] + "'"@]),
        )
    } else if name == "build"@ {
        CommandView::Build(args[0])
    } else if name == "run"@ {
        CommandView::Run(args[0])
    } else {
        CommandView::Check(args[0])
    }
}

/// A command that takes no arguments.
pub open spec fn no_args_command(args: Seq<Seq<char>>, command: CommandView, name: Seq<char>) -> CommandView {
    if args.len() == 0 {
        command
    } else {
        CommandView::Invalid(error_with("'"@ + name + "' does not accept arguments"@, seq![]))
    }
}

/// The command `command` with its arguments, for the program `executable`.
pub open spec fn command_of(command: Seq<char>, args: Seq<Seq<char>>, executable: Seq<char>) -> CommandView {
    if command == "build"@ || command == "run"@ || command == "check"@ {
        file_command(args, command)
    } else if command == "version"@ || command == "--version"@ || command == "-V"@ {
        no_args_command(args, CommandView::Version, "version"@)
    } else if command == "help"@ || command == "--help"@ || command == "-h"@ {
        no_args_command(args, CommandView::Help, "help"@)
    } else {
        CommandView::Invalid(
            error_with(
                "unknown command '"@ + command + "'"@,
                seq!["run '"@ + executable + " help' to see available commands"@],
            ),
        )
    }
}

/// The command a whole command line (the program's name first) asks for;
/// help when there is no command.
pub open spec fn command_line(args: Seq<Seq<char>>) -> CommandView {
    if args.len() < 2 {
        CommandView::Help
    } else {
        command_of(args[1], args.subrange(2, args.len() as int), args[0])
    }
}

/// The text of each string.
pub open spec fn texts(args: Seq<String>) -> Seq<Seq<char>> {
    args.map_values(|a: String| a@)
}

/// The start of the component of `cs[..end]` that ends at `end`.
fn component_start_of(cs: &Vec<char>, end: usize) -> (result: usize)
    requires
        end <= cs@.len(),
    ensures
        result as int == component_start(cs@, end as int),
        result <= end,
    decreases end,
{
    if end == 0 {
        0
    } else if cs[end - 1] == '/' {
        end
    } else {
        component_start_of(cs, end - 1)
    }
}

/// Whether `cs[s..e]` is the given text.
fn span_is(cs: &Vec<char>, s: usize, e: usize, text: &Vec<char>) -> (result: bool)
    requires
        s <= e <= cs@.len(),
    ensures
        result == (cs@.subrange(s as int, e as int) == text@),
{
    if e - s != text.len() {
        return false;
    }
    let mut i: usize = 0;
    while i < text.len()
        invariant
            i <= text@.len(),
            e - s == text@.len(),
            s <= e <= cs@.len(),
            forall|k: int| 0 <= k < i ==> cs@[s + k] == text@[k],
        decreases text.len() - i,
    {
        if cs[s + i] != text[i] {
            assert(cs@.subrange(s as int, e as int)[i as int] != text@[i as int]);
            return false;
        }
        i = i + 1;
    }
    assert(cs@.subrange(s as int, e as int) =~= text@);
    true
}

/// The bounds of the last named component of `cs[..end]`.
fn last_name_of(cs: &Vec<char>, end: usize, dot: &Vec<char>, dots: &Vec<char>) -> (result: Option<(usize, usize)>)
    requires
        end <= cs@.len(),
        dot@ == "."@,
        dots@ == ".."@,
    ensures
        match result {
            Some((s, e)) => last_name(cs@, end as int) == Some((s as int, e as int)) && s <= e <= cs@.len(),
            None => last_name(cs@, end as int).is_none(),
        },
    decreases end,
{
    if end == 0 {
        None
    } else if cs[end - 1] == '/' {
        last_name_of(cs, end - 1, dot, dots)
    } else {
        let s = component_start_of(cs, end - 1);
        if span_is(cs, s, end, dot) {
            last_name_of(cs, s, dot, dots)
        } else if span_is(cs, s, end, dots) {
            None
        } else {
            Some((s, end))
        }
    }
}

/// Whether the file named by a path has the extension `glu`.
fn glu_extension(path: &str) -> (result: bool)
    ensures
        result == has_glu_extension(path@),
{
    let cs = chars_of(path);
    let dot = chars_of(".");
    let dots = chars_of("..");
    let glu = chars_of("glu");
    proof {
        reveal_strlit(".");
        reveal_strlit("..");
        reveal_strlit("glu");
    }
    match last_name_of(&cs, cs.len(), &dot, &dots) {
        Some((s, e)) => {
            let ghost name = cs@.subrange(s as int, e as int);
            assert(name.subrange(0, e - s) =~= name);
            let mut d = e;
            while d > s && cs[d - 1] != '.'
                invariant
                    s <= d <= e <= cs@.len(),
                    name == cs@.subrange(s as int, e as int),
                    last_dot(name) == last_dot(name.subrange(0, d - s)),
                decreases d - s,
            {
                assert(name.subrange(0, d - s).drop_last() =~= name.subrange(0, d - s - 1));
                d = d - 1;
            }
            if d == s {
                assert(name.subrange(0, 0) =~= Seq::<char>::empty());
                false
            } else {
                assert(name.subrange(0, d - s).last() == '.');
                if d - 1 == s {
                    false
                } else {
                    let r = span_is(&cs, d, e, &glu);
                    assert(name.subrange(d - s, name.len() as int) =~= cs@.subrange(d as int, e as int));
                    r
                }
            }
        },
        None => false,
    }
}

/// A file command with its arguments.
fn parse_file_command(args: &Vec<String>, name: &str) -> (result: Command)
    ensures
        result@ == file_command(texts(args@), name@),
{
    if args.len() != 1 {
        let mut message = to_owned_string("'");
        push_str(&mut message, name);
        push_str(&mut message, "' expects exactly one .glu file");
        let mut usage = to_owned_string("usage: gluauc ");
        push_str(&mut usage, name);
        push_str(&mut usage, " <file.glu>");
        let diagnostic = Diagnostic::error(message.as_str()).with_note(usage.as_str());
        proof {
            assert(diagnostic@.notes =~= seq![usage@].map_values(|n: Seq<char>| NoteView { span: None, message: n }));
        }
        return Command::Invalid { diagnostic };
    }
    let file = &args[0];
    if !glu_extension(file.as_str()) {
        let mut received = to_owned_string("received '");
        push_str(&mut received, file.as_str());
        push_str(&mut received, "'");
        let diagnostic = Diagnostic::error("GraduaLuau source files must use the .glu extension").with_note(received.as_str());
        proof {
            assert(diagnostic@.notes =~= seq![received@].map_values(|n: Seq<char>| NoteView { span: None, message: n }));
        }
        return Command::Invalid { diagnostic };
    }
    let file = to_owned_string(file.as_str());
    if str_eq(name, "build") {
        Command::Build { file }
    } else if str_eq(name, "run") {
        Command::Run { file }
    } else {
        Command::Check { file }
    }
}

/// A command that takes no arguments.
fn expect_no_args(args: &Vec<String>, command: Command, name: &str) -> (result: Command)
    ensures
        result@ == no_args_command(texts(args@), command@, name@),
{
    if args.len() == 0 {
        return command;
    }
    let mut message = to_owned_string("'");
    push_str(&mut message, name);
    push_str(&mut message, "' does not accept arguments");
    let diagnostic = Diagnostic::error(message.as_str());
    proof {
        assert(diagnostic@.notes =~= Seq::<Seq<char>>::empty().map_values(|n: Seq<char>| NoteView { span: None, message: n }));
    }
    Command::Invalid { diagnostic }
}

impl Command {
    /// The command `command` with its arguments, for the program
    /// `executable`.
    pub fn parse(command: &str, args: &Vec<String>, executable: &str) -> (result: Command)
        ensures
            result@ == command_of(command@, texts(args@), executable@),
    {
        if str_eq(command, "build") || str_eq(command, "run") || str_eq(command, "check") {
            parse_file_command(args, command)
        } else if str_eq(command, "version") || str_eq(command, "--version") || str_eq(command, "-V") {
            expect_no_args(args, Command::Version, "version")
        } else if str_eq(command, "help") || str_eq(command, "--help") || str_eq(command, "-h") {
            expect_no_args(args, Command::Help, "help")
        } else {
            let mut message = to_owned_string("unknown command '");
            push_str(&mut message, command);
            push_str(&mut message, "'");
            let mut hint = to_owned_string("run '");
            push_str(&mut hint, executable);
            push_str(&mut hint, " help' to see available commands");
            let diagnostic = Diagnostic::error(message.as_str()).with_note(hint.as_str());
            proof {
                assert(diagnostic@.notes =~= seq![hint@].map_values(|n: Seq<char>| NoteView { span: None, message: n }));
            }
            Command::Invalid { diagnostic }
        }
    }
}

impl Cli {
    /// The command the line asks for.
    pub closed spec fn command_view(self) -> CommandView {
        self.command@
    }

    /// Reads a command line, the program's name first.
    pub fn parse_from(args: Vec<String>) -> (result: Cli)
        ensures
            result.command_view() == command_line(texts(args@)),
    {
        if args.len() < 2 {
            return Cli { command: Command::Help };
        }
        let mut rest: Vec<String> = Vec::new();
        let mut i: usize = 2;
        while i < args.len()
            invariant
                2 <= i <= args@.len(),
                texts(rest@) == texts(args@).subrange(2, i as int),
            decreases args.len() - i,
        {
            let ghost before = rest@;
            let copy = to_owned_string(args[i].as_str());
            rest.push(copy);
            assert(texts(rest@) =~= texts(before).push(args@[i as int]@));
            assert(texts(rest@) =~= texts(args@).subrange(2, i + 1));
            i = i + 1;
        }
        let command = Command::parse(args[1].as_str(), &rest, args[0].as_str());
        Cli { command }
    }

    /// The command the line asks for.
    pub fn command(&self) -> (result: &Command)
        ensures
            result@ == self.command_view(),
    {
        &self.command
    }
}

} // verus!
