use lib::cli::{Cli, Command};

fn parse(args: &[&str]) -> Command {
    Cli::parse_from(args.iter().map(|a| a.to_string()).collect()).command().clone()
}

fn invalid_message(command: &Command) -> String {
    match command {
        Command::Invalid { diagnostic } => diagnostic.message().to_string(),
        _ => panic!("expected an invalid command"),
    }
}

#[test]
fn reads_file_commands() {
    assert_eq!(parse(&["gluauc", "check", "main.glu"]), Command::Check { file: "main.glu".to_string() });
    assert_eq!(parse(&["gluauc", "build", "./src/app.glu"]), Command::Build { file: "./src/app.glu".to_string() });
    assert_eq!(parse(&["gluauc", "run", "dir/a.b.glu/"]), Command::Run { file: "dir/a.b.glu/".to_string() });
}

#[test]
fn refuses_files_without_the_glu_extension() {
    for path in ["main.lua", "dir/.glu", "x/..", "main.glu/..", "glu", "main.", "."] {
        let command = parse(&["gluauc", "build", path]);
        assert_eq!(invalid_message(&command), "GraduaLuau source files must use the .glu extension", "{path}");
    }
}

#[test]
fn file_commands_take_exactly_one_file() {
    let command = parse(&["gluauc", "check"]);
    assert_eq!(invalid_message(&command), "'check' expects exactly one .glu file");
    let command = parse(&["gluauc", "run", "a.glu", "b.glu"]);
    assert_eq!(invalid_message(&command), "'run' expects exactly one .glu file");
}

#[test]
fn version_help_and_unknown_commands() {
    assert_eq!(parse(&["gluauc"]), Command::Help);
    assert_eq!(parse(&["gluauc", "--version"]), Command::Version);
    assert_eq!(parse(&["gluauc", "-h"]), Command::Help);
    assert_eq!(invalid_message(&parse(&["gluauc", "version", "x"])), "'version' does not accept arguments");
    let command = parse(&["gluc", "bulid", "main.glu"]);
    assert_eq!(invalid_message(&command), "unknown command 'bulid'");
    match command {
        Command::Invalid { diagnostic } => {
            assert!(diagnostic.to_string().contains("run 'gluc help' to see available commands"));
        },
        _ => panic!("expected an invalid command"),
    }
}
