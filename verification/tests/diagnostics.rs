use lib::diagnostics::{Diagnostic, DiagnosticBag, Severity};
use lib::source::{SourceManager, SourceSpan};

#[test]
fn renders_line_column_and_span() {
    let mut sources = SourceManager::new();
    let file = sources.add_file("src/main.glu", String::from("local x =\nprint \"hi\"\n"));
    let span = SourceSpan::new(file, 8, 9);

    let diagnostic = Diagnostic::builder(Severity::Error)
        .message("Expected expression after '='.")
        .label(span, "expected expression")
        .help("add an expression after '='")
        .build();

    assert_eq!(
        diagnostic.render(&sources),
        "error:\nExpected expression after '='.\n\n --> src/main.glu:1:9\n |\n1 | local x =\n |         ^ expected expression\nhelp: add an expression after '='\n"
    );
}

#[test]
fn renders_notes_and_suggestions() {
    let mut sources = SourceManager::new();
    let file = sources.add_file("src/main.glu", String::from("pritn(\"hi\")"));
    let span = SourceSpan::new(file, 0, 5);

    let diagnostic = Diagnostic::error("Unknown identifier 'pritn'.")
        .with_label(span, "unknown identifier")
        .with_note("built-in functions are available without require")
        .with_suggestion("did you mean 'print'?");

    assert!(diagnostic.render(&sources).contains("note: built-in functions"));
    assert!(
        diagnostic
            .render(&sources)
            .contains("suggestion: did you mean 'print'?")
    );
}

#[test]
fn collects_multiple_diagnostics() {
    let mut bag = DiagnosticBag::new();
    bag.push(Diagnostic::error("first error"));
    bag.push(Diagnostic::warning("unused variable"));

    assert_eq!(bag.len(), 2);
    assert!(bag.has_errors());
}

#[test]
fn distinguishes_internal_compiler_errors() {
    let diagnostic = Diagnostic::internal_compiler_error("Unexpected MIR node.");

    assert_eq!(diagnostic.severity(), Severity::InternalCompilerError);
    assert!(diagnostic.severity().is_error());
    assert!(diagnostic.to_string().contains("please report this issue"));
}

#[test]
fn renders_exact_excerpt_for_second_line() {
    let mut sources = SourceManager::new();
    let file = sources.add_file("a.glu", String::from("x = 1\nprint(yy)\n"));
    let span = SourceSpan::new(file, 12, 14);
    let diagnostic = Diagnostic::warning("unused").with_label(span, "here");
    assert_eq!(
        diagnostic.render(&sources),
        "warning:\nunused\n\n --> a.glu:2:7\n |\n2 | print(yy)\n |       ^^ here\n"
    );
}

#[test]
fn underline_is_cut_at_line_end() {
    let mut sources = SourceManager::new();
    let file = sources.add_file("a.glu", String::from("abc\ndef\n"));
    let diagnostic = Diagnostic::error("e").with_span(SourceSpan::new(file, 1, 7));
    assert_eq!(
        diagnostic.render(&sources),
        "error:\ne\n\n --> a.glu:1:2\n |\n1 | abc\n |  ^^\n"
    );
}

#[test]
fn renders_secondary_labels_and_spanned_notes() {
    let mut sources = SourceManager::new();
    let file = sources.add_file("m.glu", String::from("local a = 1\nlocal a = 2\n"));
    let diagnostic = Diagnostic::error("duplicate")
        .with_secondary_label(SourceSpan::new(file, 6, 7), "first here")
        .with_note_at(SourceSpan::new(file, 18, 19), "again");
    assert_eq!(
        diagnostic.render(&sources),
        "error:\nduplicate\nrelated:\nfirst here\n --> m.glu:1:7\nnote:\nagain\n --> m.glu:2:7\n"
    );
}

#[test]
fn renders_unknown_file_and_invalid_location() {
    let mut sources = SourceManager::new();
    let file = sources.add_file("m.glu", String::from("ab"));
    let missing = Diagnostic::error("x").with_span(SourceSpan::new(lib::source::FileId::new(7), 0, 1));
    assert_eq!(missing.render(&sources), "error:\nx\n --> <unknown file FileId(7)>\n");
    let invalid = Diagnostic::error("x").with_span(SourceSpan::new(file, 9, 10));
    assert_eq!(invalid.render(&sources), "error:\nx\n --> <invalid source location>\n");
}

#[test]
fn builder_without_message_reads_diagnostic() {
    let d = Diagnostic::builder(Severity::Note).build();
    assert_eq!(d.message(), "diagnostic");
    assert_eq!(d.to_string(), "note: diagnostic\n");
}

#[test]
fn short_form_lists_notes_help_and_suggestion() {
    let d = Diagnostic::warning("w").with_note("n1").with_help("h").with_suggestion("s");
    assert_eq!(d.to_string(), "warning: w\n  note: n1\n  help: h\n  suggestion: s\n");
}

#[test]
fn bag_renders_joined_by_blank_line() {
    let sources = SourceManager::new();
    let mut bag = DiagnosticBag::new();
    assert!(bag.is_empty());
    assert!(!bag.has_errors());
    bag.push(Diagnostic::warning("a"));
    assert!(!bag.has_errors());
    bag.extend(vec![Diagnostic::note("b")]);
    assert_eq!(bag.render(&sources), "warning:\na\n\nnote:\nb\n");
    assert_eq!(bag.iter().count(), 2);
}
