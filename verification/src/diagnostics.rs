//! Compiler diagnostics: their construction and their rendering against the
//! source files they point into.
use vstd::prelude::*;

use crate::source::{
    file_of, line_end_of, line_text_of, location_of, saturating_succ, FileId, SourceFile,
    SourceFileView, SourceManager, SourceSpan,
};
use vstd::std_specs::iter::IteratorSpec;
use crate::text::{decimal, push_decimal, push_repeat, push_str, repeat_char, to_owned_string};

verus! {

// ---------------------------------------------------------------------------
// Severity
// ---------------------------------------------------------------------------

#[derive(Debug, Clone, Copy, PartialEq, Eq, Structural)]
pub enum Severity {
    Error,
    Warning,
    Note,
    InternalCompilerError,
}

/// The word by which a severity is shown.
pub open spec fn severity_text(severity: Severity) -> Seq<char> {
    match severity {
        Severity::Error => "error"@,
        Severity::Warning => "warning"@,
        Severity::Note => "note"@,
        Severity::InternalCompilerError => "internal compiler error"@,
    }
}

/// Errors and internal compiler errors stop a compilation.
pub open spec fn severity_is_error(severity: Severity) -> bool {
    severity is Error || severity is InternalCompilerError
}

impl Severity {
    pub fn is_error(self) -> (result: bool)
        ensures
            result == severity_is_error(self),
    {
        match self {
            Severity::Error | Severity::InternalCompilerError => true,
            _ => false,
        }
    }

    /// The word by which this severity is shown.
    pub fn as_str(self) -> (result: &'static str)
        ensures
            result@ == severity_text(self),
    {
        match self {
            Severity::Error => "error",
            Severity::Warning => "warning",
            Severity::Note => "note",
            Severity::InternalCompilerError => "internal compiler error",
        }
    }
}

// ---------------------------------------------------------------------------
// Labels and notes
// ---------------------------------------------------------------------------

#[derive(Debug, Clone, Copy, PartialEq, Eq, Structural)]
enum LabelStyle {
    Primary,
    Secondary,
}

/// A span of source text with a short message attached to it.
#[derive(Debug, Clone, PartialEq, Eq)]
pub struct DiagnosticLabel {
    span: SourceSpan,
    message: String,
    style: LabelStyle,
}

/// The content of a `DiagnosticLabel`.
pub struct LabelView {
    pub span: SourceSpan,
    pub message: Seq<char>,
    pub primary: bool,
}

impl View for DiagnosticLabel {
    type V = LabelView;

    closed spec fn view(&self) -> LabelView {
        LabelView { span: self.span, message: self.message@, primary: self.style == LabelStyle::Primary }
    }
}

impl DiagnosticLabel {
    pub fn primary(span: SourceSpan, message: &str) -> (result: Self)
        ensures
            result@ == (LabelView { span, message: message@, primary: true }),
    {
        DiagnosticLabel { span, message: to_owned_string(message), style: LabelStyle::Primary }
    }

    pub fn secondary(span: SourceSpan, message: &str) -> (result: Self)
        ensures
            result@ == (LabelView { span, message: message@, primary: false }),
    {
        DiagnosticLabel { span, message: to_owned_string(message), style: LabelStyle::Secondary }
    }

    fn is_primary(&self) -> (result: bool)
        ensures
            result == self@.primary,
    {
        match self.style {
            LabelStyle::Primary => true,
            LabelStyle::Secondary => false,
        }
    }

    fn clone_label(&self) -> (result: Self)
        ensures
            result@ == self@,
    {
        DiagnosticLabel { span: self.span, message: self.message.clone(), style: self.style }
    }
}

/// A remark attached to a diagnostic, possibly pointing at a span.
#[derive(Debug, Clone, PartialEq, Eq)]
struct DiagnosticNote {
    span: Option<SourceSpan>,
    message: String,
}

/// The content of a note.
pub struct NoteView {
    pub span: Option<SourceSpan>,
    pub message: Seq<char>,
}

impl View for DiagnosticNote {
    type V = NoteView;

    closed spec fn view(&self) -> NoteView {
        NoteView { span: self.span, message: self.message@ }
    }
}

impl DiagnosticNote {
    fn plain(message: &str) -> (result: Self)
        ensures
            result@ == (NoteView { span: None, message: message@ }),
    {
        DiagnosticNote { span: None, message: to_owned_string(message) }
    }

    fn with_span(span: SourceSpan, message: &str) -> (result: Self)
        ensures
            result@ == (NoteView { span: Some(span), message: message@ }),
    {
        DiagnosticNote { span: Some(span), message: to_owned_string(message) }
    }
}

pub open spec fn opt_chars(o: Option<String>) -> Option<Seq<char>> {
    match o {
        Some(s) => Some(s@),
        None => None,
    }
}

// ---------------------------------------------------------------------------
// Diagnostic
// ---------------------------------------------------------------------------

/// A message of the compiler to its user.
#[derive(Debug, Clone, PartialEq, Eq)]
pub struct Diagnostic {
    severity: Severity,
    message: String,
    labels: Vec<DiagnosticLabel>,
    notes: Vec<DiagnosticNote>,
    help: Option<String>,
    suggestion: Option<String>,
}

/// The content of a `Diagnostic`.
pub struct DiagnosticView {
    pub severity: Severity,
    pub message: Seq<char>,
    pub labels: Seq<LabelView>,
    pub notes: Seq<NoteView>,
    pub help: Option<Seq<char>>,
    pub suggestion: Option<Seq<char>>,
}

impl View for Diagnostic {
    type V = DiagnosticView;

    closed spec fn view(&self) -> DiagnosticView {
        DiagnosticView {
            severity: self.severity,
            message: self.message@,
            labels: self.labels@.map_values(|l: DiagnosticLabel| l@),
            notes: self.notes@.map_values(|n: DiagnosticNote| n@),
            help: opt_chars(self.help),
            suggestion: opt_chars(self.suggestion),
        }
    }
}

/// A diagnostic with the given severity and message and nothing else.
pub open spec fn plain_diagnostic(severity: Severity, message: Seq<char>) -> DiagnosticView {
    DiagnosticView {
        severity,
        message,
        labels: Seq::empty(),
        notes: Seq::empty(),
        help: None,
        suggestion: None,
    }
}

impl Diagnostic {
    pub fn builder(severity: Severity) -> (result: DiagnosticBuilder)
        ensures
            result@ == empty_builder(severity),
    {
        DiagnosticBuilder::new(severity)
    }

    pub fn new(severity: Severity, message: &str) -> (result: Self)
        ensures
            result@ == plain_diagnostic(severity, message@),
    {
        Self::builder(severity).message(message).build()
    }

    pub fn error(message: &str) -> (result: Self)
        ensures
            result@ == plain_diagnostic(Severity::Error, message@),
    {
        Self::new(Severity::Error, message)
    }

    pub fn warning(message: &str) -> (result: Self)
        ensures
            result@ == plain_diagnostic(Severity::Warning, message@),
    {
        Self::new(Severity::Warning, message)
    }

    pub fn note(message: &str) -> (result: Self)
        ensures
            result@ == plain_diagnostic(Severity::Note, message@),
    {
        Self::new(Severity::Note, message)
    }

    /// An internal compiler error, which always asks the user to report it.
    pub fn internal_compiler_error(message: &str) -> (result: Self)
        ensures
            result@ == (DiagnosticView {
                notes: seq![NoteView { span: None, message: "please report this issue"@ }],
                ..plain_diagnostic(Severity::InternalCompilerError, message@)
            }),
    {
        Self::builder(Severity::InternalCompilerError).message(message).note(
            "please report this issue",
        ).build()
    }

    pub fn with_span(self, span: SourceSpan) -> (result: Self)
        ensures
            result@ == (DiagnosticView {
                labels: self@.labels.push(LabelView { span, message: Seq::empty(), primary: true }),
                ..self@
            }),
    {
        let mut d = self;
        proof {
            reveal_strlit("");
            assert(""@ =~= Seq::<char>::empty());
        }
        let label = DiagnosticLabel::primary(span, "");
        d.labels.push(label);
        assert(d@.labels =~= self@.labels.push(label@));
        d
    }

    pub fn with_label(self, span: SourceSpan, message: &str) -> (result: Self)
        ensures
            result@ == (DiagnosticView {
                labels: self@.labels.push(LabelView { span, message: message@, primary: true }),
                ..self@
            }),
    {
        let mut d = self;
        let label = DiagnosticLabel::primary(span, message);
        d.labels.push(label);
        assert(d@.labels =~= self@.labels.push(label@));
        d
    }

    pub fn with_secondary_label(self, span: SourceSpan, message: &str) -> (result: Self)
        ensures
            result@ == (DiagnosticView {
                labels: self@.labels.push(LabelView { span, message: message@, primary: false }),
                ..self@
            }),
    {
        let mut d = self;
        let label = DiagnosticLabel::secondary(span, message);
        d.labels.push(label);
        assert(d@.labels =~= self@.labels.push(label@));
        d
    }

    pub fn with_note(self, note: &str) -> (result: Self)
        ensures
            result@ == (DiagnosticView {
                notes: self@.notes.push(NoteView { span: None, message: note@ }),
                ..self@
            }),
    {
        let mut d = self;
        let n = DiagnosticNote::plain(note);
        d.notes.push(n);
        assert(d@.notes =~= self@.notes.push(n@));
        d
    }

    pub fn with_note_at(self, span: SourceSpan, note: &str) -> (result: Self)
        ensures
            result@ == (DiagnosticView {
                notes: self@.notes.push(NoteView { span: Some(span), message: note@ }),
                ..self@
            }),
    {
        let mut d = self;
        let n = DiagnosticNote::with_span(span, note);
        d.notes.push(n);
        assert(d@.notes =~= self@.notes.push(n@));
        d
    }

    pub fn with_help(self, help: &str) -> (result: Self)
        ensures
            result@ == (DiagnosticView { help: Some(help@), ..self@ }),
    {
        let mut d = self;
        d.help = Some(to_owned_string(help));
        d
    }

    pub fn with_suggestion(self, suggestion: &str) -> (result: Self)
        ensures
            result@ == (DiagnosticView { suggestion: Some(suggestion@), ..self@ }),
    {
        let mut d = self;
        d.suggestion = Some(to_owned_string(suggestion));
        d
    }

    pub fn severity(&self) -> (result: Severity)
        ensures
            result == self@.severity,
    {
        self.severity
    }

    pub fn message(&self) -> (result: &str)
        ensures
            result@ == self@.message,
    {
        self.message.as_str()
    }

    /// A copy of this diagnostic.
    pub fn duplicate(&self) -> (result: Self)
        ensures
            result@ == self@,
    {
        let mut labels: Vec<DiagnosticLabel> = Vec::new();
        let mut i: usize = 0;
        while i < self.labels.len()
            invariant
                i <= self.labels@.len(),
                labels@.len() == i,
                forall|k: int| 0 <= k < i ==> (#[trigger] labels@[k])@ == self.labels@[k]@,
            decreases self.labels@.len() - i,
        {
            labels.push(self.labels[i].clone_label());
            i = i + 1;
        }
        let mut notes: Vec<DiagnosticNote> = Vec::new();
        let mut j: usize = 0;
        while j < self.notes.len()
            invariant
                j <= self.notes@.len(),
                notes@.len() == j,
                forall|k: int| 0 <= k < j ==> (#[trigger] notes@[k])@ == self.notes@[k]@,
            decreases self.notes@.len() - j,
        {
            let n = &self.notes[j];
            notes.push(DiagnosticNote { span: n.span, message: n.message.clone() });
            j = j + 1;
        }
        let help = match &self.help {
            Some(h) => Some(h.clone()),
            None => None,
        };
        let suggestion = match &self.suggestion {
            Some(s) => Some(s.clone()),
            None => None,
        };
        let result = Diagnostic {
            severity: self.severity,
            message: self.message.clone(),
            labels,
            notes,
            help,
            suggestion,
        };
        assert(result@.labels =~= self@.labels);
        assert(result@.notes =~= self@.notes);
        result
    }

    /// The first primary label.
    fn primary_label(&self) -> (result: Option<&DiagnosticLabel>)
        ensures
            result matches Some(l) ==> first_primary(self@.labels) == Some(l@),
            result is None ==> first_primary(self@.labels) is None,
    {
        let mut i: usize = 0;
        assert(self@.labels.skip(0) =~= self@.labels);
        while i < self.labels.len()
            invariant
                i <= self.labels@.len(),
                first_primary(self@.labels) == first_primary(self@.labels.skip(i as int)),
            decreases self.labels@.len() - i,
        {
            if self.labels[i].is_primary() {
                return Some(&self.labels[i]);
            }
            assert(self@.labels.skip(i as int).drop_first() =~= self@.labels.skip(i + 1));
            i = i + 1;
        }
        None
    }

    /// The diagnostic with every source location resolved, in the form shown
    /// to the user.
    pub fn render(&self, sources: &SourceManager) -> (result: String)
        ensures
            result@ == render_text(self@, sources@),
    {
        let mut output = String::new();
        push_str(&mut output, self.severity.as_str());
        push_str(&mut output, ":\n");
        push_str(&mut output, self.message.as_str());
        push_str(&mut output, "\n");
        let ghost head = output@;

        match self.primary_label() {
            Some(primary) => render_source_label(&mut output, sources, primary),
            None => {},
        }
        let ghost after_primary = output@;
        assert(after_primary == head + primary_text(self@.labels, sources@));

        let mut i: usize = 0;
        while i < self.labels.len()
            invariant
                i <= self.labels@.len(),
                output@ == after_primary + related_labels_text(
                    self@.labels.subrange(0, i as int),
                    sources@,
                ),
            decreases self.labels@.len() - i,
        {
            let label = &self.labels[i];
            if !label.is_primary() {
                render_related_label(&mut output, sources, label);
            }
            assert(self@.labels.subrange(0, i + 1).drop_last() =~= self@.labels.subrange(
                0,
                i as int,
            ));
            i = i + 1;
        }
        assert(self@.labels.subrange(0, self@.labels.len() as int) =~= self@.labels);
        let ghost after_labels = output@;

        let mut j: usize = 0;
        while j < self.notes.len()
            invariant
                j <= self.notes@.len(),
                output@ == after_labels + notes_text(self@.notes.subrange(0, j as int), sources@),
            decreases self.notes@.len() - j,
        {
            let note = &self.notes[j];
            match note.span {
                Some(span) => {
                    push_str(&mut output, "note:\n");
                    push_str(&mut output, note.message.as_str());
                    push_str(&mut output, "\n");
                    render_related_span(&mut output, sources, span);
                },
                None => {
                    push_str(&mut output, "note: ");
                    push_str(&mut output, note.message.as_str());
                    push_str(&mut output, "\n");
                },
            }
            assert(self@.notes.subrange(0, j + 1).drop_last() =~= self@.notes.subrange(
                0,
                j as int,
            ));
            j = j + 1;
        }
        assert(self@.notes.subrange(0, self@.notes.len() as int) =~= self@.notes);

        if let Some(help) = &self.help {
            push_str(&mut output, "help: ");
            push_str(&mut output, help.as_str());
            push_str(&mut output, "\n");
        }
        if let Some(suggestion) = &self.suggestion {
            push_str(&mut output, "suggestion: ");
            push_str(&mut output, suggestion.as_str());
            push_str(&mut output, "\n");
        }
        assert(output@ =~= render_text(self@, sources@));
        output
    }

    /// The short form of the diagnostic, without source excerpts.
    pub fn to_string(&self) -> (result: String)
        ensures
            result@ == short_text(self@),
    {
        let mut output = String::new();
        push_str(&mut output, self.severity.as_str());
        push_str(&mut output, ": ");
        push_str(&mut output, self.message.as_str());
        push_str(&mut output, "\n");
        let ghost head = output@;
        let mut j: usize = 0;
        while j < self.notes.len()
            invariant
                j <= self.notes@.len(),
                output@ == head + short_notes_text(self@.notes.subrange(0, j as int)),
            decreases self.notes@.len() - j,
        {
            push_str(&mut output, "  note: ");
            push_str(&mut output, self.notes[j].message.as_str());
            push_str(&mut output, "\n");
            assert(self@.notes.subrange(0, j + 1).drop_last() =~= self@.notes.subrange(
                0,
                j as int,
            ));
            j = j + 1;
        }
        assert(self@.notes.subrange(0, self@.notes.len() as int) =~= self@.notes);
        if let Some(help) = &self.help {
            push_str(&mut output, "  help: ");
            push_str(&mut output, help.as_str());
            push_str(&mut output, "\n");
        }
        if let Some(suggestion) = &self.suggestion {
            push_str(&mut output, "  suggestion: ");
            push_str(&mut output, suggestion.as_str());
            push_str(&mut output, "\n");
        }
        assert(output@ =~= short_text(self@));
        output
    }
}

// ---------------------------------------------------------------------------
// The rendered form, stated
// ---------------------------------------------------------------------------

pub open spec fn opt_text(prefix: Seq<char>, o: Option<Seq<char>>) -> Seq<char> {
    match o {
        Some(t) => prefix + t + "\n"@,
        None => Seq::empty(),
    }
}

/// The first primary label of a list.
pub open spec fn first_primary(labels: Seq<LabelView>) -> Option<LabelView>
    decreases labels.len(),
{
    if labels.len() == 0 {
        None
    } else if labels[0].primary {
        Some(labels[0])
    } else {
        first_primary(labels.drop_first())
    }
}

/// The line shown for a file identifier that names no registered file.
pub open spec fn missing_file_text(id: FileId) -> Seq<char> {
    " --> <unknown file FileId("@ + decimal(id.0 as nat) + ")>\n"@
}

/// The number of carets under a span, on the line where it starts: the span
/// is cut at the end of that line, and is at least one character wide.
pub open spec fn underline_width_of(span: SourceSpan, file: SourceFileView) -> int {
    match location_of(file.bytes, span.start as int) {
        None => 1,
        Some(loc) => {
            let line_end = match line_end_of(file.bytes, loc.line as nat) {
                Some(e) => e,
                None => span.end as int,
            };
            let cut = if span.end < line_end { span.end as int } else { line_end };
            let end = if cut > saturating_succ(span.start as int) {
                cut
            } else {
                saturating_succ(span.start as int) as int
            };
            if end - span.start >= 1 {
                end - span.start
            } else {
                1
            }
        },
    }
}

/// A position line: ` --> path:line:column`.
pub open spec fn position_text(path: Seq<char>, line: usize, column: usize) -> Seq<char> {
    " --> "@ + path + ":"@ + decimal(line as nat) + ":"@ + decimal(column as nat) + "\n"@
}

/// The blank gutter line and the numbered source line of an excerpt.
pub open spec fn source_line_text(line: usize, line_text: Seq<char>) -> Seq<char> {
    repeat_char(' ', (decimal(line as nat).len() - 1) as nat) + " |\n"@ + decimal(line as nat)
        + " | "@ + line_text + "\n"@
}

/// The caret line of an excerpt: `width` carets starting under `column`,
/// then the message.
pub open spec fn caret_line_text(line: usize, column: usize, width: nat, message: Seq<char>) -> Seq<
    char,
> {
    let caret_start = if column >= 1 { column - 1 } else { 0 };
    repeat_char(' ', (decimal(line as nat).len() - 1) as nat) + " | "@ + repeat_char(
        ' ',
        caret_start as nat,
    ) + repeat_char('^', width) + (if message.len() == 0 {
        Seq::empty()
    } else {
        " "@ + message
    }) + "\n"@
}

/// The lines of a source excerpt: the position, the source line, and a row
/// of `width` carets starting under `column`, followed by the message.
pub open spec fn excerpt_text(
    path: Seq<char>,
    line: usize,
    column: usize,
    line_text: Seq<char>,
    width: nat,
    message: Seq<char>,
) -> Seq<char> {
    "\n"@ + position_text(path, line, column) + source_line_text(line, line_text) + caret_line_text(
        line,
        column,
        width,
        message,
    )
}

/// The excerpt shown for a primary label: the file position, the source line
/// and a row of carets under the labelled text, followed by the message.
pub open spec fn source_label_text(label: LabelView, files: Seq<SourceFileView>) -> Seq<char> {
    match file_of(files, label.span.file_id) {
        None => missing_file_text(label.span.file_id),
        Some(file) => match location_of(file.bytes, label.span.start as int) {
            None => " --> <invalid source location>\n"@,
            Some(loc) => excerpt_text(
                file.path,
                loc.line,
                loc.column,
                match line_text_of(file.bytes, loc.line as nat) {
                    Some(t) => t,
                    None => Seq::empty(),
                },
                underline_width_of(label.span, file) as nat,
                label.message,
            ),
        },
    }
}

/// The position line shown for a secondary span.
pub open spec fn related_span_text(span: SourceSpan, files: Seq<SourceFileView>) -> Seq<char> {
    match file_of(files, span.file_id) {
        None => missing_file_text(span.file_id),
        Some(file) => match location_of(file.bytes, span.start as int) {
            Some(loc) => position_text(file.path, loc.line, loc.column),
            None => " --> <invalid source location>\n"@,
        },
    }
}

pub open spec fn related_label_text(label: LabelView, files: Seq<SourceFileView>) -> Seq<char> {
    "related:\n"@ + (if label.message.len() == 0 {
        Seq::empty()
    } else {
        label.message + "\n"@
    }) + related_span_text(label.span, files)
}

/// The text shown for the secondary labels of a list, in order.
pub open spec fn related_labels_text(labels: Seq<LabelView>, files: Seq<SourceFileView>) -> Seq<
    char,
>
    decreases labels.len(),
{
    if labels.len() == 0 {
        Seq::empty()
    } else {
        related_labels_text(labels.drop_last(), files) + if labels.last().primary {
            Seq::empty()
        } else {
            related_label_text(labels.last(), files)
        }
    }
}

pub open spec fn note_text(note: NoteView, files: Seq<SourceFileView>) -> Seq<char> {
    match note.span {
        Some(span) => "note:\n"@ + note.message + "\n"@ + related_span_text(span, files),
        None => "note: "@ + note.message + "\n"@,
    }
}

pub open spec fn notes_text(notes: Seq<NoteView>, files: Seq<SourceFileView>) -> Seq<char>
    decreases notes.len(),
{
    if notes.len() == 0 {
        Seq::empty()
    } else {
        notes_text(notes.drop_last(), files) + note_text(notes.last(), files)
    }
}

pub open spec fn primary_text(labels: Seq<LabelView>, files: Seq<SourceFileView>) -> Seq<char> {
    match first_primary(labels) {
        Some(l) => source_label_text(l, files),
        None => Seq::empty(),
    }
}

/// The full rendering of a diagnostic: severity and message, the excerpt of
/// its first primary label, its secondary labels, its notes, its help and its
/// suggestion.
pub open spec fn render_text(d: DiagnosticView, files: Seq<SourceFileView>) -> Seq<char> {
    severity_text(d.severity) + ":\n"@ + d.message + "\n"@ + primary_text(d.labels, files)
        + related_labels_text(d.labels, files) + notes_text(d.notes, files) + opt_text(
        "help: "@,
        d.help,
    ) + opt_text("suggestion: "@, d.suggestion)
}

pub open spec fn short_notes_text(notes: Seq<NoteView>) -> Seq<char>
    decreases notes.len(),
{
    if notes.len() == 0 {
        Seq::empty()
    } else {
        short_notes_text(notes.drop_last()) + "  note: "@ + notes.last().message + "\n"@
    }
}

/// The one-paragraph form of a diagnostic, without source excerpts.
pub open spec fn short_text(d: DiagnosticView) -> Seq<char> {
    severity_text(d.severity) + ": "@ + d.message + "\n"@ + short_notes_text(d.notes) + opt_text(
        "  help: "@,
        d.help,
    ) + opt_text("  suggestion: "@, d.suggestion)
}

// ---------------------------------------------------------------------------
// Rendering helpers
// ---------------------------------------------------------------------------

/// The number of decimal digits of `n`.
fn decimal_len(n: usize) -> (result: usize)
    ensures
        result == decimal(n as nat).len(),
        1 <= result <= n + 1,
    decreases n,
{
    if n < 10 {
        1
    } else {
        let r = decimal_len(n / 10);
        proof {
            assert(decimal(n as nat) == decimal((n / 10) as nat).push(
                crate::text::digit_char((n % 10) as nat),
            ));
        }
        r + 1
    }
}

fn render_missing_file(output: &mut String, file_id: FileId)
    ensures
        final(output)@ == old(output)@ + missing_file_text(file_id),
{
    push_str(output, " --> <unknown file FileId(");
    push_decimal(output, file_id.0);
    push_str(output, ")>\n");
    assert(final(output)@ =~= old(output)@ + missing_file_text(file_id));
}

fn underline_width(span: SourceSpan, file: &SourceFile) -> (result: usize)
    ensures
        result == underline_width_of(span, file@),
{
    let location = match file.location(span.start()) {
        Some(location) => location,
        None => return 1,
    };
    let line_end = match file.line_end(location.line) {
        Some(e) => e,
        None => span.end(),
    };
    let cut = if span.end() < line_end {
        span.end()
    } else {
        line_end
    };
    let lower = span.start().saturating_add(1);
    let end = if cut > lower {
        cut
    } else {
        lower
    };
    let width = end.saturating_sub(span.start());
    if width >= 1 {
        width
    } else {
        1
    }
}

fn render_position(output: &mut String, path: &str, line: usize, column: usize)
    ensures
        final(output)@ == old(output)@ + position_text(path@, line, column),
{
    let ghost o = old(output)@;
    push_str(output, " --> ");
    push_str(output, path);
    push_str(output, ":");
    push_decimal(output, line);
    push_str(output, ":");
    push_decimal(output, column);
    push_str(output, "\n");
    assert(output@ =~= o + position_text(path@, line, column));
}

fn render_source_line(output: &mut String, line: usize, line_text: &str)
    ensures
        final(output)@ == old(output)@ + source_line_text(line, line_text@),
{
    let ghost o = old(output)@;
    let line_number_width = decimal_len(line);
    push_repeat(output, ' ', line_number_width - 1);
    push_str(output, " |\n");
    push_decimal(output, line);
    push_str(output, " | ");
    push_str(output, line_text);
    push_str(output, "\n");
    assert(output@ =~= o + source_line_text(line, line_text@));
}

fn render_caret_line(output: &mut String, line: usize, column: usize, width: usize, message: &str)
    ensures
        final(output)@ == old(output)@ + caret_line_text(line, column, width as nat, message@),
{
    let ghost o = old(output)@;
    let line_number_width = decimal_len(line);
    let caret_start = if column >= 1 {
        column - 1
    } else {
        0
    };
    push_repeat(output, ' ', line_number_width - 1);
    push_str(output, " | ");
    push_repeat(output, ' ', caret_start);
    push_repeat(output, '^', width);
    let ghost mid = output@;
    if !message.is_empty() {
        push_str(output, " ");
        push_str(output, message);
    }
    push_str(output, "\n");
    assert(output@ =~= o + caret_line_text(line, column, width as nat, message@));
}

fn render_excerpt(
    output: &mut String,
    path: &str,
    line: usize,
    column: usize,
    line_text: &str,
    width: usize,
    message: &str,
)
    ensures
        final(output)@ == old(output)@ + excerpt_text(
            path@,
            line,
            column,
            line_text@,
            width as nat,
            message@,
        ),
{
    let ghost o = old(output)@;
    push_str(output, "\n");
    render_position(output, path, line, column);
    render_source_line(output, line, line_text);
    render_caret_line(output, line, column, width, message);
    assert(output@ =~= o + excerpt_text(path@, line, column, line_text@, width as nat, message@));
}

fn render_source_label(output: &mut String, sources: &SourceManager, label: &DiagnosticLabel)
    ensures
        final(output)@ == old(output)@ + source_label_text(label@, sources@),
{
    let file = match sources.get(label.span.file_id()) {
        Some(file) => file,
        None => {
            render_missing_file(output, label.span.file_id());
            return;
        },
    };
    let location = match file.location(label.span.start()) {
        Some(location) => location,
        None => {
            push_str(output, " --> <invalid source location>\n");
            return;
        },
    };
    let line_text = match file.line_text(location.line) {
        Some(t) => t,
        None => String::new(),
    };
    let width = underline_width(label.span, file);
    render_excerpt(
        output,
        file.path(),
        location.line,
        location.column,
        line_text.as_str(),
        width,
        label.message.as_str(),
    );
}

fn render_related_label(output: &mut String, sources: &SourceManager, label: &DiagnosticLabel)
    ensures
        final(output)@ == old(output)@ + related_label_text(label@, sources@),
{
    push_str(output, "related:\n");
    if !label.message.as_str().is_empty() {
        push_str(output, label.message.as_str());
        push_str(output, "\n");
    }
    render_related_span(output, sources, label.span);
    assert(final(output)@ =~= old(output)@ + related_label_text(label@, sources@));
}

fn render_related_span(output: &mut String, sources: &SourceManager, span: SourceSpan)
    ensures
        final(output)@ == old(output)@ + related_span_text(span, sources@),
{
    let file = match sources.get(span.file_id()) {
        Some(file) => file,
        None => {
            render_missing_file(output, span.file_id());
            return;
        },
    };
    match file.location(span.start()) {
        Some(location) => {
            render_position(output, file.path(), location.line, location.column);
        },
        None => push_str(output, " --> <invalid source location>\n"),
    }
    assert(final(output)@ =~= old(output)@ + related_span_text(span, sources@));
}

// ---------------------------------------------------------------------------
// Builder
// ---------------------------------------------------------------------------

/// Collects the parts of a diagnostic before it is built.
#[derive(Debug, Clone)]
pub struct DiagnosticBuilder {
    severity: Severity,
    message: Option<String>,
    labels: Vec<DiagnosticLabel>,
    notes: Vec<DiagnosticNote>,
    help: Option<String>,
    suggestion: Option<String>,
}

/// The content of a `DiagnosticBuilder`.
pub struct BuilderView {
    pub severity: Severity,
    pub message: Option<Seq<char>>,
    pub labels: Seq<LabelView>,
    pub notes: Seq<NoteView>,
    pub help: Option<Seq<char>>,
    pub suggestion: Option<Seq<char>>,
}

impl View for DiagnosticBuilder {
    type V = BuilderView;

    closed spec fn view(&self) -> BuilderView {
        BuilderView {
            severity: self.severity,
            message: opt_chars(self.message),
            labels: self.labels@.map_values(|l: DiagnosticLabel| l@),
            notes: self.notes@.map_values(|n: DiagnosticNote| n@),
            help: opt_chars(self.help),
            suggestion: opt_chars(self.suggestion),
        }
    }
}

pub open spec fn empty_builder(severity: Severity) -> BuilderView {
    BuilderView {
        severity,
        message: None,
        labels: Seq::empty(),
        notes: Seq::empty(),
        help: None,
        suggestion: None,
    }
}

/// What `build` makes of a builder: a missing message reads "diagnostic".
pub open spec fn built(b: BuilderView) -> DiagnosticView {
    DiagnosticView {
        severity: b.severity,
        message: match b.message {
            Some(m) => m,
            None => "diagnostic"@,
        },
        labels: b.labels,
        notes: b.notes,
        help: b.help,
        suggestion: b.suggestion,
    }
}

impl DiagnosticBuilder {
    fn new(severity: Severity) -> (result: Self)
        ensures
            result@ == empty_builder(severity),
    {
        let result = DiagnosticBuilder {
            severity,
            message: None,
            labels: Vec::new(),
            notes: Vec::new(),
            help: None,
            suggestion: None,
        };
        assert(result@.labels =~= Seq::<LabelView>::empty());
        assert(result@.notes =~= Seq::<NoteView>::empty());
        result
    }

    pub fn message(self, message: &str) -> (result: Self)
        ensures
            result@ == (BuilderView { message: Some(message@), ..self@ }),
    {
        let mut b = self;
        b.message = Some(to_owned_string(message));
        b
    }

    pub fn span(self, span: SourceSpan) -> (result: Self)
        ensures
            result@ == (BuilderView {
                labels: self@.labels.push(LabelView { span, message: Seq::empty(), primary: true }),
                ..self@
            }),
    {
        let mut b = self;
        proof {
            reveal_strlit("");
            assert(""@ =~= Seq::<char>::empty());
        }
        let label = DiagnosticLabel::primary(span, "");
        b.labels.push(label);
        assert(b@.labels =~= self@.labels.push(label@));
        b
    }

    pub fn label(self, span: SourceSpan, message: &str) -> (result: Self)
        ensures
            result@ == (BuilderView {
                labels: self@.labels.push(LabelView { span, message: message@, primary: true }),
                ..self@
            }),
    {
        let mut b = self;
        let label = DiagnosticLabel::primary(span, message);
        b.labels.push(label);
        assert(b@.labels =~= self@.labels.push(label@));
        b
    }

    pub fn secondary_label(self, span: SourceSpan, message: &str) -> (result: Self)
        ensures
            result@ == (BuilderView {
                labels: self@.labels.push(LabelView { span, message: message@, primary: false }),
                ..self@
            }),
    {
        let mut b = self;
        let label = DiagnosticLabel::secondary(span, message);
        b.labels.push(label);
        assert(b@.labels =~= self@.labels.push(label@));
        b
    }

    pub fn note(self, note: &str) -> (result: Self)
        ensures
            result@ == (BuilderView {
                notes: self@.notes.push(NoteView { span: None, message: note@ }),
                ..self@
            }),
    {
        let mut b = self;
        let n = DiagnosticNote::plain(note);
        b.notes.push(n);
        assert(b@.notes =~= self@.notes.push(n@));
        b
    }

    pub fn note_at(self, span: SourceSpan, note: &str) -> (result: Self)
        ensures
            result@ == (BuilderView {
                notes: self@.notes.push(NoteView { span: Some(span), message: note@ }),
                ..self@
            }),
    {
        let mut b = self;
        let n = DiagnosticNote::with_span(span, note);
        b.notes.push(n);
        assert(b@.notes =~= self@.notes.push(n@));
        b
    }

    pub fn help(self, help: &str) -> (result: Self)
        ensures
            result@ == (BuilderView { help: Some(help@), ..self@ }),
    {
        let mut b = self;
        b.help = Some(to_owned_string(help));
        b
    }

    pub fn suggestion(self, suggestion: &str) -> (result: Self)
        ensures
            result@ == (BuilderView { suggestion: Some(suggestion@), ..self@ }),
    {
        let mut b = self;
        b.suggestion = Some(to_owned_string(suggestion));
        b
    }

    pub fn build(self) -> (result: Diagnostic)
        ensures
            result@ == built(self@),
    {
        let message = match self.message {
            Some(m) => m,
            None => to_owned_string("diagnostic"),
        };
        Diagnostic {
            severity: self.severity,
            message,
            labels: self.labels,
            notes: self.notes,
            help: self.help,
            suggestion: self.suggestion,
        }
    }
}

// ---------------------------------------------------------------------------
// DiagnosticBag
// ---------------------------------------------------------------------------

/// The diagnostics gathered during a compilation, in the order reported.
#[derive(Debug, Clone, PartialEq, Eq)]
pub struct DiagnosticBag {
    diagnostics: Vec<Diagnostic>,
}

impl View for DiagnosticBag {
    type V = Seq<DiagnosticView>;

    closed spec fn view(&self) -> Seq<DiagnosticView> {
        self.diagnostics@.map_values(|d: Diagnostic| d@)
    }
}

/// Whether any diagnostic of the list is an error.
pub open spec fn any_error(ds: Seq<DiagnosticView>) -> bool {
    exists|i: int| 0 <= i < ds.len() && severity_is_error(#[trigger] ds[i].severity)
}

/// The renderings of the diagnostics of a list, one after the other, with a
/// line feed between two of them.
pub open spec fn joined_render(ds: Seq<DiagnosticView>, files: Seq<SourceFileView>) -> Seq<char>
    decreases ds.len(),
{
    if ds.len() == 0 {
        Seq::empty()
    } else if ds.len() == 1 {
        render_text(ds[0], files)
    } else {
        joined_render(ds.drop_last(), files) + "\n"@ + render_text(ds.last(), files)
    }
}

impl DiagnosticBag {
    pub fn new() -> (result: Self)
        ensures
            result@ == Seq::<DiagnosticView>::empty(),
    {
        let result = DiagnosticBag { diagnostics: Vec::new() };
        assert(result@ =~= Seq::<DiagnosticView>::empty());
        result
    }

    pub fn push(&mut self, diagnostic: Diagnostic)
        ensures
            final(self)@ == old(self)@.push(diagnostic@),
    {
        self.diagnostics.push(diagnostic);
        assert(self@ =~= old(self)@.push(diagnostic@));
    }

    pub fn extend(&mut self, diagnostics: Vec<Diagnostic>)
        ensures
            final(self)@ == old(self)@ + diagnostics@.map_values(|d: Diagnostic| d@),
    {
        let mut incoming = diagnostics;
        let mut appended = Vec::new();
        appended.append(&mut incoming);
        self.diagnostics.append(&mut appended);
        assert(self@ =~= old(self)@ + diagnostics@.map_values(|d: Diagnostic| d@));
    }

    /// The diagnostics, in the order reported.
    pub fn iter(&self) -> (result: std::slice::Iter<'_, Diagnostic>)
        ensures
            result.remaining().map_values(|d: &Diagnostic| d@) == self@,
    {
        broadcast use vstd::std_specs::slice::axiom_spec_slice_iter;

        let it = self.diagnostics.as_slice().iter();
        assert(it.remaining().map_values(|d: &Diagnostic| d@) =~= self@);
        it
    }

    /// The diagnostics as a slice, in the order reported.
    pub fn as_slice(&self) -> (result: &[Diagnostic])
        ensures
            result@.map_values(|d: Diagnostic| d@) == self@,
    {
        self.diagnostics.as_slice()
    }

    pub fn len(&self) -> (result: usize)
        ensures
            result == self@.len(),
    {
        self.diagnostics.len()
    }

    pub fn has_errors(&self) -> (result: bool)
        ensures
            result == any_error(self@),
    {
        let mut i: usize = 0;
        while i < self.diagnostics.len()
            invariant
                i <= self.diagnostics@.len(),
                forall|j: int| 0 <= j < i ==> !severity_is_error(#[trigger] self@[j].severity),
            decreases self.diagnostics@.len() - i,
        {
            if self.diagnostics[i].severity().is_error() {
                assert(severity_is_error(self@[i as int].severity));
                return true;
            }
            i = i + 1;
        }
        false
    }

    pub fn is_empty(&self) -> (result: bool)
        ensures
            result == (self@.len() == 0),
    {
        self.diagnostics.len() == 0
    }

    /// Every diagnostic rendered, separated by blank lines.
    pub fn render(&self, sources: &SourceManager) -> (result: String)
        ensures
            result@ == joined_render(self@, sources@),
    {
        let mut output = String::new();
        let mut i: usize = 0;
        while i < self.diagnostics.len()
            invariant
                i <= self.diagnostics@.len(),
                output@ == joined_render(self@.subrange(0, i as int), sources@),
            decreases self.diagnostics@.len() - i,
        {
            if i > 0 {
                push_str(&mut output, "\n");
            }
            let rendered = self.diagnostics[i].render(sources);
            push_str(&mut output, rendered.as_str());
            assert(self@.subrange(0, i + 1).drop_last() =~= self@.subrange(0, i as int));
            i = i + 1;
        }
        assert(self@.subrange(0, self@.len() as int) =~= self@);
        output
    }
}

} // verus!
