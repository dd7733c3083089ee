//! The lexer: turns the bytes of a source file into tokens.
use vstd::prelude::*;

use crate::diagnostics::{plain_diagnostic, Diagnostic, DiagnosticView, LabelView, Severity};
use crate::source::{next_newline, lemma_next_newline_bounds, FileId, SourceFile, SourceSpan};
use crate::text::{bytes_as_chars, push_char, str_eq, string_from_bytes};

verus! {

/// The kind of a token, with the text it carries.
#[derive(Debug, Clone, PartialEq, Eq)]
pub enum TokenKind {
    Identifier(String),
    If,
    Then,
    Else,
    ElseIf,
    End,
    While,
    Do,
    For,
    In,
    Repeat,
    Until,
    Break,
    Continue,
    Local,
    Function,
    Return,
    And,
    Or,
    Not,
    Type,
    Export,
    Any,
    Never,
    Typeof,
    NumberLiteral(String),
    StringLiteral(String),
    InterpolatedString(String),
    True,
    False,
    Nil,
    Plus,
    Minus,
    Star,
    Slash,
    Percent,
    Caret,
    Equal,
    EqualEqual,
    NotEqual,
    Less,
    LessEqual,
    Greater,
    GreaterEqual,
    PlusEqual,
    MinusEqual,
    StarEqual,
    SlashEqual,
    PercentEqual,
    AmpersandEqual,
    PipeEqual,
    LeftParen,
    RightParen,
    LeftBracket,
    RightBracket,
    LeftBrace,
    RightBrace,
    Comma,
    Dot,
    DotDot,
    DotDotDot,
    Colon,
    Semicolon,
    Pipe,
    Ampersand,
    Question,
    Arrow,
    InterpolatedStringStart,
    InterpolatedStringEnd,
    StringText(String),
    InterpolationStart,
    InterpolationEnd,
    EOF,
    Unknown(char),
}

/// The content of a `TokenKind`, with its text as a sequence of characters.
pub enum TokenView {
    Identifier(Seq<char>),
    If,
    Then,
    Else,
    ElseIf,
    End,
    While,
    Do,
    For,
    In,
    Repeat,
    Until,
    Break,
    Continue,
    Local,
    Function,
    Return,
    And,
    Or,
    Not,
    Type,
    Export,
    Any,
    Never,
    Typeof,
    NumberLiteral(Seq<char>),
    StringLiteral(Seq<char>),
    InterpolatedString(Seq<char>),
    True,
    False,
    Nil,
    Plus,
    Minus,
    Star,
    Slash,
    Percent,
    Caret,
    Equal,
    EqualEqual,
    NotEqual,
    Less,
    LessEqual,
    Greater,
    GreaterEqual,
    PlusEqual,
    MinusEqual,
    StarEqual,
    SlashEqual,
    PercentEqual,
    AmpersandEqual,
    PipeEqual,
    LeftParen,
    RightParen,
    LeftBracket,
    RightBracket,
    LeftBrace,
    RightBrace,
    Comma,
    Dot,
    DotDot,
    DotDotDot,
    Colon,
    Semicolon,
    Pipe,
    Ampersand,
    Question,
    Arrow,
    InterpolatedStringStart,
    InterpolatedStringEnd,
    StringText(Seq<char>),
    InterpolationStart,
    InterpolationEnd,
    EOF,
    Unknown(char),
}

impl View for TokenKind {
    type V = TokenView;

    open spec fn view(&self) -> TokenView {
        match self {
            TokenKind::Identifier(s) => TokenView::Identifier(s@),
            TokenKind::If => TokenView::If,
            TokenKind::Then => TokenView::Then,
            TokenKind::Else => TokenView::Else,
            TokenKind::ElseIf => TokenView::ElseIf,
            TokenKind::End => TokenView::End,
            TokenKind::While => TokenView::While,
            TokenKind::Do => TokenView::Do,
            TokenKind::For => TokenView::For,
            TokenKind::In => TokenView::In,
            TokenKind::Repeat => TokenView::Repeat,
            TokenKind::Until => TokenView::Until,
            TokenKind::Break => TokenView::Break,
            TokenKind::Continue => TokenView::Continue,
            TokenKind::Local => TokenView::Local,
            TokenKind::Function => TokenView::Function,
            TokenKind::Return => TokenView::Return,
            TokenKind::And => TokenView::And,
            TokenKind::Or => TokenView::Or,
            TokenKind::Not => TokenView::Not,
            TokenKind::Type => TokenView::Type,
            TokenKind::Export => TokenView::Export,
            TokenKind::Any => TokenView::Any,
            TokenKind::Never => TokenView::Never,
            TokenKind::Typeof => TokenView::Typeof,
            TokenKind::NumberLiteral(s) => TokenView::NumberLiteral(s@),
            TokenKind::StringLiteral(s) => TokenView::StringLiteral(s@),
            TokenKind::InterpolatedString(s) => TokenView::InterpolatedString(s@),
            TokenKind::True => TokenView::True,
            TokenKind::False => TokenView::False,
            TokenKind::Nil => TokenView::Nil,
            TokenKind::Plus => TokenView::Plus,
            TokenKind::Minus => TokenView::Minus,
            TokenKind::Star => TokenView::Star,
            TokenKind::Slash => TokenView::Slash,
            TokenKind::Percent => TokenView::Percent,
            TokenKind::Caret => TokenView::Caret,
            TokenKind::Equal => TokenView::Equal,
            TokenKind::EqualEqual => TokenView::EqualEqual,
            TokenKind::NotEqual => TokenView::NotEqual,
            TokenKind::Less => TokenView::Less,
            TokenKind::LessEqual => TokenView::LessEqual,
            TokenKind::Greater => TokenView::Greater,
            TokenKind::GreaterEqual => TokenView::GreaterEqual,
            TokenKind::PlusEqual => TokenView::PlusEqual,
            TokenKind::MinusEqual => TokenView::MinusEqual,
            TokenKind::StarEqual => TokenView::StarEqual,
            TokenKind::SlashEqual => TokenView::SlashEqual,
            TokenKind::PercentEqual => TokenView::PercentEqual,
            TokenKind::AmpersandEqual => TokenView::AmpersandEqual,
            TokenKind::PipeEqual => TokenView::PipeEqual,
            TokenKind::LeftParen => TokenView::LeftParen,
            TokenKind::RightParen => TokenView::RightParen,
            TokenKind::LeftBracket => TokenView::LeftBracket,
            TokenKind::RightBracket => TokenView::RightBracket,
            TokenKind::LeftBrace => TokenView::LeftBrace,
            TokenKind::RightBrace => TokenView::RightBrace,
            TokenKind::Comma => TokenView::Comma,
            TokenKind::Dot => TokenView::Dot,
            TokenKind::DotDot => TokenView::DotDot,
            TokenKind::DotDotDot => TokenView::DotDotDot,
            TokenKind::Colon => TokenView::Colon,
            TokenKind::Semicolon => TokenView::Semicolon,
            TokenKind::Pipe => TokenView::Pipe,
            TokenKind::Ampersand => TokenView::Ampersand,
            TokenKind::Question => TokenView::Question,
            TokenKind::Arrow => TokenView::Arrow,
            TokenKind::InterpolatedStringStart => TokenView::InterpolatedStringStart,
            TokenKind::InterpolatedStringEnd => TokenView::InterpolatedStringEnd,
            TokenKind::StringText(s) => TokenView::StringText(s@),
            TokenKind::InterpolationStart => TokenView::InterpolationStart,
            TokenKind::InterpolationEnd => TokenView::InterpolationEnd,
            TokenKind::EOF => TokenView::EOF,
            TokenKind::Unknown(c) => TokenView::Unknown(*c),
        }
    }
}

impl TokenKind {
    /// A copy of this kind.
    pub fn duplicate(&self) -> (result: Self)
        ensures
            result@ == self@,
    {
        match self {
            TokenKind::Identifier(s) => TokenKind::Identifier(s.clone()),
            TokenKind::If => TokenKind::If,
            TokenKind::Then => TokenKind::Then,
            TokenKind::Else => TokenKind::Else,
            TokenKind::ElseIf => TokenKind::ElseIf,
            TokenKind::End => TokenKind::End,
            TokenKind::While => TokenKind::While,
            TokenKind::Do => TokenKind::Do,
            TokenKind::For => TokenKind::For,
            TokenKind::In => TokenKind::In,
            TokenKind::Repeat => TokenKind::Repeat,
            TokenKind::Until => TokenKind::Until,
            TokenKind::Break => TokenKind::Break,
            TokenKind::Continue => TokenKind::Continue,
            TokenKind::Local => TokenKind::Local,
            TokenKind::Function => TokenKind::Function,
            TokenKind::Return => TokenKind::Return,
            TokenKind::And => TokenKind::And,
            TokenKind::Or => TokenKind::Or,
            TokenKind::Not => TokenKind::Not,
            TokenKind::Type => TokenKind::Type,
            TokenKind::Export => TokenKind::Export,
            TokenKind::Any => TokenKind::Any,
            TokenKind::Never => TokenKind::Never,
            TokenKind::Typeof => TokenKind::Typeof,
            TokenKind::NumberLiteral(s) => TokenKind::NumberLiteral(s.clone()),
            TokenKind::StringLiteral(s) => TokenKind::StringLiteral(s.clone()),
            TokenKind::InterpolatedString(s) => TokenKind::InterpolatedString(s.clone()),
            TokenKind::True => TokenKind::True,
            TokenKind::False => TokenKind::False,
            TokenKind::Nil => TokenKind::Nil,
            TokenKind::Plus => TokenKind::Plus,
            TokenKind::Minus => TokenKind::Minus,
            TokenKind::Star => TokenKind::Star,
            TokenKind::Slash => TokenKind::Slash,
            TokenKind::Percent => TokenKind::Percent,
            TokenKind::Caret => TokenKind::Caret,
            TokenKind::Equal => TokenKind::Equal,
            TokenKind::EqualEqual => TokenKind::EqualEqual,
            TokenKind::NotEqual => TokenKind::NotEqual,
            TokenKind::Less => TokenKind::Less,
            TokenKind::LessEqual => TokenKind::LessEqual,
            TokenKind::Greater => TokenKind::Greater,
            TokenKind::GreaterEqual => TokenKind::GreaterEqual,
            TokenKind::PlusEqual => TokenKind::PlusEqual,
            TokenKind::MinusEqual => TokenKind::MinusEqual,
            TokenKind::StarEqual => TokenKind::StarEqual,
            TokenKind::SlashEqual => TokenKind::SlashEqual,
            TokenKind::PercentEqual => TokenKind::PercentEqual,
            TokenKind::AmpersandEqual => TokenKind::AmpersandEqual,
            TokenKind::PipeEqual => TokenKind::PipeEqual,
            TokenKind::LeftParen => TokenKind::LeftParen,
            TokenKind::RightParen => TokenKind::RightParen,
            TokenKind::LeftBracket => TokenKind::LeftBracket,
            TokenKind::RightBracket => TokenKind::RightBracket,
            TokenKind::LeftBrace => TokenKind::LeftBrace,
            TokenKind::RightBrace => TokenKind::RightBrace,
            TokenKind::Comma => TokenKind::Comma,
            TokenKind::Dot => TokenKind::Dot,
            TokenKind::DotDot => TokenKind::DotDot,
            TokenKind::DotDotDot => TokenKind::DotDotDot,
            TokenKind::Colon => TokenKind::Colon,
            TokenKind::Semicolon => TokenKind::Semicolon,
            TokenKind::Pipe => TokenKind::Pipe,
            TokenKind::Ampersand => TokenKind::Ampersand,
            TokenKind::Question => TokenKind::Question,
            TokenKind::Arrow => TokenKind::Arrow,
            TokenKind::InterpolatedStringStart => TokenKind::InterpolatedStringStart,
            TokenKind::InterpolatedStringEnd => TokenKind::InterpolatedStringEnd,
            TokenKind::StringText(s) => TokenKind::StringText(s.clone()),
            TokenKind::InterpolationStart => TokenKind::InterpolationStart,
            TokenKind::InterpolationEnd => TokenKind::InterpolationEnd,
            TokenKind::EOF => TokenKind::EOF,
            TokenKind::Unknown(c) => TokenKind::Unknown(*c),
        }
    }
}

/// A token: its kind and the bytes it was read from.
#[derive(Debug, Clone, PartialEq, Eq)]
pub struct Token {
    pub kind: TokenKind,
    pub span: SourceSpan,
}

impl Token {
    /// A copy of this token.
    pub fn duplicate(&self) -> (result: Self)
        ensures
            result.kind@ == self.kind@,
            result.span == self.span,
    {
        Token { kind: self.kind.duplicate(), span: self.span }
    }
}

// ---------------------------------------------------------------------------
// Byte classes and keywords
// ---------------------------------------------------------------------------

pub open spec fn spec_is_alpha(b: u8) -> bool {
    (65 <= b && b <= 90) || (97 <= b && b <= 122)
}

pub open spec fn spec_is_digit(b: u8) -> bool {
    48 <= b && b <= 57
}

pub open spec fn spec_is_whitespace(b: u8) -> bool {
    b == 32 || b == 9 || b == 13 || b == 10
}

/// Whether `b` may continue an identifier.
pub open spec fn is_ident_byte(b: u8) -> bool {
    spec_is_alpha(b) || spec_is_digit(b) || b == 95
}

fn is_alpha(b: u8) -> (result: bool)
    ensures
        result == spec_is_alpha(b),
{
    (b >= 65 && b <= 90) || (b >= 97 && b <= 122)
}

fn is_digit(b: u8) -> (result: bool)
    ensures
        result == spec_is_digit(b),
{
    b >= 48 && b <= 57
}

fn is_whitespace(b: u8) -> (result: bool)
    ensures
        result == spec_is_whitespace(b),
{
    b == 32 || b == 9 || b == 13 || b == 10
}

/// The keyword spelled by `text`, if it is one.
pub open spec fn keyword_of(text: Seq<char>) -> Option<TokenView> {
    if text == "if"@ {
        Some(TokenView::If)
    } else if text == "then"@ {
        Some(TokenView::Then)
    } else if text == "else"@ {
        Some(TokenView::Else)
    } else if text == "elseif"@ {
        Some(TokenView::ElseIf)
    } else if text == "end"@ {
        Some(TokenView::End)
    } else if text == "while"@ {
        Some(TokenView::While)
    } else if text == "do"@ {
        Some(TokenView::Do)
    } else if text == "for"@ {
        Some(TokenView::For)
    } else if text == "in"@ {
        Some(TokenView::In)
    } else if text == "repeat"@ {
        Some(TokenView::Repeat)
    } else if text == "until"@ {
        Some(TokenView::Until)
    } else if text == "break"@ {
        Some(TokenView::Break)
    } else if text == "local"@ {
        Some(TokenView::Local)
    } else if text == "function"@ {
        Some(TokenView::Function)
    } else if text == "return"@ {
        Some(TokenView::Return)
    } else if text == "and"@ {
        Some(TokenView::And)
    } else if text == "or"@ {
        Some(TokenView::Or)
    } else if text == "not"@ {
        Some(TokenView::Not)
    } else if text == "type"@ {
        Some(TokenView::Type)
    } else if text == "export"@ {
        Some(TokenView::Export)
    } else if text == "any"@ {
        Some(TokenView::Any)
    } else if text == "never"@ {
        Some(TokenView::Never)
    } else if text == "typeof"@ {
        Some(TokenView::Typeof)
    } else if text == "true"@ {
        Some(TokenView::True)
    } else if text == "false"@ {
        Some(TokenView::False)
    } else if text == "nil"@ {
        Some(TokenView::Nil)
    } else if text == "continue"@ {
        Some(TokenView::Continue)
    } else {
        None
    }
}

pub open spec fn opt_kind_view(k: Option<TokenKind>) -> Option<TokenView> {
    match k {
        Some(k) => Some(k@),
        None => None,
    }
}

/// The keyword token spelled by `s`, if `s` is a keyword.
pub fn keyword_token(s: &str) -> (result: Option<TokenKind>)
    ensures
        opt_kind_view(result) == keyword_of(s@),
{
    if str_eq(s, "if") {
        Some(TokenKind::If)
    } else if str_eq(s, "then") {
        Some(TokenKind::Then)
    } else if str_eq(s, "else") {
        Some(TokenKind::Else)
    } else if str_eq(s, "elseif") {
        Some(TokenKind::ElseIf)
    } else if str_eq(s, "end") {
        Some(TokenKind::End)
    } else if str_eq(s, "while") {
        Some(TokenKind::While)
    } else if str_eq(s, "do") {
        Some(TokenKind::Do)
    } else if str_eq(s, "for") {
        Some(TokenKind::For)
    } else if str_eq(s, "in") {
        Some(TokenKind::In)
    } else if str_eq(s, "repeat") {
        Some(TokenKind::Repeat)
    } else if str_eq(s, "until") {
        Some(TokenKind::Until)
    } else if str_eq(s, "break") {
        Some(TokenKind::Break)
    } else if str_eq(s, "local") {
        Some(TokenKind::Local)
    } else if str_eq(s, "function") {
        Some(TokenKind::Function)
    } else if str_eq(s, "return") {
        Some(TokenKind::Return)
    } else if str_eq(s, "and") {
        Some(TokenKind::And)
    } else if str_eq(s, "or") {
        Some(TokenKind::Or)
    } else if str_eq(s, "not") {
        Some(TokenKind::Not)
    } else if str_eq(s, "type") {
        Some(TokenKind::Type)
    } else if str_eq(s, "export") {
        Some(TokenKind::Export)
    } else if str_eq(s, "any") {
        Some(TokenKind::Any)
    } else if str_eq(s, "never") {
        Some(TokenKind::Never)
    } else if str_eq(s, "typeof") {
        Some(TokenKind::Typeof)
    } else if str_eq(s, "true") {
        Some(TokenKind::True)
    } else if str_eq(s, "false") {
        Some(TokenKind::False)
    } else if str_eq(s, "nil") {
        Some(TokenKind::Nil)
    } else if str_eq(s, "continue") {
        Some(TokenKind::Continue)
    } else {
        None
    }
}

/// The operator written with the two bytes `b` and `next`, if any.
pub open spec fn two_char_op(b: u8, next: Option<u8>) -> Option<TokenView> {
    match next {
        Some(n) => if n == 61u8 {
            if b == 61u8 {
                Some(TokenView::EqualEqual)
            } else if b == 126u8 {
                Some(TokenView::NotEqual)
            } else if b == 60u8 {
                Some(TokenView::LessEqual)
            } else if b == 62u8 {
                Some(TokenView::GreaterEqual)
            } else if b == 43u8 {
                Some(TokenView::PlusEqual)
            } else if b == 45u8 {
                Some(TokenView::MinusEqual)
            } else if b == 42u8 {
                Some(TokenView::StarEqual)
            } else if b == 47u8 {
                Some(TokenView::SlashEqual)
            } else if b == 37u8 {
                Some(TokenView::PercentEqual)
            } else if b == 38u8 {
                Some(TokenView::AmpersandEqual)
            } else if b == 124u8 {
                Some(TokenView::PipeEqual)
            } else {
                None
            }
        } else if b == 46u8 && n == 46u8 {
            Some(TokenView::DotDot)
        } else if b == 45u8 && n == 62u8 {
            Some(TokenView::Arrow)
        } else {
            None
        },
        None => None,
    }
}

/// The token written with the single byte `b`; any other byte is unknown.
pub open spec fn single_char_kind(b: u8) -> TokenView {
    if b == 43u8 {
        TokenView::Plus
    } else if b == 45u8 {
        TokenView::Minus
    } else if b == 42u8 {
        TokenView::Star
    } else if b == 47u8 {
        TokenView::Slash
    } else if b == 37u8 {
        TokenView::Percent
    } else if b == 94u8 {
        TokenView::Caret
    } else if b == 61u8 {
        TokenView::Equal
    } else if b == 60u8 {
        TokenView::Less
    } else if b == 62u8 {
        TokenView::Greater
    } else if b == 40u8 {
        TokenView::LeftParen
    } else if b == 41u8 {
        TokenView::RightParen
    } else if b == 123u8 {
        TokenView::LeftBrace
    } else if b == 125u8 {
        TokenView::RightBrace
    } else if b == 91u8 {
        TokenView::LeftBracket
    } else if b == 93u8 {
        TokenView::RightBracket
    } else if b == 44u8 {
        TokenView::Comma
    } else if b == 59u8 {
        TokenView::Semicolon
    } else if b == 58u8 {
        TokenView::Colon
    } else if b == 46u8 {
        TokenView::Dot
    } else if b == 124u8 {
        TokenView::Pipe
    } else if b == 38u8 {
        TokenView::Ampersand
    } else if b == 63u8 {
        TokenView::Question
    } else {
        TokenView::Unknown(b as char)
    }
}

// ---------------------------------------------------------------------------
// The scanners, stated
// ---------------------------------------------------------------------------

/// The byte at `i`, if there is one.
pub open spec fn byte_at(s: Seq<u8>, i: int) -> Option<u8> {
    if 0 <= i < s.len() {
        Some(s[i])
    } else {
        None
    }
}

/// `n`, or `usize::MAX` where `n` does not fit.
pub open spec fn sat(n: int) -> usize {
    if n > usize::MAX {
        usize::MAX
    } else {
        n as usize
    }
}

/// The error the lexer reports with `message` over `start..end`.
pub open spec fn lex_error(file: FileId, message: Seq<char>, start: int, end: int) -> DiagnosticView {
    DiagnosticView {
        labels: seq![
            LabelView {
                span: SourceSpan { file_id: file, start: start as usize, end: end as usize },
                message: Seq::empty(),
                primary: true,
            },
        ],
        ..plain_diagnostic(Severity::Error, message)
    }
}

/// One past the `]]` that closes a block comment whose text starts at `i`.
pub open spec fn block_comment_close(s: Seq<u8>, i: int) -> Option<int>
    decreases s.len() - i,
{
    if i >= s.len() || i < 0 {
        None
    } else if s[i] == 93u8 && byte_at(s, i + 1) == Some(93u8) {
        Some(i + 2)
    } else {
        block_comment_close(s, i + 1)
    }
}

pub proof fn lemma_block_comment_close_bounds(s: Seq<u8>, i: int)
    requires
        0 <= i,
    ensures
        block_comment_close(s, i) matches Some(e) ==> i + 2 <= e <= s.len(),
    decreases s.len() - i,
{
    if i < s.len() && !(s[i] == 93u8 && byte_at(s, i + 1) == Some(93u8)) {
        lemma_block_comment_close_bounds(s, i + 1);
    }
}

/// Skips white space, line comments (`--` to the end of the line) and block
/// comments (`--[[` to `]]`) from `i`; returns where the next token starts and
/// the diagnostics, with one for an unterminated block comment.
pub open spec fn skip_trivia(file: FileId, s: Seq<u8>, i: int, diags: Seq<DiagnosticView>) -> (
    int,
    Seq<DiagnosticView>,
)
    decreases s.len() - i,
{
    if i < 0 || i >= s.len() {
        (i, diags)
    } else if spec_is_whitespace(s[i]) {
        skip_trivia(file, s, i + 1, diags)
    } else if s[i] == 45u8 && byte_at(s, i + 1) == Some(45u8) {
        if byte_at(s, i + 2) == Some(91u8) && byte_at(s, i + 3) == Some(91u8) {
            match block_comment_close(s, i + 4) {
                Some(e) => {
                    proof {
                        lemma_block_comment_close_bounds(s, i + 4);
                    }
                    skip_trivia(file, s, e, diags)
                },
                None => skip_trivia(
                    file,
                    s,
                    s.len() as int,
                    diags.push(lex_error(file, "Unterminated block comment."@, i, s.len() as int)),
                ),
            }
        } else {
            proof {
                lemma_next_newline_bounds(s, i + 2);
            }
            skip_trivia(file, s, next_newline(s, i + 2), diags)
        }
    } else {
        (i, diags)
    }
}

/// The end of the run of bytes satisfying `is_ident_byte` that starts at `i`.
pub open spec fn ident_end(s: Seq<u8>, i: int) -> int
    decreases s.len() - i,
{
    if i < 0 || i >= s.len() || !is_ident_byte(s[i]) {
        i
    } else {
        ident_end(s, i + 1)
    }
}

/// The end of the run of decimal digits that starts at `i`.
pub open spec fn digits_end(s: Seq<u8>, i: int) -> int
    decreases s.len() - i,
{
    if i < 0 || i >= s.len() || !spec_is_digit(s[i]) {
        i
    } else {
        digits_end(s, i + 1)
    }
}

pub open spec fn is_digit_at(s: Seq<u8>, i: int) -> bool {
    byte_at(s, i) matches Some(b) && spec_is_digit(b)
}

/// The integer and fractional part of a number literal starting at `start`,
/// with the diagnostics for a second fractional point or a trailing point.
pub open spec fn number_mantissa(file: FileId, s: Seq<u8>, start: int, diags: Seq<DiagnosticView>) -> (
    int,
    Seq<DiagnosticView>,
) {
    let p = digits_end(s, start);
    if byte_at(s, p) == Some(46u8) && is_digit_at(s, p + 1) {
        let q = digits_end(s, p + 1);
        if byte_at(s, q) == Some(46u8) && is_digit_at(s, q + 1) {
            (q, diags.push(lex_error(file, "Malformed numeric literal"@, start, sat(q + 2) as int)))
        } else {
            (q, diags)
        }
    } else if byte_at(s, p) == Some(46u8) && byte_at(s, p + 1) != Some(46u8) {
        (p, diags.push(lex_error(file, "Invalid numeric literal"@, start, sat(p + 1) as int)))
    } else {
        (p, diags)
    }
}

/// Where a number literal that starts at `start` ends: digits, an optional
/// fraction, and an optional exponent with an optional sign.
pub open spec fn number_scan(file: FileId, s: Seq<u8>, start: int, diags: Seq<DiagnosticView>) -> (
    int,
    Seq<DiagnosticView>,
) {
    let (p, d) = number_mantissa(file, s, start, diags);
    if byte_at(s, p) == Some(101u8) || byte_at(s, p) == Some(69u8) {
        let r = if byte_at(s, p + 1) == Some(43u8) || byte_at(s, p + 1) == Some(45u8) {
            p + 2
        } else {
            p + 1
        };
        (digits_end(s, r), d)
    } else {
        (p, d)
    }
}

/// The character an escape sequence `\e` stands for, if `e` names one.
pub open spec fn escape_char(e: u8) -> Option<char> {
    if e == 110u8 {
        Some('\n')
    } else if e == 114u8 {
        Some('\r')
    } else if e == 116u8 {
        Some('\t')
    } else if e == 92u8 {
        Some('\\')
    } else if e == 34u8 {
        Some('"')
    } else if e == 39u8 {
        Some('\'')
    } else {
        None
    }
}

/// Reads the body of a string literal from `i` up to the closing `quote`:
/// the characters read (after `out`), where reading stopped, and the
/// diagnostics. A line break or the end of the text ends an unterminated
/// literal; an unknown escape keeps the escaped byte.
pub open spec fn string_scan(
    file: FileId,
    s: Seq<u8>,
    quote: u8,
    token_start: int,
    i: int,
    out: Seq<char>,
    diags: Seq<DiagnosticView>,
) -> (Seq<char>, int, Seq<DiagnosticView>)
    decreases s.len() - i,
{
    if i < 0 || i >= s.len() {
        (out, i, diags.push(lex_error(file, "Unterminated string literal"@, token_start, i)))
    } else if s[i] == quote {
        (out, i + 1, diags)
    } else if s[i] == 10u8 || s[i] == 13u8 {
        (out, i, diags.push(lex_error(file, "Unterminated string literal"@, token_start, i)))
    } else if s[i] == 92u8 {
        if i + 1 < s.len() {
            match escape_char(s[i + 1]) {
                Some(c) => string_scan(file, s, quote, token_start, i + 2, out.push(c), diags),
                None => string_scan(
                    file,
                    s,
                    quote,
                    token_start,
                    i + 2,
                    out.push(s[i + 1] as char),
                    diags.push(lex_error(file, "Unknown escape sequence"@, i, i + 2)),
                ),
            }
        } else {
            (
                out,
                i + 1,
                diags.push(lex_error(file, "Unterminated string literal"@, token_start, i + 1)),
            )
        }
    } else {
        string_scan(file, s, quote, token_start, i + 1, out.push(s[i] as char), diags)
    }
}

/// Inside a string literal, a backslash followed by `n`, `r`, `t`, a
/// backslash, a double or a single quote stands for one character: line
/// feed (U+000A), carriage return (U+000D), tab (U+0009), backslash,
/// double quote and single quote; reading goes on after the two bytes.
pub proof fn lemma_string_escapes_decode(
    file: FileId,
    s: Seq<u8>,
    quote: u8,
    token_start: int,
    i: int,
    out: Seq<char>,
    diags: Seq<DiagnosticView>,
)
    requires
        0 <= i,
        i + 1 < s.len(),
        s[i] == 92u8,
        quote != 92u8,
    ensures
        s[i + 1] == 110u8 ==> string_scan(file, s, quote, token_start, i, out, diags) == string_scan(
            file,
            s,
            quote,
            token_start,
            i + 2,
            out.push('\u{000A}'),
            diags,
        ),
        s[i + 1] == 114u8 ==> string_scan(file, s, quote, token_start, i, out, diags) == string_scan(
            file,
            s,
            quote,
            token_start,
            i + 2,
            out.push('\u{000D}'),
            diags,
        ),
        s[i + 1] == 116u8 ==> string_scan(file, s, quote, token_start, i, out, diags) == string_scan(
            file,
            s,
            quote,
            token_start,
            i + 2,
            out.push('\u{0009}'),
            diags,
        ),
        s[i + 1] == 92u8 ==> string_scan(file, s, quote, token_start, i, out, diags) == string_scan(
            file,
            s,
            quote,
            token_start,
            i + 2,
            out.push('\u{005C}'),
            diags,
        ),
        s[i + 1] == 34u8 ==> string_scan(file, s, quote, token_start, i, out, diags) == string_scan(
            file,
            s,
            quote,
            token_start,
            i + 2,
            out.push('\u{0022}'),
            diags,
        ),
        s[i + 1] == 39u8 ==> string_scan(file, s, quote, token_start, i, out, diags) == string_scan(
            file,
            s,
            quote,
            token_start,
            i + 2,
            out.push('\u{0027}'),
            diags,
        ),
{
}

/// Inside a string literal, any byte other than the closing quote, a
/// backslash or a line break stands for itself.
pub proof fn lemma_string_plain_bytes_are_kept(
    file: FileId,
    s: Seq<u8>,
    quote: u8,
    token_start: int,
    i: int,
    out: Seq<char>,
    diags: Seq<DiagnosticView>,
)
    requires
        0 <= i < s.len(),
        s[i] != quote,
        s[i] != 92u8,
        s[i] != 10u8,
        s[i] != 13u8,
    ensures
        string_scan(file, s, quote, token_start, i, out, diags) == string_scan(
            file,
            s,
            quote,
            token_start,
            i + 1,
            out.push(s[i] as char),
            diags,
        ),
{
}

/// The end of a piece of text inside an interpolated string: the next `` ` ``
/// or `{`, or the end of the text.
pub open spec fn interpolated_text_end(s: Seq<u8>, i: int) -> int
    decreases s.len() - i,
{
    if i < 0 || i >= s.len() || s[i] == 96u8 || s[i] == 123u8 {
        i
    } else {
        interpolated_text_end(s, i + 1)
    }
}

/// The three states of the lexer: ordinary code, the text of an interpolated
/// string, and an expression inside `{ }` of an interpolated string.
#[derive(Debug, Clone, Copy, PartialEq, Eq, Structural)]
pub enum LexerMode {
    Normal,
    InterpolatedString,
    Interpolation,
}

/// What one call of `next_token` does: the token read, where it lies, and the
/// state the lexer is left in.
pub struct LexStep {
    pub kind: TokenView,
    pub start: int,
    pub end: int,
    pub pos: int,
    pub mode: LexerMode,
    pub diagnostics: Seq<DiagnosticView>,
}

/// The token that starts at `p` (after trivia), in ordinary code.
pub open spec fn token_at(file: FileId, s: Seq<u8>, p: int, mode: LexerMode, diags: Seq<DiagnosticView>) -> LexStep {
    if p < 0 || p >= s.len() {
        LexStep { kind: TokenView::EOF, start: p, end: p, pos: p, mode, diagnostics: diags }
    } else {
        let b = s[p];
        if spec_is_alpha(b) || b == 95u8 {
            let e = ident_end(s, p);
            let text = bytes_as_chars(s.subrange(p, e));
            LexStep {
                kind: match keyword_of(text) {
                    Some(k) => k,
                    None => TokenView::Identifier(text),
                },
                start: p,
                end: e,
                pos: e,
                mode,
                diagnostics: diags,
            }
        } else if spec_is_digit(b) {
            let (e, d) = number_scan(file, s, p, diags);
            LexStep {
                kind: TokenView::NumberLiteral(bytes_as_chars(s.subrange(p, e))),
                start: p,
                end: e,
                pos: e,
                mode,
                diagnostics: d,
            }
        } else if b == 34u8 || b == 39u8 {
            let (text, e, d) = string_scan(file, s, b, p, p + 1, Seq::empty(), diags);
            LexStep { kind: TokenView::StringLiteral(text), start: p, end: e, pos: e, mode, diagnostics: d }
        } else if b == 96u8 {
            LexStep {
                kind: TokenView::InterpolatedStringStart,
                start: p,
                end: p + 1,
                pos: p + 1,
                mode: LexerMode::InterpolatedString,
                diagnostics: diags,
            }
        } else if b == 46u8 && byte_at(s, p + 1) == Some(46u8) && byte_at(s, p + 2) == Some(46u8) {
            LexStep { kind: TokenView::DotDotDot, start: p, end: p + 3, pos: p + 3, mode, diagnostics: diags }
        } else if two_char_op(b, byte_at(s, p + 1)) is Some {
            LexStep {
                kind: two_char_op(b, byte_at(s, p + 1))->0,
                start: p,
                end: p + 2,
                pos: p + 2,
                mode,
                diagnostics: diags,
            }
        } else {
            let kind = single_char_kind(b);
            let d1 = if kind is Unknown {
                diags.push(lex_error(file, "Unexpected character"@, p, p + 1))
            } else {
                diags
            };
            let d2 = if kind is Dot && is_digit_at(s, p + 1) {
                d1.push(lex_error(file, "Invalid numeric literal"@, p, sat(p + 2) as int))
            } else {
                d1
            };
            LexStep { kind, start: p, end: p + 1, pos: p + 1, mode, diagnostics: d2 }
        }
    }
}

/// A token of ordinary code: trivia is skipped first.
pub open spec fn normal_step(file: FileId, s: Seq<u8>, pos: int, mode: LexerMode, diags: Seq<DiagnosticView>) -> LexStep {
    let (p, d) = skip_trivia(file, s, pos, diags);
    token_at(file, s, p, mode, d)
}

/// A token inside `{ }` of an interpolated string: a `}` ends the
/// interpolation, the end of the text is an unterminated string.
pub open spec fn interpolation_step(file: FileId, s: Seq<u8>, pos: int, diags: Seq<DiagnosticView>) -> LexStep {
    let (p, d) = skip_trivia(file, s, pos, diags);
    if 0 <= p < s.len() && s[p] == 125u8 {
        LexStep {
            kind: TokenView::InterpolationEnd,
            start: p,
            end: p + 1,
            pos: p + 1,
            mode: LexerMode::InterpolatedString,
            diagnostics: d,
        }
    } else if p >= s.len() {
        LexStep {
            kind: TokenView::EOF,
            start: p,
            end: p,
            pos: p,
            mode: LexerMode::Normal,
            diagnostics: d.push(lex_error(file, "Unterminated interpolated string"@, p, p)),
        }
    } else {
        normal_step(file, s, p, LexerMode::Interpolation, d)
    }
}

/// A token in the text of an interpolated string.
pub open spec fn interpolated_string_step(file: FileId, s: Seq<u8>, pos: int, diags: Seq<DiagnosticView>) -> LexStep {
    if pos < 0 || pos >= s.len() {
        LexStep {
            kind: TokenView::EOF,
            start: pos,
            end: pos,
            pos,
            mode: LexerMode::Normal,
            diagnostics: diags.push(lex_error(file, "Unterminated interpolated string"@, pos, pos)),
        }
    } else if s[pos] == 96u8 {
        LexStep {
            kind: TokenView::InterpolatedStringEnd,
            start: pos,
            end: pos + 1,
            pos: pos + 1,
            mode: LexerMode::Normal,
            diagnostics: diags,
        }
    } else if s[pos] == 123u8 {
        LexStep {
            kind: TokenView::InterpolationStart,
            start: pos,
            end: pos + 1,
            pos: pos + 1,
            mode: LexerMode::Interpolation,
            diagnostics: diags,
        }
    } else {
        let e = interpolated_text_end(s, pos);
        LexStep {
            kind: TokenView::StringText(bytes_as_chars(s.subrange(pos, e))),
            start: pos,
            end: e,
            pos: e,
            mode: LexerMode::InterpolatedString,
            diagnostics: diags,
        }
    }
}

/// What `next_token` does in each mode.
pub open spec fn lex_step(file: FileId, s: Seq<u8>, pos: int, mode: LexerMode, diags: Seq<DiagnosticView>) -> LexStep {
    match mode {
        LexerMode::Normal => normal_step(file, s, pos, LexerMode::Normal, diags),
        LexerMode::InterpolatedString => interpolated_string_step(file, s, pos, diags),
        LexerMode::Interpolation => interpolation_step(file, s, pos, diags),
    }
}


/// Skipping trivia from a position inside the text stops inside it, at or
/// after that position.
pub proof fn lemma_skip_trivia_bounds(file: FileId, s: Seq<u8>, i: int, diags: Seq<DiagnosticView>)
    requires
        0 <= i <= s.len(),
    ensures
        i <= skip_trivia(file, s, i, diags).0 <= s.len(),
    decreases s.len() - i,
{
    reveal_with_fuel(skip_trivia, 2);
    if i < s.len() {
        if spec_is_whitespace(s[i]) {
            lemma_skip_trivia_bounds(file, s, i + 1, diags);
        } else if s[i] == 45u8 && byte_at(s, i + 1) == Some(45u8) {
            if byte_at(s, i + 2) == Some(91u8) && byte_at(s, i + 3) == Some(91u8) {
                lemma_block_comment_close_bounds(s, i + 4);
                match block_comment_close(s, i + 4) {
                    Some(e) => lemma_skip_trivia_bounds(file, s, e, diags),
                    None => {},
                }
            } else {
                lemma_next_newline_bounds(s, i + 2);
                lemma_skip_trivia_bounds(file, s, next_newline(s, i + 2), diags);
            }
        }
    }
}


/// Trivia skipping stops at a byte that starts no trivia: skipping again
/// from there does not move.
pub proof fn lemma_skip_trivia_stops(file: FileId, s: Seq<u8>, i: int, diags: Seq<DiagnosticView>, d2: Seq<DiagnosticView>)
    requires
        0 <= i <= s.len(),
    ensures
        skip_trivia(file, s, i, diags).0 < s.len() ==> skip_trivia(file, s, skip_trivia(file, s, i, diags).0, d2) == (
            skip_trivia(file, s, i, diags).0,
            d2,
        ),
    decreases s.len() - i,
{
    reveal_with_fuel(skip_trivia, 2);
    if i < s.len() {
        if spec_is_whitespace(s[i]) {
            lemma_skip_trivia_stops(file, s, i + 1, diags, d2);
        } else if s[i] == 45u8 && byte_at(s, i + 1) == Some(45u8) {
            if byte_at(s, i + 2) == Some(91u8) && byte_at(s, i + 3) == Some(91u8) {
                lemma_block_comment_close_bounds(s, i + 4);
                match block_comment_close(s, i + 4) {
                    Some(e) => lemma_skip_trivia_stops(file, s, e, diags, d2),
                    None => {},
                }
            } else {
                lemma_next_newline_bounds(s, i + 2);
                lemma_skip_trivia_stops(file, s, next_newline(s, i + 2), diags, d2);
            }
        }
    }
}

/// End of file repeats: a step that reads the end of the text has an empty
/// span at the end of the text, leaves the lexer in ordinary mode, and the
/// next step from there reads the same end of file again with no new
/// diagnostic.
pub proof fn lemma_eof_repeats(file: FileId, s: Seq<u8>, pos: int, mode: LexerMode, diags: Seq<DiagnosticView>)
    requires
        0 <= pos <= s.len(),
        lex_step(file, s, pos, mode, diags).kind == TokenView::EOF,
    ensures
        ({
            let st = lex_step(file, s, pos, mode, diags);
            &&& st.start == s.len() && st.end == s.len() && st.pos == s.len()
            &&& st.mode == LexerMode::Normal
            &&& lex_step(file, s, st.pos, st.mode, st.diagnostics) == st
        }),
{
    reveal_with_fuel(skip_trivia, 2);
    lemma_skip_trivia_bounds(file, s, pos, diags);
    lemma_skip_trivia_stops(file, s, pos, diags, diags);
    let (p, d) = skip_trivia(file, s, pos, diags);
    lemma_skip_trivia_stops(file, s, pos, diags, d);
    match mode {
        LexerMode::Normal => {
            assert(p >= s.len());
        },
        LexerMode::InterpolatedString => {},
        LexerMode::Interpolation => {
            if 0 <= p < s.len() && s[p] != 125u8 {
                assert(skip_trivia(file, s, p, d) == (p, d));
                assert(normal_step(file, s, p, LexerMode::Interpolation, d) == token_at(file, s, p, LexerMode::Interpolation, d));
                assert(token_at(file, s, p, LexerMode::Interpolation, d).kind != TokenView::EOF);
            }
        },
    }
    let st = lex_step(file, s, pos, mode, diags);
    assert(st.pos == s.len());
    assert(skip_trivia(file, s, st.pos, st.diagnostics) == (st.pos, st.diagnostics));
}


proof fn lemma_ident_end_bounds(s: Seq<u8>, i: int)
    requires
        0 <= i <= s.len(),
    ensures
        i <= ident_end(s, i) <= s.len(),
    decreases s.len() - i,
{
    if i < s.len() && is_ident_byte(s[i]) {
        lemma_ident_end_bounds(s, i + 1);
    }
}

proof fn lemma_digits_end_bounds(s: Seq<u8>, i: int)
    requires
        0 <= i <= s.len(),
    ensures
        i <= digits_end(s, i) <= s.len(),
    decreases s.len() - i,
{
    if i < s.len() && spec_is_digit(s[i]) {
        lemma_digits_end_bounds(s, i + 1);
    }
}

proof fn lemma_text_end_bounds(s: Seq<u8>, i: int)
    requires
        0 <= i <= s.len(),
    ensures
        i <= interpolated_text_end(s, i) <= s.len(),
    decreases s.len() - i,
{
    if i < s.len() && s[i] != 96u8 && s[i] != 123u8 {
        lemma_text_end_bounds(s, i + 1);
    }
}

proof fn lemma_string_scan_bounds(
    file: FileId,
    s: Seq<u8>,
    quote: u8,
    token_start: int,
    i: int,
    out: Seq<char>,
    diags: Seq<DiagnosticView>,
)
    requires
        0 <= i <= s.len(),
    ensures
        i <= string_scan(file, s, quote, token_start, i, out, diags).1 <= s.len(),
    decreases s.len() - i,
{
    if i < s.len() && s[i] != quote && s[i] != 10u8 && s[i] != 13u8 {
        if s[i] == 92u8 {
            if i + 1 < s.len() {
                match escape_char(s[i + 1]) {
                    Some(c) => lemma_string_scan_bounds(file, s, quote, token_start, i + 2, out.push(c), diags),
                    None => lemma_string_scan_bounds(
                        file,
                        s,
                        quote,
                        token_start,
                        i + 2,
                        out.push(s[i + 1] as char),
                        diags.push(lex_error(file, "Unknown escape sequence"@, i, i + 2)),
                    ),
                }
            }
        } else {
            lemma_string_scan_bounds(file, s, quote, token_start, i + 1, out.push(s[i] as char), diags);
        }
    }
}

/// A token read at a position inside the text starts there or later, ends
/// where the next read starts, stays inside the text, and is empty only at
/// the end of file.
pub proof fn lemma_token_span(file: FileId, s: Seq<u8>, p: int, mode: LexerMode, diags: Seq<DiagnosticView>)
    requires
        0 <= p <= s.len(),
    ensures
        ({
            let st = token_at(file, s, p, mode, diags);
            &&& st.start == p && st.start <= st.end && st.end == st.pos && st.pos <= s.len()
            &&& (st.kind != TokenView::EOF ==> st.start < st.end)
        }),
{
    if p < s.len() {
        let b = s[p];
        if spec_is_alpha(b) || b == 95u8 {
            lemma_ident_end_bounds(s, p + 1);
            assert(ident_end(s, p) == ident_end(s, p + 1));
        } else if spec_is_digit(b) {
            lemma_digits_end_bounds(s, p + 1);
            assert(digits_end(s, p) == digits_end(s, p + 1));
            let q0 = digits_end(s, p);
            if byte_at(s, q0) == Some(46u8) && is_digit_at(s, q0 + 1) {
                lemma_digits_end_bounds(s, q0 + 1);
            }
            let (m, d) = number_mantissa(file, s, p, diags);
            if byte_at(s, m) == Some(101u8) || byte_at(s, m) == Some(69u8) {
                let r = if byte_at(s, m + 1) == Some(43u8) || byte_at(s, m + 1) == Some(45u8) {
                    m + 2
                } else {
                    m + 1
                };
                lemma_digits_end_bounds(s, r);
            }
        } else if b == 34u8 || b == 39u8 {
            lemma_string_scan_bounds(file, s, b, p, p + 1, Seq::empty(), diags);
        }
    }
}

/// In every mode, a step from a position inside the text reads a token at
/// or after that position, ending where the next step starts, inside the
/// text; only the end of file has an empty span.
pub proof fn lemma_step_span(file: FileId, s: Seq<u8>, pos: int, mode: LexerMode, diags: Seq<DiagnosticView>)
    requires
        0 <= pos <= s.len(),
    ensures
        ({
            let st = lex_step(file, s, pos, mode, diags);
            &&& pos <= st.start <= st.end && st.end == st.pos && st.pos <= s.len()
            &&& (st.kind != TokenView::EOF ==> st.start < st.end)
        }),
{
    reveal_with_fuel(skip_trivia, 2);
    lemma_skip_trivia_bounds(file, s, pos, diags);
    let (p, d) = skip_trivia(file, s, pos, diags);
    match mode {
        LexerMode::Normal => {
            lemma_token_span(file, s, p, LexerMode::Normal, d);
        },
        LexerMode::InterpolatedString => {
            if pos < s.len() && s[pos] != 96u8 && s[pos] != 123u8 {
                lemma_text_end_bounds(s, pos + 1);
                assert(interpolated_text_end(s, pos) == interpolated_text_end(s, pos + 1));
            }
        },
        LexerMode::Interpolation => {
            if p < s.len() && s[p] != 125u8 {
                lemma_skip_trivia_stops(file, s, pos, diags, d);
                lemma_token_span(file, s, p, LexerMode::Interpolation, d);
            }
        },
    }
}

// ---------------------------------------------------------------------------
// The lexer
// ---------------------------------------------------------------------------

/// Reads the tokens of one source file, one at a time.
pub struct Lexer<'a> {
    file: &'a SourceFile,
    src: &'a [u8],
    pos: usize,
    diagnostics: Vec<Diagnostic>,
    mode: LexerMode,
}

/// The state of a lexer.
pub struct LexerView {
    pub file_id: FileId,
    pub bytes: Seq<u8>,
    pub pos: int,
    pub mode: LexerMode,
    pub diagnostics: Seq<DiagnosticView>,
}

impl<'a> View for Lexer<'a> {
    type V = LexerView;

    closed spec fn view(&self) -> LexerView {
        LexerView {
            file_id: self.file@.id,
            bytes: self.src@,
            pos: self.pos as int,
            mode: self.mode,
            diagnostics: self.diagnostics@.map_values(|d: Diagnostic| d@),
        }
    }
}

impl<'a> Lexer<'a> {
    /// The lexer's state is consistent: it reads its own file and stands
    /// inside it.
    pub closed spec fn wf(&self) -> bool {
        &&& self.src@ == self.file@.bytes
        &&& self.pos <= self.src@.len()
        &&& self.src@.len() <= usize::MAX
    }

    /// A lexer made by `new` and stepped by `next_token` stands inside its
    /// bytes, and its next step gives a token whose span starts at or after
    /// the position, ends where the lexer stops, and is not empty unless it
    /// is `EOF`.
    pub proof fn lemma_next_step_span(&self)
        requires
            self.wf(),
        ensures
            0 <= self@.pos <= self@.bytes.len(),
            ({
                let st = lex_step(self@.file_id, self@.bytes, self@.pos, self@.mode, self@.diagnostics);
                &&& self@.pos <= st.start <= st.end && st.end == st.pos && st.pos <= self@.bytes.len()
                &&& (st.kind != TokenView::EOF ==> st.start < st.end)
            }),
    {
        lemma_step_span(self@.file_id, self@.bytes, self@.pos, self@.mode, self@.diagnostics);
    }

    /// When the next step of a lexer made by `new` and stepped by
    /// `next_token` gives `EOF`, the token spans the end of the bytes, the
    /// lexer stands there in normal mode, and every later step gives the
    /// same token and adds no diagnostic. The bytes fit in a `usize`.
    pub proof fn lemma_eof_is_final(&self)
        requires
            self.wf(),
        ensures
            self@.bytes.len() <= usize::MAX,
            ({
                let st = lex_step(self@.file_id, self@.bytes, self@.pos, self@.mode, self@.diagnostics);
                st.kind == TokenView::EOF ==> {
                    &&& st.start == self@.bytes.len() && st.end == self@.bytes.len() && st.pos == self@.bytes.len()
                    &&& st.mode == LexerMode::Normal
                    &&& lex_step(self@.file_id, self@.bytes, st.pos, st.mode, st.diagnostics) == st
                }
            }),
    {
        let st = lex_step(self@.file_id, self@.bytes, self@.pos, self@.mode, self@.diagnostics);
        if st.kind == TokenView::EOF {
            lemma_eof_repeats(self@.file_id, self@.bytes, self@.pos, self@.mode, self@.diagnostics);
        }
    }

    pub fn new(file: &'a SourceFile) -> (result: Self)
        ensures
            result.wf(),
            result@.file_id == file@.id,
            result@.bytes == file@.bytes,
            result@.pos == 0,
            result@.mode == LexerMode::Normal,
            result@.diagnostics == Seq::<DiagnosticView>::empty(),
    {
        let src = file.bytes();
        let _n = src.len();
        let result = Lexer { file, src, pos: 0, diagnostics: Vec::new(), mode: LexerMode::Normal };
        assert(result@.diagnostics =~= Seq::<DiagnosticView>::empty());
        result
    }

    pub fn diagnostics(&self) -> (result: &[Diagnostic])
        ensures
            result@.map_values(|d: Diagnostic| d@) == self@.diagnostics,
    {
        self.diagnostics.as_slice()
    }

    fn current_byte(&self) -> (result: Option<u8>)
        ensures
            result == byte_at(self.src@, self.pos as int),
    {
        if self.pos < self.src.len() {
            Some(self.src[self.pos])
        } else {
            None
        }
    }

    fn peek_byte(&self) -> (result: Option<u8>)
        requires
            self.wf(),
        ensures
            result == byte_at(self.src@, self.pos + 1),
    {
        if self.pos < self.src.len() && self.pos + 1 < self.src.len() {
            Some(self.src[self.pos + 1])
        } else {
            None
        }
    }

    fn byte_at_offset(&self, k: usize) -> (result: Option<u8>)
        requires
            self.wf(),
            k <= 3,
        ensures
            result == byte_at(self.src@, self.pos + k),
    {
        if self.pos < self.src.len() && k < self.src.len() - self.pos {
            Some(self.src[self.pos + k])
        } else {
            None
        }
    }

    fn advance(&mut self) -> (result: Option<u8>)
        requires
            old(self).wf(),
        ensures
            final(self).wf(),
            result == byte_at(old(self).src@, old(self).pos as int),
            final(self).pos == if old(self).pos < old(self).src@.len() {
                old(self).pos + 1
            } else {
                old(self).pos as int
            },
            final(self).src == old(self).src,
            final(self).file == old(self).file,
            final(self).mode == old(self).mode,
            final(self).diagnostics == old(self).diagnostics,
    {
        let b = self.current_byte();
        if b.is_some() {
            self.pos = self.pos + 1;
        }
        b
    }

    fn make_span(&self, start: usize, end: usize) -> (result: SourceSpan)
        ensures
            result == (SourceSpan { file_id: self.file@.id, start, end }),
    {
        SourceSpan::new(self.file.id(), start, end)
    }

    fn push_diagnostic(&mut self, message: &str, span: SourceSpan)
        requires
            old(self).wf(),
            span.file_id == old(self).file@.id,
        ensures
            final(self).wf(),
            final(self)@.diagnostics == old(self)@.diagnostics.push(
                lex_error(span.file_id, message@, span.start as int, span.end as int),
            ),
            final(self).pos == old(self).pos,
            final(self).src == old(self).src,
            final(self).file == old(self).file,
            final(self).mode == old(self).mode,
    {
        let d = Diagnostic::error(message).with_span(span);
        self.diagnostics.push(d);
        assert(self@.diagnostics =~= old(self)@.diagnostics.push(d@));
    }

    /// Reads the next token.
    pub fn next_token(&mut self) -> (result: Token)
        requires
            old(self).wf(),
        ensures
            final(self).wf(),
            ({
                let step = lex_step(
                    old(self)@.file_id,
                    old(self)@.bytes,
                    old(self)@.pos,
                    old(self)@.mode,
                    old(self)@.diagnostics,
                );
                &&& result.kind@ == step.kind
                &&& result.span == (SourceSpan {
                    file_id: old(self)@.file_id,
                    start: step.start as usize,
                    end: step.end as usize,
                })
                &&& final(self)@.pos == step.pos
                &&& final(self)@.mode == step.mode
                &&& final(self)@.diagnostics == step.diagnostics
            }),
            final(self)@.file_id == old(self)@.file_id,
            final(self)@.bytes == old(self)@.bytes,
    {
        match self.mode {
            LexerMode::Normal => self.next_normal_token(),
            LexerMode::InterpolatedString => self.next_interpolated_string_token(),
            LexerMode::Interpolation => self.next_interpolation_token(),
        }
    }
}

/// Whether `o` holds the byte `b`.
fn is_byte(o: Option<u8>, b: u8) -> (result: bool)
    ensures
        result == (o == Some(b)),
{
    match o {
        Some(x) => x == b,
        None => false,
    }
}

/// The token written with the single byte `b`.
fn single_char_token(b: u8) -> (result: TokenKind)
    ensures
        result@ == single_char_kind(b),
{
    if b == 43u8 {
        TokenKind::Plus
    } else if b == 45u8 {
        TokenKind::Minus
    } else if b == 42u8 {
        TokenKind::Star
    } else if b == 47u8 {
        TokenKind::Slash
    } else if b == 37u8 {
        TokenKind::Percent
    } else if b == 94u8 {
        TokenKind::Caret
    } else if b == 61u8 {
        TokenKind::Equal
    } else if b == 60u8 {
        TokenKind::Less
    } else if b == 62u8 {
        TokenKind::Greater
    } else if b == 40u8 {
        TokenKind::LeftParen
    } else if b == 41u8 {
        TokenKind::RightParen
    } else if b == 123u8 {
        TokenKind::LeftBrace
    } else if b == 125u8 {
        TokenKind::RightBrace
    } else if b == 91u8 {
        TokenKind::LeftBracket
    } else if b == 93u8 {
        TokenKind::RightBracket
    } else if b == 44u8 {
        TokenKind::Comma
    } else if b == 59u8 {
        TokenKind::Semicolon
    } else if b == 58u8 {
        TokenKind::Colon
    } else if b == 46u8 {
        TokenKind::Dot
    } else if b == 124u8 {
        TokenKind::Pipe
    } else if b == 38u8 {
        TokenKind::Ampersand
    } else if b == 63u8 {
        TokenKind::Question
    } else {
        TokenKind::Unknown(b as char)
    }
}

/// The operator written with `b` followed by `next`.
fn two_char_token(b: u8, next: Option<u8>) -> (result: Option<TokenKind>)
    ensures
        opt_kind_view(result) == two_char_op(b, next),
{
    match next {
        Some(n) => {
            if n == 61u8 {
                if b == 61u8 {
                    Some(TokenKind::EqualEqual)
                } else if b == 126u8 {
                    Some(TokenKind::NotEqual)
                } else if b == 60u8 {
                    Some(TokenKind::LessEqual)
                } else if b == 62u8 {
                    Some(TokenKind::GreaterEqual)
                } else if b == 43u8 {
                    Some(TokenKind::PlusEqual)
                } else if b == 45u8 {
                    Some(TokenKind::MinusEqual)
                } else if b == 42u8 {
                    Some(TokenKind::StarEqual)
                } else if b == 47u8 {
                    Some(TokenKind::SlashEqual)
                } else if b == 37u8 {
                    Some(TokenKind::PercentEqual)
                } else if b == 38u8 {
                    Some(TokenKind::AmpersandEqual)
                } else if b == 124u8 {
                    Some(TokenKind::PipeEqual)
                } else {
                    None
                }
            } else if b == 46u8 && n == 46u8 {
                Some(TokenKind::DotDot)
            } else if b == 45u8 && n == 62u8 {
                Some(TokenKind::Arrow)
            } else {
                None
            }
        },
        None => None,
    }
}

impl<'a> Lexer<'a> {
    /// The lexer moved on and nothing else about it changed but `pos`,
    /// `mode` and its diagnostics.
    closed spec fn same_source(&self, other: &Self) -> bool {
        &&& self.src == other.src
        &&& self.file == other.file
    }

    fn skip_digits(&mut self)
        requires
            old(self).wf(),
        ensures
            final(self).wf(),
            final(self).same_source(old(self)),
            final(self).mode == old(self).mode,
            final(self).diagnostics == old(self).diagnostics,
            final(self).pos == digits_end(old(self).src@, old(self).pos as int),
            old(self).pos <= final(self).pos,
    {
        while self.pos < self.src.len() && is_digit(self.src[self.pos])
            invariant
                self.wf(),
                self.same_source(old(self)),
                self.mode == old(self).mode,
                self.diagnostics == old(self).diagnostics,
                digits_end(self.src@, self.pos as int) == digits_end(old(self).src@, old(self).pos as int),
                old(self).pos <= self.pos,
            decreases self.src@.len() - self.pos,
        {
            self.pos = self.pos + 1;
        }
    }

    fn skip_block_comment(&mut self)
        requires
            old(self).wf(),
            old(self).pos + 4 <= old(self).src@.len(),
        ensures
            final(self).wf(),
            final(self).same_source(old(self)),
            final(self).mode == old(self).mode,
            match block_comment_close(old(self).src@, old(self).pos + 4) {
                Some(e) => final(self).pos == e && final(self)@.diagnostics == old(self)@.diagnostics,
                None => final(self).pos == old(self).src@.len() && final(self)@.diagnostics == old(
                    self,
                )@.diagnostics.push(
                    lex_error(
                        old(self)@.file_id,
                        "Unterminated block comment."@,
                        old(self).pos as int,
                        old(self).src@.len() as int,
                    ),
                ),
            },
    {
        let start = self.pos;
        self.pos = self.pos + 4;
        while self.pos < self.src.len()
            invariant
                self.wf(),
                self.same_source(old(self)),
                self.mode == old(self).mode,
                self.diagnostics == old(self).diagnostics,
                start == old(self).pos,
                start + 4 <= self.pos,
                block_comment_close(self.src@, self.pos as int) == block_comment_close(
                    old(self).src@,
                    start + 4,
                ),
            decreases self.src@.len() - self.pos,
        {
            if self.src[self.pos] == 93u8 && self.pos + 1 < self.src.len() && self.src[self.pos
                + 1] == 93u8 {
                self.pos = self.pos + 2;
                return ;
            }
            self.pos = self.pos + 1;
        }
        let span = self.make_span(start, self.pos);
        self.push_diagnostic("Unterminated block comment.", span);
    }

    fn skip_whitespace_and_comments(&mut self)
        requires
            old(self).wf(),
        ensures
            final(self).wf(),
            final(self).same_source(old(self)),
            final(self).mode == old(self).mode,
            (final(self).pos as int, final(self)@.diagnostics) == skip_trivia(
                old(self)@.file_id,
                old(self).src@,
                old(self).pos as int,
                old(self)@.diagnostics,
            ),
    {
        let ghost fid = old(self)@.file_id;
        let ghost s = old(self).src@;
        loop
            invariant
                self.wf(),
                self.same_source(old(self)),
                self.mode == old(self).mode,
                self@.file_id == fid,
                self.src@ == s,
                skip_trivia(fid, s, self.pos as int, self@.diagnostics) == skip_trivia(
                    fid,
                    s,
                    old(self).pos as int,
                    old(self)@.diagnostics,
                ),
            ensures
                skip_trivia(fid, s, self.pos as int, self@.diagnostics) == (
                    self.pos as int,
                    self@.diagnostics,
                ),
            decreases self.src@.len() - self.pos,
        {
            let c = self.current_byte();
            match c {
                Some(b) => {
                    if is_whitespace(b) {
                        self.advance();
                    } else if b == 45u8 && is_byte(self.peek_byte(), 45u8) {
                        if is_byte(self.byte_at_offset(2), 91u8) && is_byte(
                            self.byte_at_offset(3),
                            91u8,
                        ) {
                            proof {
                                lemma_block_comment_close_bounds(s, self.pos + 4);
                            }
                            self.skip_block_comment();
                        } else {
                            self.pos = self.pos + 2;
                            let ghost p0 = self.pos as int;
                            let ghost d0 = self@.diagnostics;
                            proof {
                                lemma_next_newline_bounds(s, p0);
                            }
                            while self.pos < self.src.len() && self.src[self.pos] != 10u8
                                invariant
                                    self.wf(),
                                    self.same_source(old(self)),
                                    self.mode == old(self).mode,
                                    self@.file_id == fid,
                                    self.src@ == s,
                                    self@.diagnostics == d0,
                                    p0 <= self.pos,
                                    next_newline(s, self.pos as int) == next_newline(s, p0),
                                decreases self.src@.len() - self.pos,
                            {
                                self.pos = self.pos + 1;
                            }
                        }
                    } else {
                        break;
                    }
                },
                None => break,
            }
        }
    }
}

/// The token a step describes, read against the file `file`.
pub open spec fn token_of_step(file: FileId, step: LexStep, t: Token) -> bool {
    &&& t.kind@ == step.kind
    &&& t.span == (SourceSpan { file_id: file, start: step.start as usize, end: step.end as usize })
}

impl<'a> Lexer<'a> {
    fn read_identifier(&mut self) -> (result: String)
        requires
            old(self).wf(),
        ensures
            final(self).wf(),
            final(self).same_source(old(self)),
            final(self).mode == old(self).mode,
            final(self).diagnostics == old(self).diagnostics,
            final(self).pos == ident_end(old(self).src@, old(self).pos as int),
            result@ == bytes_as_chars(old(self).src@.subrange(old(self).pos as int, final(self).pos as int)),
    {
        let start = self.pos;
        while self.pos < self.src.len() && (is_alpha(self.src[self.pos]) || is_digit(
            self.src[self.pos],
        ) || self.src[self.pos] == 95u8)
            invariant
                self.wf(),
                self.same_source(old(self)),
                self.mode == old(self).mode,
                self.diagnostics == old(self).diagnostics,
                start == old(self).pos,
                start <= self.pos,
                ident_end(self.src@, self.pos as int) == ident_end(old(self).src@, start as int),
            decreases self.src@.len() - self.pos,
        {
            self.pos = self.pos + 1;
        }
        string_from_bytes(self.src, start, self.pos)
    }

    fn read_number(&mut self) -> (result: String)
        requires
            old(self).wf(),
        ensures
            final(self).wf(),
            final(self).same_source(old(self)),
            final(self).mode == old(self).mode,
            (final(self).pos as int, final(self)@.diagnostics) == number_scan(
                old(self)@.file_id,
                old(self).src@,
                old(self).pos as int,
                old(self)@.diagnostics,
            ),
            result@ == bytes_as_chars(old(self).src@.subrange(old(self).pos as int, final(self).pos as int)),
    {
        let start = self.pos;
        self.skip_digits();
        let c = self.current_byte();
        let next = self.peek_byte();
        let next_is_digit = match next {
            Some(n) => is_digit(n),
            None => false,
        };
        if is_byte(c, 46u8) && next_is_digit {
            self.advance();
            self.skip_digits();
            let next2 = self.peek_byte();
            let next2_is_digit = match next2 {
                Some(n) => is_digit(n),
                None => false,
            };
            if is_byte(self.current_byte(), 46u8) && next2_is_digit {
                let span = self.make_span(start, self.pos.saturating_add(2));
                self.push_diagnostic("Malformed numeric literal", span);
            }
        } else if is_byte(c, 46u8) && !is_byte(next, 46u8) {
            let span = self.make_span(start, self.pos.saturating_add(1));
            self.push_diagnostic("Invalid numeric literal", span);
        }
        let e = self.current_byte();
        if is_byte(e, 101u8) || is_byte(e, 69u8) {
            self.advance();
            let sign = self.current_byte();
            if is_byte(sign, 43u8) || is_byte(sign, 45u8) {
                self.advance();
            }
            self.skip_digits();
        }
        string_from_bytes(self.src, start, self.pos)
    }

    fn read_string(&mut self, quote: u8, token_start: usize) -> (result: String)
        requires
            old(self).wf(),
        ensures
            final(self).wf(),
            final(self).same_source(old(self)),
            final(self).mode == old(self).mode,
            (result@, final(self).pos as int, final(self)@.diagnostics) == string_scan(
                old(self)@.file_id,
                old(self).src@,
                quote,
                token_start as int,
                old(self).pos as int,
                Seq::empty(),
                old(self)@.diagnostics,
            ),
    {
        let ghost fid = old(self)@.file_id;
        let ghost s = old(self).src@;
        let ghost target = string_scan(
            fid,
            s,
            quote,
            token_start as int,
            old(self).pos as int,
            Seq::empty(),
            old(self)@.diagnostics,
        );
        let mut out = String::new();
        let mut done = false;
        while !done
            invariant
                self.wf(),
                self.same_source(old(self)),
                self.mode == old(self).mode,
                self@.file_id == fid,
                self.src@ == s,
                !done ==> string_scan(fid, s, quote, token_start as int, self.pos as int, out@, self@.diagnostics)
                    == target,
                done ==> (out@, self.pos as int, self@.diagnostics) == target,
            decreases self.src@.len() - self.pos + if done { 0int } else { 1int },
        {
            if self.pos >= self.src.len() {
                let span = self.make_span(token_start, self.pos);
                self.push_diagnostic("Unterminated string literal", span);
                done = true;
            } else {
                let b = self.src[self.pos];
                if b == quote {
                    self.pos = self.pos + 1;
                    done = true;
                } else if b == 10u8 || b == 13u8 {
                    let span = self.make_span(token_start, self.pos);
                    self.push_diagnostic("Unterminated string literal", span);
                    done = true;
                } else if b == 92u8 {
                    let escape_start = self.pos;
                    self.pos = self.pos + 1;
                    if self.pos < self.src.len() {
                        let esc = self.src[self.pos];
                        self.pos = self.pos + 1;
                        if esc == 110u8 {
                            push_char(&mut out, '\n');
                        } else if esc == 114u8 {
                            push_char(&mut out, '\r');
                        } else if esc == 116u8 {
                            push_char(&mut out, '\t');
                        } else if esc == 92u8 {
                            push_char(&mut out, '\\');
                        } else if esc == 34u8 {
                            push_char(&mut out, '"');
                        } else if esc == 39u8 {
                            push_char(&mut out, '\'');
                        } else {
                            let span = self.make_span(escape_start, self.pos);
                            self.push_diagnostic("Unknown escape sequence", span);
                            push_char(&mut out, esc as char);
                        }
                    } else {
                        let span = self.make_span(token_start, self.pos);
                        self.push_diagnostic("Unterminated string literal", span);
                        done = true;
                    }
                } else {
                    push_char(&mut out, b as char);
                    self.pos = self.pos + 1;
                }
            }
        }
        out
    }

    fn read_interpolated_string_text(&mut self) -> (result: String)
        requires
            old(self).wf(),
        ensures
            final(self).wf(),
            final(self).same_source(old(self)),
            final(self).mode == old(self).mode,
            final(self).diagnostics == old(self).diagnostics,
            final(self).pos == interpolated_text_end(old(self).src@, old(self).pos as int),
            result@ == bytes_as_chars(old(self).src@.subrange(old(self).pos as int, final(self).pos as int)),
    {
        let start = self.pos;
        while self.pos < self.src.len() && self.src[self.pos] != 96u8 && self.src[self.pos] != 123u8
            invariant
                self.wf(),
                self.same_source(old(self)),
                self.mode == old(self).mode,
                self.diagnostics == old(self).diagnostics,
                start == old(self).pos,
                start <= self.pos,
                interpolated_text_end(self.src@, self.pos as int) == interpolated_text_end(
                    old(self).src@,
                    start as int,
                ),
            decreases self.src@.len() - self.pos,
        {
            self.pos = self.pos + 1;
        }
        string_from_bytes(self.src, start, self.pos)
    }

    fn next_normal_token(&mut self) -> (result: Token)
        requires
            old(self).wf(),
        ensures
            final(self).wf(),
            final(self).same_source(old(self)),
            ({
                let step = normal_step(
                    old(self)@.file_id,
                    old(self).src@,
                    old(self).pos as int,
                    old(self).mode,
                    old(self)@.diagnostics,
                );
                &&& token_of_step(old(self)@.file_id, step, result)
                &&& final(self).pos == step.pos
                &&& final(self).mode == step.mode
                &&& final(self)@.diagnostics == step.diagnostics
            }),
    {
        self.skip_whitespace_and_comments();
        let start = self.pos;
        let c = self.current_byte();
        match c {
            None => Token { kind: TokenKind::EOF, span: self.make_span(start, start) },
            Some(b) => {
                if is_alpha(b) || b == 95u8 {
                    let s = self.read_identifier();
                    let kind = match keyword_token(s.as_str()) {
                        Some(kw) => kw,
                        None => TokenKind::Identifier(s),
                    };
                    let end = self.pos;
                    Token { kind, span: self.make_span(start, end) }
                } else if is_digit(b) {
                    let s = self.read_number();
                    let end = self.pos;
                    Token { kind: TokenKind::NumberLiteral(s), span: self.make_span(start, end) }
                } else if b == 34u8 || b == 39u8 {
                    self.advance();
                    let s = self.read_string(b, start);
                    let end = self.pos;
                    Token { kind: TokenKind::StringLiteral(s), span: self.make_span(start, end) }
                } else if b == 96u8 {
                    self.advance();
                    let end = self.pos;
                    self.mode = LexerMode::InterpolatedString;
                    Token { kind: TokenKind::InterpolatedStringStart, span: self.make_span(start, end) }
                } else if b == 46u8 && is_byte(self.peek_byte(), 46u8) && is_byte(
                    self.byte_at_offset(2),
                    46u8,
                ) {
                    self.pos = self.pos + 3;
                    let end = self.pos;
                    Token { kind: TokenKind::DotDotDot, span: self.make_span(start, end) }
                } else {
                    match two_char_token(b, self.peek_byte()) {
                        Some(kind) => {
                            self.pos = self.pos + 2;
                            let end = self.pos;
                            Token { kind, span: self.make_span(start, end) }
                        },
                        None => {
                            self.advance();
                            let kind = single_char_token(b);
                            if let TokenKind::Unknown(_) = kind {
                                let span = self.make_span(start, self.pos);
                                self.push_diagnostic("Unexpected character", span);
                            }
                            let is_dot = match kind {
                                TokenKind::Dot => true,
                                _ => false,
                            };
                            let next_is_digit = match self.current_byte() {
                                Some(n) => is_digit(n),
                                None => false,
                            };
                            if is_dot && next_is_digit {
                                let span = self.make_span(start, self.pos.saturating_add(1));
                                self.push_diagnostic("Invalid numeric literal", span);
                            }
                            let end = self.pos;
                            Token { kind, span: self.make_span(start, end) }
                        },
                    }
                }
            },
        }
    }

    fn next_interpolation_token(&mut self) -> (result: Token)
        requires
            old(self).wf(),
            old(self).mode == LexerMode::Interpolation,
        ensures
            final(self).wf(),
            final(self).same_source(old(self)),
            ({
                let step = interpolation_step(
                    old(self)@.file_id,
                    old(self).src@,
                    old(self).pos as int,
                    old(self)@.diagnostics,
                );
                &&& token_of_step(old(self)@.file_id, step, result)
                &&& final(self).pos == step.pos
                &&& final(self).mode == step.mode
                &&& final(self)@.diagnostics == step.diagnostics
            }),
    {
        self.skip_whitespace_and_comments();
        let start = self.pos;
        match self.current_byte() {
            Some(b) => {
                if b == 125u8 {
                    self.advance();
                    self.mode = LexerMode::InterpolatedString;
                    Token { kind: TokenKind::InterpolationEnd, span: self.make_span(start, self.pos) }
                } else {
                    self.next_normal_token()
                }
            },
            None => {
                let span = self.make_span(start, start);
                self.push_diagnostic("Unterminated interpolated string", span);
                self.mode = LexerMode::Normal;
                Token { kind: TokenKind::EOF, span: self.make_span(start, start) }
            },
        }
    }

    fn next_interpolated_string_token(&mut self) -> (result: Token)
        requires
            old(self).wf(),
        ensures
            final(self).wf(),
            final(self).same_source(old(self)),
            ({
                let step = interpolated_string_step(
                    old(self)@.file_id,
                    old(self).src@,
                    old(self).pos as int,
                    old(self)@.diagnostics,
                );
                &&& token_of_step(old(self)@.file_id, step, result)
                &&& final(self).pos == step.pos
                &&& final(self).mode == step.mode
                &&& final(self)@.diagnostics == step.diagnostics
            }),
    {
        let start = self.pos;
        match self.current_byte() {
            Some(b) => {
                if b == 96u8 {
                    self.advance();
                    self.mode = LexerMode::Normal;
                    Token { kind: TokenKind::InterpolatedStringEnd, span: self.make_span(start, self.pos) }
                } else if b == 123u8 {
                    self.advance();
                    self.mode = LexerMode::Interpolation;
                    Token { kind: TokenKind::InterpolationStart, span: self.make_span(start, self.pos) }
                } else {
                    let text = self.read_interpolated_string_text();
                    self.mode = LexerMode::InterpolatedString;
                    Token { kind: TokenKind::StringText(text), span: self.make_span(start, self.pos) }
                }
            },
            None => {
                let span = self.make_span(start, start);
                self.push_diagnostic("Unterminated interpolated string", span);
                self.mode = LexerMode::Normal;
                Token { kind: TokenKind::EOF, span: self.make_span(start, start) }
            },
        }
    }
}

/// The lexing stage of the pipeline.
#[derive(Debug, Default)]
pub struct LexerStage;

} // verus!
