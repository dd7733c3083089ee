use lib::lexer::{keyword_token, Lexer, TokenKind};
use lib::source::SourceManager;

fn lex_all(src: &str) -> (Vec<TokenKind>, Vec<String>) {
    let mut srcs = SourceManager::new();
    let id = srcs.add_file("t.glu", String::from(src));
    let file = srcs.get(id).unwrap();
    let mut lex = Lexer::new(file);
    let mut kinds = Vec::new();
    for _ in 0..1000 {
        let t = lex.next_token();
        let eof = matches!(t.kind, TokenKind::EOF);
        kinds.push(t.kind);
        if eof {
            break;
        }
    }
    let messages = lex.diagnostics().iter().map(|d| d.message().to_string()).collect();
    (kinds, messages)
}

#[test]
fn basic_tokenization() {
    let mut srcs = SourceManager::new();
    let id = srcs.add_file("test.glu", String::from("local x = 42\nprint(x)\n-- comment\n"));
    let file = srcs.get(id).unwrap();

    let mut lex = Lexer::new(file);
    let t1 = lex.next_token();
    assert!(matches!(t1.kind, TokenKind::Local));
    let t2 = lex.next_token();
    assert!(matches!(t2.kind, TokenKind::Identifier(ref s) if s == "x"));
    let t3 = lex.next_token();
    assert!(matches!(t3.kind, TokenKind::Equal));
    let t4 = lex.next_token();
    assert!(matches!(t4.kind, TokenKind::NumberLiteral(ref s) if s == "42"));
    let t5 = lex.next_token();
    assert!(matches!(t5.kind, TokenKind::Identifier(ref s) if s == "print"));
    let t6 = lex.next_token();
    assert!(matches!(t6.kind, TokenKind::LeftParen));
    let t7 = lex.next_token();
    assert!(matches!(t7.kind, TokenKind::Identifier(ref s) if s == "x"));
    let t8 = lex.next_token();
    assert!(matches!(t8.kind, TokenKind::RightParen));
    let t9 = lex.next_token();
    assert!(matches!(t9.kind, TokenKind::EOF));
}

#[test]
fn spans_cover_token_bytes() {
    let mut srcs = SourceManager::new();
    let id = srcs.add_file("t.glu", String::from("  foo == 3.5"));
    let file = srcs.get(id).unwrap();
    let mut lex = Lexer::new(file);
    let t = lex.next_token();
    assert_eq!((t.span.start, t.span.end), (2, 5));
    let t = lex.next_token();
    assert_eq!(t.kind, TokenKind::EqualEqual);
    assert_eq!((t.span.start, t.span.end), (6, 8));
    let t = lex.next_token();
    assert_eq!(t.kind, TokenKind::NumberLiteral(String::from("3.5")));
    assert_eq!((t.span.start, t.span.end), (9, 12));
}

#[test]
fn operators_and_punctuation() {
    let (kinds, msgs) = lex_all("~= <= >= += -= *= /= %= &= |= .. -> ... ^ ? :");
    assert_eq!(
        kinds,
        vec![
            TokenKind::NotEqual,
            TokenKind::LessEqual,
            TokenKind::GreaterEqual,
            TokenKind::PlusEqual,
            TokenKind::MinusEqual,
            TokenKind::StarEqual,
            TokenKind::SlashEqual,
            TokenKind::PercentEqual,
            TokenKind::AmpersandEqual,
            TokenKind::PipeEqual,
            TokenKind::DotDot,
            TokenKind::Arrow,
            TokenKind::DotDotDot,
            TokenKind::Caret,
            TokenKind::Question,
            TokenKind::Colon,
            TokenKind::EOF
        ]
    );
    assert!(msgs.is_empty());
}

#[test]
fn string_escapes_and_errors() {
    let (kinds, msgs) = lex_all("'a\\tb' \"x\\qy\"");
    assert_eq!(kinds[0], TokenKind::StringLiteral(String::from("a\tb")));
    assert_eq!(kinds[1], TokenKind::StringLiteral(String::from("xqy")));
    assert_eq!(msgs, vec![String::from("Unknown escape sequence")]);

    let (kinds, msgs) = lex_all("\"open\nx");
    assert_eq!(kinds[0], TokenKind::StringLiteral(String::from("open")));
    assert_eq!(kinds[1], TokenKind::Identifier(String::from("x")));
    assert_eq!(msgs, vec![String::from("Unterminated string literal")]);
}

#[test]
fn comments_and_block_comments() {
    let (kinds, msgs) = lex_all("--[[ block ]] a -- line\nb --[[ open");
    assert_eq!(
        kinds,
        vec![
            TokenKind::Identifier(String::from("a")),
            TokenKind::Identifier(String::from("b")),
            TokenKind::EOF
        ]
    );
    assert_eq!(msgs, vec![String::from("Unterminated block comment.")]);
}

#[test]
fn numbers_with_fraction_and_exponent() {
    let (kinds, msgs) = lex_all("1.25e+3 7. 1.2.3");
    assert_eq!(kinds[0], TokenKind::NumberLiteral(String::from("1.25e+3")));
    assert_eq!(kinds[1], TokenKind::NumberLiteral(String::from("7")));
    assert_eq!(kinds[2], TokenKind::Dot);
    assert_eq!(kinds[3], TokenKind::NumberLiteral(String::from("1.2")));
    assert_eq!(
        msgs,
        vec![
            String::from("Invalid numeric literal"),
            String::from("Malformed numeric literal"),
            String::from("Invalid numeric literal")
        ]
    );
}

#[test]
fn interpolated_strings_switch_modes() {
    let (kinds, msgs) = lex_all("`a{x}b`");
    assert_eq!(
        kinds,
        vec![
            TokenKind::InterpolatedStringStart,
            TokenKind::StringText(String::from("a")),
            TokenKind::InterpolationStart,
            TokenKind::Identifier(String::from("x")),
            TokenKind::InterpolationEnd,
            TokenKind::StringText(String::from("b")),
            TokenKind::InterpolatedStringEnd,
            TokenKind::EOF
        ]
    );
    assert!(msgs.is_empty());
    let (kinds, msgs) = lex_all("`abc");
    assert_eq!(kinds.last(), Some(&TokenKind::EOF));
    assert_eq!(msgs, vec![String::from("Unterminated interpolated string")]);
}

#[test]
fn unknown_characters_are_reported() {
    let (kinds, msgs) = lex_all("a $ b");
    assert_eq!(kinds[1], TokenKind::Unknown('$'));
    assert_eq!(msgs, vec![String::from("Unexpected character")]);
}

#[test]
fn keywords_are_recognised() {
    assert_eq!(keyword_token("elseif"), Some(TokenKind::ElseIf));
    assert_eq!(keyword_token("continue"), Some(TokenKind::Continue));
    assert_eq!(keyword_token("print"), None);
}
