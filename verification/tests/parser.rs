use lib::lexer::{Lexer, Token, TokenKind};
use lib::parser::ast_builder::{AstNode, ExpressionKind, StatementKind, TableField};
use lib::parser::Parser;
use lib::source::SourceManager;

fn tokens_of(path: &str, src: &str) -> Vec<Token> {
    let mut sources = SourceManager::new();
    let file_id = sources.add_file(path, String::from(src));
    let file = sources.get(file_id).unwrap();
    let mut lexer = Lexer::new(file);
    let mut tokens = Vec::new();
    loop {
        let token = lexer.next_token();
        tokens.push(token.clone());
        if matches!(token.kind, TokenKind::EOF) {
            break;
        }
    }
    tokens
}

#[test]
fn parse_program_returns_program_ast() {
    let tokens = tokens_of("test.glu", "");
    let mut parser = Parser::new(&tokens);
    let ast = parser.parse_program();

    assert!(matches!(ast, AstNode::Program(_)));
}

#[test]
fn parse_binary_expression_respects_precedence() {
    let tokens = tokens_of("test.glu", "1 + 2 * 3");
    let mut parser = Parser::new(&tokens);
    let expr = parser.parse_expression();

    match expr.kind {
        ExpressionKind::Binary { left, operator, right } => {
            assert_eq!(operator, "+");
            assert!(matches!(left.kind, ExpressionKind::NumberLiteral(ref s) if s == "1"));
            match right.kind {
                ExpressionKind::Binary { left: inner_left, operator: inner_op, right: inner_right } => {
                    assert_eq!(inner_op, "*");
                    assert!(matches!(inner_left.kind, ExpressionKind::NumberLiteral(ref s) if s == "2"));
                    assert!(matches!(inner_right.kind, ExpressionKind::NumberLiteral(ref s) if s == "3"));
                }
                _ => panic!("expected multiplication on right-hand side"),
            }
        }
        _ => panic!("expected top-level binary expression"),
    }
}

#[test]
fn parse_call_expression_parses_arguments() {
    let tokens = tokens_of("test.glu", "print(1, 2)");
    let mut parser = Parser::new(&tokens);
    let expr = parser.parse_expression();

    match expr.kind {
        ExpressionKind::Call { callee, arguments } => {
            assert!(matches!(callee.kind, ExpressionKind::Identifier(ref s) if s == "print"));
            assert_eq!(arguments.len(), 2);
            assert!(matches!(arguments[0].kind, ExpressionKind::NumberLiteral(ref s) if s == "1"));
            assert!(matches!(arguments[1].kind, ExpressionKind::NumberLiteral(ref s) if s == "2"));
        }
        _ => panic!("expected call expression"),
    }
}

#[test]
fn parses_local_statement_in_program() {
    let tokens = tokens_of("main.glu", "local x = 5\nprint(x)");
    let mut parser = Parser::new(&tokens);
    let ast = parser.parse_program();
    match ast {
        AstNode::Program(program) => {
            assert_eq!(program.statements.len(), 2);
            assert!(matches!(program.statements[0].kind, StatementKind::Local { .. }));
            assert!(matches!(program.statements[1].kind, StatementKind::Expression(_)));
        }
        _ => panic!("expected program"),
    }
}

#[test]
fn left_associative_subtraction() {
    let tokens = tokens_of("main.glu", "8 - 3 - 1");
    let mut parser = Parser::new(&tokens);
    let expr = parser.parse_expression();
    match expr.kind {
        ExpressionKind::Binary { left, operator, right } => {
            assert_eq!(operator, "-");
            assert!(matches!(right.kind, ExpressionKind::NumberLiteral(ref s) if s == "1"));
            assert!(matches!(left.kind, ExpressionKind::Binary { .. }));
        }
        _ => panic!("expected binary expression"),
    }
}

#[test]
fn empty_program_has_no_statements_and_no_diagnostics() {
    let tokens = tokens_of("test.glu", "");
    let mut parser = Parser::new(&tokens);
    let ast = parser.parse_program();
    match ast {
        AstNode::Program(program) => {
            assert!(program.statements.is_empty());
            assert_eq!(program.span.start(), 0);
            assert_eq!(program.span.end(), 0);
        }
        _ => panic!("expected program"),
    }
    assert!(parser.diagnostics().is_empty());
}

#[test]
fn power_groups_to_the_right() {
    let tokens = tokens_of("main.glu", "2 ^ 3 ^ 2");
    let mut parser = Parser::new(&tokens);
    let expr = parser.parse_expression();
    match expr.kind {
        ExpressionKind::Binary { left, operator, right } => {
            assert_eq!(operator, "^");
            assert!(matches!(left.kind, ExpressionKind::NumberLiteral(ref s) if s == "2"));
            assert!(matches!(right.kind, ExpressionKind::Binary { .. }));
        }
        _ => panic!("expected binary expression"),
    }
}

#[test]
fn unclosed_parenthesis_is_reported() {
    let tokens = tokens_of("main.glu", "(1 + 2");
    let mut parser = Parser::new(&tokens);
    let expr = parser.parse_expression();
    assert!(matches!(expr.kind, ExpressionKind::Binary { .. }));
    assert_eq!(parser.diagnostics().len(), 1);
    assert_eq!(parser.diagnostics()[0].message(), "Expected ')' after expression");
}

#[test]
fn function_declaration_with_typed_parameters() {
    let tokens = tokens_of("main.glu", "function add(a: number, b: number): number return a + b end");
    let mut parser = Parser::new(&tokens);
    let ast = parser.parse_program();
    assert!(parser.diagnostics().is_empty());
    match ast {
        AstNode::Program(program) => {
            assert_eq!(program.statements.len(), 1);
            match &program.statements[0].kind {
                StatementKind::Function { name, receiver, params, return_type, body, is_local } => {
                    assert_eq!(name, "add");
                    assert!(receiver.is_none());
                    assert_eq!(params.len(), 2);
                    assert_eq!(params[0].0, "a");
                    assert_eq!(params[1].0, "b");
                    assert!(params[0].1.is_some());
                    assert!(return_type.is_some());
                    assert_eq!(body.len(), 1);
                    assert!(matches!(body[0].kind, StatementKind::Return(_)));
                    assert!(!*is_local);
                }
                _ => panic!("expected function declaration"),
            }
        }
        _ => panic!("expected program"),
    }
}

#[test]
fn table_constructor_reads_each_field_form() {
    let tokens = tokens_of("main.glu", "f { x = 1, [2] = 3, 4 }");
    let mut parser = Parser::new(&tokens);
    let expr = parser.parse_expression();
    match expr.kind {
        ExpressionKind::Call { arguments, .. } => {
            assert_eq!(arguments.len(), 1);
            match &arguments[0].kind {
                ExpressionKind::TableConstructor(fields) => {
                    assert_eq!(fields.len(), 3);
                    assert!(matches!(fields[0], TableField::Named { ref key, .. } if key == "x"));
                    assert!(matches!(fields[1], TableField::Indexed { .. }));
                    assert!(matches!(fields[2], TableField::Expression(_)));
                }
                _ => panic!("expected table constructor"),
            }
        }
        _ => panic!("expected call with a table argument"),
    }
    assert!(parser.diagnostics().is_empty());
}

#[test]
fn method_call_reads_name_and_arguments() {
    let tokens = tokens_of("main.glu", "obj:method(1)");
    let mut parser = Parser::new(&tokens);
    let expr = parser.parse_expression();
    match expr.kind {
        ExpressionKind::MethodCall { receiver, method, arguments } => {
            assert!(matches!(receiver.kind, ExpressionKind::Identifier(ref s) if s == "obj"));
            assert_eq!(method, "method");
            assert_eq!(arguments.len(), 1);
        }
        _ => panic!("expected method call"),
    }
}
