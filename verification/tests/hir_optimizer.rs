use lib::hir::builder::HirBuilder;
use lib::hir::expression::{HirExpression, HirExpressionKind};
use lib::hir::ids::HirSymbolId;
use lib::hir::module::HirModule;
use lib::hir::optimizer::{HirOptimizationResult, HirOptimizer};
use lib::hir::statement::{HirStatement, HirStatementKind};
use lib::hir::types::{HirType, HirUnaryOperator};
use lib::hir::validator::HirValidator;
use lib::lexer::{Lexer, TokenKind};
use lib::parser::Parser;
use lib::source::{FileId, SourceManager, SourceSpan};

fn lower_source(source: &str) -> HirModule {
    let mut sources = SourceManager::new();
    let file_id = sources.add_file("optimizer_test.glu", source.to_string());
    let file = sources.get(file_id).unwrap();
    let mut lexer = Lexer::new(file);
    let mut tokens = Vec::new();

    loop {
        let token = lexer.next_token();
        let done = matches!(token.kind, TokenKind::EOF);
        tokens.push(token);
        if done {
            break;
        }
    }

    let mut parser = Parser::new(&tokens);
    let ast = parser.parse_program();
    HirBuilder::new().build(&ast).unwrap()
}

fn optimize_source(source: &str) -> HirOptimizationResult {
    let module = lower_source(source);
    let result = HirOptimizer::new().optimize(module);
    HirValidator::new().validate(&result.module).unwrap();
    result
}

fn main_body(result: &HirOptimizationResult) -> &[HirStatement] {
    &result.module.functions.iter().find(|function| function.name == "main").unwrap().body
}

fn span() -> SourceSpan {
    SourceSpan::new(FileId::new(0), 0, 1)
}

fn literal(kind: HirExpressionKind, ty: HirType) -> HirExpression {
    HirExpression { kind, expr_type: Some(ty), symbol_id: None, span: span() }
}

#[test]
fn folds_boolean_and_string_constants() {
    let result = optimize_source("local truth = true and false\nlocal text = \"a\" .. \"b\"");
    let HirStatementKind::LocalVariable { initializer: Some(first), .. } = &main_body(&result)[0].kind else {
        panic!("expected boolean local");
    };
    let HirStatementKind::LocalVariable { initializer: Some(second), .. } = &main_body(&result)[1].kind else {
        panic!("expected string local");
    };

    assert!(matches!(first.kind, HirExpressionKind::Boolean(false)));
    assert!(matches!(second.kind, HirExpressionKind::String(ref text) if text == "ab"));
    assert_eq!(result.stats.constant_folds, 2);
}

#[test]
fn propagates_unassigned_local_constants() {
    let result = optimize_source("local x = 7\nlocal y = x");
    let HirStatementKind::LocalVariable { initializer: Some(initializer), .. } = &main_body(&result)[1].kind else {
        panic!("expected propagated local");
    };

    assert!(matches!(initializer.kind, HirExpressionKind::Number(ref text) if text == "7"));
    assert_eq!(result.stats.constants_propagated, 1);
}

#[test]
fn removes_dead_expression_statements_but_keeps_calls() {
    let result = optimize_source("1 + 2\nprint(\"alive\")");
    let body = main_body(&result);

    assert_eq!(body.len(), 1);
    assert!(matches!(body[0].kind, HirStatementKind::Expression(_)));
    assert_eq!(result.stats.dead_expressions_removed, 1);
}

#[test]
fn removes_unreachable_statements_after_return() {
    let result = optimize_source("function f()\nreturn 1\nprint(\"nope\")\nend");
    let function = result.module.functions.iter().find(|function| function.name == "f").unwrap();

    assert_eq!(function.body.len(), 1);
    assert_eq!(result.stats.unreachable_statements_removed, 1);
}

#[test]
fn simplifies_constant_if_conditions() {
    let statement = HirStatement {
        span: span(),
        kind: HirStatementKind::If {
            condition: literal(HirExpressionKind::Boolean(true), HirType::Boolean),
            then_block: vec![HirStatement {
                kind: HirStatementKind::Return(Some(vec![literal(
                    HirExpressionKind::Number("1".to_string()),
                    HirType::Integer,
                )])),
                span: span(),
            }],
            else_block: Some(Vec::new()),
        },
    };
    let mut optimizer = HirOptimizer::new();
    let optimized = optimizer.optimize_statements(vec![statement], &mut Vec::new(), &Vec::new());

    assert!(matches!(optimized[0].kind, HirStatementKind::Block(_)));
    assert_eq!(optimizer.stats().control_flow_simplified, 1);
}

#[test]
fn assigned_locals_are_not_propagated() {
    let result = optimize_source("local x = 1\nx = 2\nlocal y = x");
    let HirStatementKind::LocalVariable { initializer: Some(initializer), .. } = &main_body(&result)[2].kind else {
        panic!("expected local");
    };

    assert!(matches!(initializer.kind, HirExpressionKind::LocalVariable(_)));
    assert_eq!(result.stats.constants_propagated, 0);
}

#[test]
fn double_negation_and_boolean_identities_simplify() {
    let result = optimize_source("local a = 1 < 2\nlocal b = not not a\nlocal c = a and true\nlocal d = false or a");
    let body = main_body(&result);
    for index in 1..4 {
        let HirStatementKind::LocalVariable { initializer: Some(initializer), .. } = &body[index].kind else {
            panic!("expected local");
        };
        assert!(matches!(initializer.kind, HirExpressionKind::LocalVariable(_)));
    }
    assert_eq!(result.stats.expressions_simplified, 3);
    assert_eq!(result.stats.total_changes(), 3);
}

#[test]
fn not_of_a_literal_folds() {
    let mut optimizer = HirOptimizer::new();
    let statement = HirStatement {
        span: span(),
        kind: HirStatementKind::Return(Some(vec![HirExpression {
            kind: HirExpressionKind::Unary {
                operator: HirUnaryOperator::Not,
                operand: Box::new(literal(HirExpressionKind::Boolean(true), HirType::Boolean)),
            },
            expr_type: Some(HirType::Boolean),
            symbol_id: None,
            span: span(),
        }])),
    };
    let optimized = optimizer.optimize_statements(vec![statement], &mut Vec::new(), &Vec::new());
    let HirStatementKind::Return(Some(values)) = &optimized[0].kind else {
        panic!("expected return");
    };
    assert!(matches!(values[0].kind, HirExpressionKind::Boolean(false)));
    assert_eq!(optimizer.stats().constant_folds, 1);
}

fn call_statement(name: &str) -> HirStatement {
    HirStatement {
        span: span(),
        kind: HirStatementKind::Expression(HirExpression {
            kind: HirExpressionKind::FunctionCall {
                callee: Box::new(HirExpression {
                    kind: HirExpressionKind::GlobalVariable(name.to_string()),
                    expr_type: None,
                    symbol_id: None,
                    span: span(),
                }),
                arguments: Vec::new(),
            },
            expr_type: None,
            symbol_id: None,
            span: span(),
        }),
    }
}

#[test]
fn loops_on_false_are_dropped_and_false_ifs_take_the_else_block() {
    let never = HirStatement {
        span: span(),
        kind: HirStatementKind::While {
            condition: literal(HirExpressionKind::Boolean(false), HirType::Boolean),
            body: vec![call_statement("a")],
        },
    };
    let branch = HirStatement {
        span: span(),
        kind: HirStatementKind::If {
            condition: literal(HirExpressionKind::Boolean(false), HirType::Boolean),
            then_block: vec![call_statement("b")],
            else_block: Some(vec![call_statement("c"), call_statement("d")]),
        },
    };
    let mut optimizer = HirOptimizer::new();
    let body = optimizer.optimize_statements(vec![never, branch], &mut Vec::new(), &Vec::new());

    assert_eq!(body.len(), 1);
    let HirStatementKind::Block(taken) = &body[0].kind else {
        panic!("expected the else block");
    };
    assert_eq!(taken.len(), 2);
    assert_eq!(optimizer.stats().control_flow_simplified, 2);
}

#[test]
fn known_constants_are_used_in_a_run_and_restored_after() {
    let mut optimizer = HirOptimizer::new();
    let symbol = HirSymbolId(40);
    let mut constants = vec![(symbol, Some(literal(HirExpressionKind::String("k".to_string()), HirType::String)))];
    let reference = HirExpression {
        kind: HirExpressionKind::GlobalVariable("g".to_string()),
        expr_type: None,
        symbol_id: Some(symbol),
        span: span(),
    };
    let statement = HirStatement { span: span(), kind: HirStatementKind::Return(Some(vec![reference])) };
    let optimized = optimizer.optimize_statements(vec![statement], &mut constants, &Vec::new());
    let HirStatementKind::Return(Some(values)) = &optimized[0].kind else {
        panic!("expected return");
    };
    assert!(matches!(values[0].kind, HirExpressionKind::String(ref text) if text == "k"));
    assert_eq!(constants.len(), 1);
    assert_eq!(optimizer.stats().constants_propagated, 1);
}

#[test]
fn break_ends_a_loop_body() {
    let looped = HirStatement {
        span: span(),
        kind: HirStatementKind::While {
            condition: literal(HirExpressionKind::Boolean(true), HirType::Boolean),
            body: vec![HirStatement { span: span(), kind: HirStatementKind::Break }, call_statement("a"), call_statement("b")],
        },
    };
    let mut optimizer = HirOptimizer::new();
    let body = optimizer.optimize_statements(vec![looped], &mut Vec::new(), &Vec::new());
    let HirStatementKind::While { body, .. } = &body[0].kind else {
        panic!("expected loop");
    };
    assert_eq!(body.len(), 1);
    assert_eq!(optimizer.stats().unreachable_statements_removed, 2);
}

// Arithmetic on numbers is floating point, which the optimizer does not fold,
// so the statistics report is checked on a boolean fold.
#[test]
fn reports_optimization_statistics_for_a_boolean_fold() {
    let result = optimize_source("true and false");
    let report = result.stats.report();

    assert!(report.contains("HIR Optimization"));
    assert!(report.contains("Constant Folds: 1"));
    assert!(report.contains("Dead Expressions Removed: 1"));
}
