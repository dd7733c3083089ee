use lib::hir::builder::HirBuilder;
use lib::hir::expression::HirExpression;
use lib::hir::ids::{HirScopeId, HirSymbolId, HirVariableId};
use lib::hir::module::HirGlobalVariable;
use lib::hir::validator::{HirValidationError, HirValidator};
use lib::source::{FileId, SourceSpan};
use lib::hir::error::HirError;
use lib::hir::expression::HirExpressionKind;
use lib::hir::module::HirModule;
use lib::hir::printer::HirPrinter;
use lib::hir::statement::HirStatementKind;
use lib::hir::symbol::HirSymbolKind;
use lib::hir::types::HirType;
use lib::lexer::{Lexer, TokenKind};
use lib::parser::ast_builder::AstNode;
use lib::parser::Parser;
use lib::source::SourceManager;

fn lower_source(source: &str) -> HirModule {
    let mut sources = SourceManager::new();
    let file_id = sources.add_file("test.glu", source.to_string());
    let file = sources.get(file_id).unwrap();
    let mut lexer = Lexer::new(file);
    let mut tokens = Vec::new();

    loop {
        let token = lexer.next_token();
        let done = matches!(token.kind, TokenKind::EOF);
        tokens.push(token);
        if done {
            break;
        }
    }

    let mut parser = Parser::new(&tokens);
    let ast = parser.parse_program();
    HirBuilder::new().build(&ast).unwrap()
}

#[test]
fn local_references_store_symbol_and_type_metadata() {
    let module = lower_source("local x = 5\nprint(x)");
    let local_symbol = module.symbols.iter().find(|symbol| symbol.name == "x").unwrap();
    let main = module.functions.iter().find(|function| function.name == "main").unwrap();

    assert_eq!(local_symbol.kind, HirSymbolKind::Local);
    assert_eq!(local_symbol.value_type, Some(HirType::Number));
    assert_eq!(main.local_variables.len(), 1);

    let HirStatementKind::Expression(expression) = &main.body[1].kind else {
        panic!("expected print expression");
    };
    let HirExpressionKind::BuiltinCall { arguments, .. } = &expression.kind else {
        panic!("expected builtin call");
    };

    assert!(matches!(arguments[0].kind, HirExpressionKind::LocalVariable(_)));
    assert_eq!(arguments[0].symbol_id, Some(local_symbol.id));
    assert_eq!(arguments[0].expr_type, Some(HirType::Number));
}

#[test]
fn function_parameters_store_symbol_and_type_metadata() {
    let module = lower_source("function square(x: number): number\nreturn x * x\nend");
    let function = module.functions.iter().find(|function| function.name == "square").unwrap();

    assert_eq!(function.parameters.len(), 1);
    assert_eq!(function.parameters[0].param_type, Some(HirType::Number));
    assert_eq!(function.return_type, Some(HirType::Number));

    let HirStatementKind::Return(Some(values)) = &function.body[0].kind else {
        panic!("expected return statement");
    };
    let HirExpressionKind::Binary { left, right, .. } = &values[0].kind else {
        panic!("expected binary expression");
    };

    assert_eq!(left.symbol_id, Some(function.parameters[0].symbol_id));
    assert_eq!(right.symbol_id, Some(function.parameters[0].symbol_id));
    assert_eq!(values[0].expr_type, Some(HirType::Number));
}

#[test]
fn builder_refuses_non_program() {
    let result = HirBuilder::new().build(&AstNode::Error);
    match result {
        Err(HirError::InvalidInput(message)) => assert_eq!(message, "Expected program node"),
        _ => panic!("expected invalid input"),
    }
}

#[test]
fn unbound_names_are_globals_and_numbers_keep_their_text() {
    let module = lower_source("y = 2.50 .. \"s\"");
    let main = &module.functions[0];
    assert_eq!(main.name, "main");
    let HirStatementKind::Assignment { targets, values } = &main.body[0].kind else {
        panic!("expected assignment");
    };
    assert!(matches!(targets[0].kind, HirExpressionKind::GlobalVariable(ref n) if n == "y"));
    assert_eq!(targets[0].symbol_id, None);
    let HirExpressionKind::Binary { left, .. } = &values[0].kind else {
        panic!("expected concatenation");
    };
    assert!(matches!(left.kind, HirExpressionKind::Number(ref t) if t == "2.50"));
    assert_eq!(values[0].expr_type, Some(HirType::String));
}

#[test]
fn no_main_without_top_level_statements() {
    let module = lower_source("function f()\nend");
    assert_eq!(module.functions.len(), 1);
    assert_eq!(module.functions[0].name, "f");
    assert_eq!(module.scopes.len(), 2);
    assert_eq!(module.scopes[1].parent, Some(module.scopes[0].id));
}

#[test]
fn errors_and_types_read_as_text() {
    assert_eq!(HirError::LoweringError(String::from("bad")).to_string(), "Lowering error: bad");
    assert_eq!(HirError::InvalidInput(String::from("x")).to_string(), "Invalid input: x");
    assert_eq!(HirType::Userdata.to_string(), "userdata");
    assert_eq!(HirType::Number.name(), "number");
}

#[test]
fn printer_dumps_module() {
    let module = lower_source("local x = 5\nprint(x)");
    let text = HirPrinter::new().print_module(&module);
    let expected = "Module 'main'\n  Scopes:\n    Scope #0 parent=None symbols=[0, 1]\n  Symbols:\n    #0 Local 'x' scope=#0 type=Some(Number)\n    #1 Function 'main' scope=#0 type=None\n  Functions:\n    Function 'main' id=#0 symbol=#1 scope=#0\n      Locals:\n        x id=#0 symbol=#0 scope=#0 type=Some(Number)\n      Local Variable: x id=#0 symbol=#0 type=Some(Number) = 5\n      <builtin Print>(local_0#0:Number)\n";
    assert_eq!(text, expected);
}

#[test]
fn printer_shows_parameters_and_return_type() {
    let module = lower_source("function square(x: number): number\nreturn x * x\nend");
    let text = HirPrinter::new().print_module(&module);
    assert!(text.contains("Function 'square' id=#0 symbol=#0 scope=#1(x#1: Number) -> Number\n"));
    assert!(text.contains("Return (local_0#1:Number * local_0#1:Number)\n"));
}

fn messages(errors: &[HirValidationError]) -> Vec<String> {
    errors
        .iter()
        .map(|e| match e {
            HirValidationError::InvalidControlFlow { message, .. } => message.clone(),
            HirValidationError::InvalidExpression { message, .. } => message.clone(),
        })
        .collect()
}

#[test]
fn built_modules_validate() {
    let module = lower_source("local x = 5\nprint(x)\nfunction square(y: number): number\nreturn y * y\nend");
    assert!(HirValidator::new().validate(&module).is_ok());
}

#[test]
fn return_type_mismatch_is_reported() {
    let module = lower_source("function f(): number\nreturn \"s\"\nend");
    let errors = HirValidator::new().validate(&module).unwrap_err();
    assert_eq!(messages(&errors), vec!["Return type mismatch: expected Number, got String".to_string()]);
}

#[test]
fn unknown_ids_and_bare_locals_are_reported() {
    let span = SourceSpan::new(FileId::new(0), 3, 7);
    let mut module = HirModule::new("m".to_string(), span);
    module.global_variables.push(HirGlobalVariable {
        symbol_id: HirSymbolId(4),
        name: "g".to_string(),
        var_type: None,
        initializer: Some(HirExpression {
            kind: HirExpressionKind::LocalVariable(HirVariableId(0)),
            expr_type: None,
            symbol_id: None,
            span,
        }),
        scope_id: HirScopeId(2),
        span,
    });
    let mut validator = HirValidator::default();
    let errors = validator.validate(&module).unwrap_err();
    assert_eq!(
        messages(&errors),
        vec![
            "Invalid global variable symbol: unknown symbol #4".to_string(),
            "Invalid global variable scope: unknown scope #2".to_string(),
            "Local variable reference is missing a symbol".to_string(),
            "Local variable reference is missing a type".to_string(),
        ]
    );
    match &errors[0] {
        HirValidationError::InvalidExpression { span: s, .. } => assert_eq!(*s, span),
        _ => panic!("expected an expression error"),
    }
    let good = lower_source("local x = 1");
    let again = validator.validate(&good).unwrap_err();
    assert_eq!(again.len(), 4);
}

#[test]
fn error_expressions_are_reported() {
    let span = SourceSpan::new(FileId::new(0), 0, 1);
    let mut module = HirModule::new("m".to_string(), span);
    module.metadata.root_scope = Some(HirScopeId(9));
    module.type_aliases.push(lib::hir::module::HirTypeAlias {
        symbol_id: HirSymbolId(1),
        name: "T".to_string(),
        alias: HirType::Number,
        scope_id: HirScopeId(1),
        span,
    });
    module.global_variables.push(HirGlobalVariable {
        symbol_id: HirSymbolId(0),
        name: "g".to_string(),
        var_type: None,
        initializer: Some(HirExpression { kind: HirExpressionKind::Error, expr_type: None, symbol_id: None, span }),
        scope_id: HirScopeId(0),
        span,
    });
    let errors = HirValidator::new().validate(&module).unwrap_err();
    assert_eq!(
        messages(&errors),
        vec![
            "Invalid module root scope: unknown scope #9".to_string(),
            "Invalid global variable symbol: unknown symbol #0".to_string(),
            "Invalid global variable scope: unknown scope #0".to_string(),
            "Expression contains error".to_string(),
            "Invalid type alias symbol: unknown symbol #1".to_string(),
            "Invalid type alias scope: unknown scope #1".to_string(),
        ]
    );
}

#[test]
fn the_hir_stage_lowers_and_checks() {
    let mut sources = SourceManager::new();
    let file_id = sources.add_file("test.glu", "local x = 1\nprint(x)".to_string());
    let file = sources.get(file_id).unwrap();
    let mut lexer = Lexer::new(file);
    let mut tokens = Vec::new();
    loop {
        let token = lexer.next_token();
        let done = matches!(token.kind, TokenKind::EOF);
        tokens.push(token);
        if done {
            break;
        }
    }
    let ast = Parser::new(&tokens).parse_program();
    let module = lib::hir::HirStage::lower(&ast).unwrap();
    assert_eq!(module.functions.len(), 1);
    let other = Parser::new(&tokens).parse_expression();
    let refused = lib::hir::HirStage::lower(&AstNode::Expression(other));
    assert!(matches!(refused, Err(HirError::InvalidInput(ref m)) if m == "Expected program node"));
}

#[test]
fn optimization_counts_add_up_and_report() {
    let stats = lib::hir::optimizer::HirOptimizationStats {
        constant_folds: 1,
        dead_expressions_removed: 2,
        ..Default::default()
    };
    assert_eq!(stats.total_changes(), 3);
    assert_eq!(
        stats.report(),
        "HIR Optimization\nConstant Folds: 1\nConstants Propagated: 0\nExpressions Simplified: 0\nDead Expressions Removed: 2\nControl Flow Simplified: 0\nUnreachable Statements Removed: 0"
    );
}
