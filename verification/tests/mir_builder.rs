use lib::hir::builder::HirBuilder;
use lib::hir::expression::{HirExpression, HirExpressionKind};
use lib::hir::function::{HirFunction, HirFunctionMetadata};
use lib::hir::ids::{HirFunctionId, HirScopeId, HirSymbolId};
use lib::hir::module::HirModule;
use lib::hir::statement::{HirStatement, HirStatementKind};
use lib::hir::types::{HirBuiltinFunction, HirType};
use lib::source::{FileId, SourceSpan};
use lib::lexer::{Lexer, TokenKind};
use lib::mir::builder::MirBuilder;
use lib::mir::error::MirError;
use lib::mir::function::MirFunction;
use lib::mir::instruction::{MirInstruction, MirInstructionKind, MirTerminator};
use lib::mir::types::{MirBlockId, MirFunctionId, MirType, MirValue, MirValueId};
use lib::mir::validator::MirValidator;
use lib::parser::Parser;
use lib::source::SourceManager;

fn hir_of(source: &str) -> HirModule {
    let mut sources = SourceManager::new();
    let file_id = sources.add_file("test.glu", source.to_string());
    let file = sources.get(file_id).unwrap();
    let mut lexer = Lexer::new(file);
    let mut tokens = Vec::new();
    loop {
        let token = lexer.next_token();
        let done = matches!(token.kind, TokenKind::EOF);
        tokens.push(token);
        if done {
            break;
        }
    }
    let mut parser = Parser::new(&tokens);
    let ast = parser.parse_program();
    HirBuilder::new().build(&ast).unwrap()
}

fn kinds(function: &MirFunction, block: usize) -> Vec<String> {
    function.blocks[block]
        .instructions
        .iter()
        .map(|i| {
            let text = format!("{:?}", i.kind);
            text.split(|c: char| c == ' ' || c == '(' || c == '{').next().unwrap().to_string()
        })
        .collect()
}

#[test]
fn lowers_locals_and_builtin_calls() {
    let hir = hir_of("local x = 5\nprint(x)");
    let module = MirBuilder::new().build(&hir).unwrap();
    assert_eq!(module.functions.len(), 1);
    let main = &module.functions[0];
    assert_eq!(main.name, "main");
    assert_eq!(main.return_type, Some(MirType::Void));
    assert_eq!(main.entry_block, Some(0));
    assert_eq!(main.blocks.len(), 2);
    assert_eq!(main.blocks[0].id, MirBlockId::new(1));
    assert_eq!(main.blocks[1].id, MirBlockId::new(0));
    assert_eq!(kinds(main, 0), vec!["AllocateLocal", "Const", "Store", "Load", "Call", "Jump"]);
    assert_eq!(kinds(main, 1), vec!["Return"]);
    assert_eq!(main.exit_blocks, vec![1]);
    assert_eq!(main.blocks[1].predecessors, vec![MirBlockId::new(1)]);
    assert_eq!(main.values.len(), 3);
    match &main.blocks[0].instructions[1].kind {
        MirInstructionKind::Const { result, value } => {
            assert_eq!(*result, MirValueId::new(1));
            assert_eq!(*value, MirValue::Integer(5));
        },
        _ => panic!("expected a constant"),
    }
    match &main.blocks[0].instructions[2].kind {
        MirInstructionKind::Store { name, value } => {
            assert_eq!(name, "local_symbol_0");
            assert_eq!(*value, MirValueId::new(1));
        },
        _ => panic!("expected a store"),
    }
    match &main.blocks[0].instructions[4].kind {
        MirInstructionKind::Call { result, function, arguments } => {
            assert_eq!(*result, None);
            assert_eq!(function, "glua_print");
            assert_eq!(arguments, &vec![MirValueId::new(2)]);
        },
        _ => panic!("expected a call"),
    }
    assert!(MirValidator::new().validate(&module).is_ok());
}

#[test]
fn returns_go_through_the_result_slot() {
    let hir = hir_of("function square(x: number): number\nreturn x * x\nend");
    let module = MirBuilder::new().build(&hir).unwrap();
    let square = &module.functions[0];
    assert_eq!(square.name, "square");
    assert_eq!(square.return_type, Some(MirType::Integer));
    assert_eq!(square.parameters, vec!["local_symbol_1".to_string()]);
    assert_eq!(square.locals.len(), 2);
    assert_eq!(square.locals[1].storage, "local_return");
    assert_eq!(kinds(square, 0), vec!["AllocateLocal", "AllocateLocal", "Load", "Load", "Multiply", "Store", "Jump"]);
    assert_eq!(kinds(square, 1), vec!["Load", "Return"]);
    assert_eq!(square.blocks[1].terminator, Some(MirTerminator::Return { value: Some(MirValueId::new(5)) }));
    assert!(MirValidator::new().validate(&module).is_ok());
}

fn span() -> SourceSpan {
    SourceSpan::new(FileId::new(0), 0, 1)
}

fn expr(kind: HirExpressionKind, ty: Option<HirType>) -> HirExpression {
    HirExpression { kind, expr_type: ty, symbol_id: None, span: span() }
}

fn stmt(kind: HirStatementKind) -> HirStatement {
    HirStatement { kind, span: span() }
}

fn print_number(text: &str) -> HirStatement {
    stmt(HirStatementKind::Expression(expr(
        HirExpressionKind::BuiltinCall {
            function: HirBuiltinFunction::Print,
            arguments: vec![expr(HirExpressionKind::Number(text.to_string()), Some(HirType::Number))],
        },
        None,
    )))
}

fn module_of(body: Vec<HirStatement>) -> HirModule {
    let mut module = HirModule::new("m".to_string(), span());
    module.functions.push(HirFunction {
        id: HirFunctionId::new(0),
        symbol_id: HirSymbolId::new(0),
        name: "main".to_string(),
        parameters: vec![],
        local_variables: vec![],
        body,
        return_type: None,
        scope_id: HirScopeId::new(0),
        is_local: false,
        metadata: HirFunctionMetadata::default(),
        span: span(),
    });
    module
}

#[test]
fn if_statements_open_branch_and_merge_blocks() {
    let hir = module_of(vec![stmt(HirStatementKind::If {
        condition: expr(HirExpressionKind::Boolean(true), Some(HirType::Boolean)),
        then_block: vec![print_number("1")],
        else_block: Some(vec![print_number("2")]),
    })]);
    let module = MirBuilder::new().build(&hir).unwrap();
    let main = &module.functions[0];
    assert_eq!(main.blocks.len(), 5);
    match main.blocks[0].terminator {
        Some(MirTerminator::Branch { true_block, false_block, .. }) => {
            assert_eq!(true_block, main.blocks[1].id);
            assert_eq!(false_block, main.blocks[2].id);
        },
        _ => panic!("expected a branch"),
    }
    assert_eq!(main.blocks[1].terminator, Some(MirTerminator::Jump { target: main.blocks[3].id }));
    assert_eq!(main.blocks[2].terminator, Some(MirTerminator::Jump { target: main.blocks[3].id }));
    assert_eq!(main.blocks[3].terminator, Some(MirTerminator::Jump { target: main.blocks[4].id }));
    assert!(MirValidator::new().validate(&module).is_ok());
}

#[test]
fn while_loops_jump_back_to_their_condition() {
    let hir = module_of(vec![stmt(HirStatementKind::While {
        condition: expr(HirExpressionKind::Boolean(false), Some(HirType::Boolean)),
        body: vec![print_number("1")],
    })]);
    let module = MirBuilder::new().build(&hir).unwrap();
    let main = &module.functions[0];
    let condition = main.blocks[1].id;
    assert_eq!(main.blocks[0].terminator, Some(MirTerminator::Jump { target: condition }));
    assert_eq!(main.blocks[2].terminator, Some(MirTerminator::Jump { target: condition }));
    assert!(matches!(main.blocks[1].terminator, Some(MirTerminator::Branch { .. })));
}

#[test]
fn number_literals_become_integers_or_kept_texts() {
    let hir = hir_of("local a = 3.0\nlocal b = 2.50\nlocal c = 9007199254740993");
    let module = MirBuilder::new().build(&hir).unwrap();
    let main = &module.functions[0];
    let constants: Vec<MirValue> = main.blocks[0]
        .instructions
        .iter()
        .filter_map(|i| match &i.kind {
            MirInstructionKind::Const { value, .. } => Some(value.clone()),
            _ => None,
        })
        .collect();
    assert_eq!(
        constants,
        vec![
            MirValue::Integer(3),
            MirValue::Float("2.50".to_string()),
            MirValue::Float("9007199254740993".to_string()),
        ]
    );
}

#[test]
fn unsupported_statements_stop_lowering() {
    let hir = module_of(vec![stmt(HirStatementKind::RepeatUntil {
        body: vec![],
        condition: expr(HirExpressionKind::Boolean(true), Some(HirType::Boolean)),
    })]);
    let err = MirBuilder::new().build(&hir).unwrap_err();
    match err {
        MirError::LoweringError(message) => {
            assert_eq!(message, "unsupported HIR control-flow node during MIR lowering at 0..1");
        },
        _ => panic!("expected a lowering error"),
    }
}

#[test]
fn blocks_can_be_created_found_and_filled() {
    let mut builder = MirBuilder::default();
    let mut function = MirFunction::new(MirFunctionId::new(0), "f".to_string());
    let first = builder.create_block(&mut function);
    let second = builder.create_block(&mut function);
    assert_eq!((first, second), (0, 1));
    assert_eq!(builder.switch_block(&function, MirBlockId::new(1)).unwrap(), 1);
    assert!(matches!(
        builder.switch_block(&function, MirBlockId::new(7)),
        Err(MirError::LoweringError(ref m)) if m == "unknown MIR block 7"
    ));
    assert_eq!(builder.current_block(&function), Some(1));
    let jump = MirInstruction::new(MirInstructionKind::Jump { target: MirBlockId::new(0) }, None, None);
    builder.append_terminator(&mut function, 1, jump.clone()).unwrap();
    assert_eq!(builder.current_block(&function), Some(0));
    assert!(matches!(
        builder.append_terminator(&mut function, 1, jump.clone()),
        Err(MirError::LoweringError(ref m)) if m == "block 1 already has a terminator"
    ));
    let ret = MirInstruction::new(MirInstructionKind::Return { value: None }, None, None);
    builder.append_instruction(&mut function, 0, ret.clone()).unwrap();
    assert!(matches!(
        builder.append_instruction(&mut function, 0, ret),
        Err(MirError::LoweringError(ref m)) if m == "attempted to emit instruction after terminator in block 0"
    ));
    assert_eq!(builder.current_block(&function), Some(1));
    builder.connect_blocks(&mut function);
    assert_eq!(function.blocks[0].predecessors, vec![MirBlockId::new(1)]);
}

#[test]
fn the_mir_stage_builds_and_checks() {
    let hir = hir_of("local x = 5\nprint(x)");
    let module = lib::mir::MirStage::lower(&hir).unwrap();
    assert_eq!(module.functions.len(), 1);
    let bad = module_of(vec![stmt(HirStatementKind::Error)]);
    match lib::mir::MirStage::lower(&bad) {
        Err(MirError::LoweringError(message)) => assert_eq!(message, "invalid HIR statement reached MIR lowering"),
        _ => panic!("expected a lowering error"),
    }
}

#[test]
fn globals_become_slots_and_constants() {
    let mut hir = module_of(vec![]);
    hir.global_variables.push(lib::hir::module::HirGlobalVariable {
        symbol_id: HirSymbolId::new(4),
        name: "g".to_string(),
        var_type: Some(HirType::String),
        initializer: Some(expr(HirExpressionKind::String("hi".to_string()), Some(HirType::String))),
        scope_id: HirScopeId::new(0),
        span: span(),
    });
    let module = MirBuilder::new().build(&hir).unwrap();
    assert_eq!(module.globals.len(), 1);
    assert_eq!(module.globals[0].storage, "global_symbol_4");
    assert_eq!(module.globals[0].value_type, MirType::String);
    assert_eq!(module.constants.len(), 1);
    assert_eq!(module.constants[0].value, MirValue::String("hi".to_string()));
    assert_eq!(module.metadata.span, Some(span()));
}
