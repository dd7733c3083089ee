use lib::hir::builder::HirBuilder;
use lib::hir::module::HirModule;
use lib::lexer::{Lexer, TokenKind};
use lib::mir::builder::MirBuilder;
use lib::mir::ssa::{MirDefinitionKind, MirSsaMetadata, MirSsaPreparation, MirVariableCategory, MirVariableUse};
use lib::mir::types::{MirBlockId, MirValueId};
use lib::parser::Parser;
use lib::source::SourceManager;

fn hir_of(source: &str) -> HirModule {
    let mut sources = SourceManager::new();
    let file_id = sources.add_file("test.glu", source.to_string());
    let file = sources.get(file_id).unwrap();
    let mut lexer = Lexer::new(file);
    let mut tokens = Vec::new();
    loop {
        let token = lexer.next_token();
        let done = matches!(token.kind, TokenKind::EOF);
        tokens.push(token);
        if done {
            break;
        }
    }
    let mut parser = Parser::new(&tokens);
    let ast = parser.parse_program();
    HirBuilder::new().build(&ast).unwrap()
}

#[test]
fn locals_get_their_definitions_and_uses() {
    let module = MirBuilder::new().build(&hir_of("local x = 5\nprint(x)")).unwrap();
    let metadata = MirSsaPreparation::analyze(&module.functions[0]);

    assert_eq!(metadata.variables.len(), 1);
    assert_eq!(metadata.variables[0].storage, "local_symbol_0");
    assert_eq!(metadata.variables[0].category, MirVariableCategory::Local);
    assert_eq!(metadata.definitions.len(), 2);
    assert_eq!(metadata.definitions[0].kind, MirDefinitionKind::Allocation);
    assert_eq!(metadata.definitions[0].instruction_index, 0);
    assert_eq!(metadata.definitions[1].kind, MirDefinitionKind::Store);
    assert_eq!(metadata.definitions[1].instruction_index, 2);
    assert_eq!(metadata.definitions[1].assigned_value, Some(MirValueId::new(1)));
    assert_eq!(metadata.uses.len(), 1);
    assert_eq!(metadata.uses[0].block, MirBlockId::new(1));
    assert_eq!(metadata.uses[0].instruction_index, 3);
    assert_eq!(metadata.uses[0].loaded_value, MirValueId::new(2));
    assert_eq!(metadata.dominators.len(), 2);
    assert_eq!(metadata.immediate_dominators, vec![(MirBlockId::new(0), MirBlockId::new(1))]);
    assert!(MirSsaPreparation::validate(&metadata).is_ok());
    assert_eq!(
        MirSsaPreparation::dump(&metadata),
        "Variable local_symbol_0\n  Definitions:\n    Block1 @0\n    Block1 @2\n  Uses:\n    Block1 @3\n"
    );
}

#[test]
fn parameters_and_the_return_slot_are_categorized_and_sorted() {
    let module = MirBuilder::new().build(&hir_of("function square(x: number): number\nreturn x * x\nend")).unwrap();
    let metadata = MirSsaPreparation::analyze(&module.functions[0]);

    assert_eq!(metadata.variables.len(), 2);
    assert_eq!(metadata.variables[0].category, MirVariableCategory::Parameter);
    assert_eq!(metadata.variables[1].category, MirVariableCategory::ReturnSlot);
    assert_eq!(metadata.uses.len(), 3);
    assert_eq!(
        MirSsaPreparation::dump(&metadata),
        "Variable local_return\n  Definitions:\n    Block1 @1\n    Block1 @5\n  Uses:\n    Block0 @0\nVariable local_symbol_1\n  Definitions:\n    Block1 @0\n  Uses:\n    Block1 @2\n    Block1 @3\n"
    );
}

#[test]
fn uses_of_unknown_or_undefined_variables_are_reported() {
    let metadata = MirSsaMetadata {
        variables: Vec::new(),
        definitions: Vec::new(),
        uses: vec![MirVariableUse {
            variable: "ghost".to_string(),
            value_id: MirValueId::new(0),
            symbol_id: None,
            block: MirBlockId::new(0),
            instruction_index: 0,
            loaded_value: MirValueId::new(1),
        }],
        dominators: Vec::new(),
        immediate_dominators: Vec::new(),
        dominance_frontiers: Vec::new(),
    };

    assert_eq!(
        MirSsaPreparation::validate(&metadata).unwrap_err(),
        vec!["use references unknown variable ghost".to_string(), "use of ghost has no recorded definition".to_string()]
    );
    assert_eq!(MirSsaPreparation::dump(&metadata), "");
}

#[test]
fn frontier_entries_must_name_dominated_blocks() {
    let metadata = MirSsaMetadata {
        variables: Vec::new(),
        definitions: Vec::new(),
        uses: Vec::new(),
        dominators: vec![(MirBlockId::new(0), vec![MirBlockId::new(0)])],
        immediate_dominators: Vec::new(),
        dominance_frontiers: vec![
            (MirBlockId::new(0), vec![MirBlockId::new(0)]),
            (MirBlockId::new(4), vec![MirBlockId::new(0), MirBlockId::new(7)]),
        ],
    };
    assert_eq!(
        MirSsaPreparation::validate(&metadata).unwrap_err(),
        vec![
            "dominance frontier recorded for non-dominated block 4".to_string(),
            "dominance frontier references unknown block 7".to_string(),
        ]
    );
}
