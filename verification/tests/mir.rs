use lib::mir::block::MirBasicBlock;
use lib::mir::cfg::MirControlFlowGraph;
use lib::mir::function::MirFunction;
use lib::mir::instruction::{MirInstruction, MirInstructionKind, MirTerminator};
use lib::mir::module::MirModule;
use lib::mir::optimizer::MirOptimizer;
use lib::mir::printer::MirPrinter;
use lib::mir::types::{MirBlockId, MirFunctionId, MirType, MirValue, MirValueId};
use lib::mir::validator::{MirValidationError, MirValidator};
use lib::mir::value::{MirValueData, MirValueKind};

fn v(n: usize) -> MirValueId {
    MirValueId::new(n)
}

fn ins(kind: MirInstructionKind) -> MirInstruction {
    MirInstruction::new(kind, None, None)
}

fn temp(function: &mut MirFunction, n: usize) {
    function.add_value(MirValueData::new(v(n), MirType::Integer, MirValueKind::Temporary, None));
}

/// `main` with one entry block holding `body`, and temporaries 0..values.
fn single_block(body: Vec<MirInstructionKind>, values: usize) -> MirFunction {
    let mut function = MirFunction::new(MirFunctionId::new(0), String::from("main"));
    function.add_block(MirBasicBlock::with_entry(MirBlockId::new(0)));
    function.entry_block = Some(0);
    for kind in body {
        function.add_instruction(0, ins(kind));
    }
    for n in 0..values {
        temp(&mut function, n);
    }
    function.rebuild_cfg();
    function
}

fn module_with(function: MirFunction) -> MirModule {
    let mut module = MirModule::new(String::from("test"));
    module.add_function(function);
    module
}

#[test]
fn validator_accepts_well_formed_function() {
    let function = single_block(
        vec![
            MirInstructionKind::Const { result: v(0), value: MirValue::Integer(1) },
            MirInstructionKind::Return { value: Some(v(0)) },
        ],
        1,
    );
    let mut validator = MirValidator::new();
    assert!(validator.validate(&module_with(function)).is_ok());
}

#[test]
fn validator_reports_missing_terminator_unknown_value_and_exit() {
    let function = single_block(vec![MirInstructionKind::Move { result: v(0), value: v(7) }], 1);
    let mut validator = MirValidator::new();
    let errors = validator.validate(&module_with(function)).unwrap_err();
    assert!(matches!(errors[0], MirValidationError::MissingTerminator { block_id: 0 }));
    assert!(matches!(errors[1], MirValidationError::InvalidValue { value_id: 7, ref message } if message == "unknown MIR value used as move value"));
    assert!(matches!(errors[2], MirValidationError::MissingExitPath { ref function } if function == "main"));
    assert_eq!(errors.len(), 3);
}

#[test]
fn validator_reports_duplicate_values_and_bad_targets() {
    let mut function = single_block(vec![MirInstructionKind::Jump { target: MirBlockId::new(9) }], 1);
    temp(&mut function, 0);
    let mut validator = MirValidator::new();
    let errors = validator.validate(&module_with(function)).unwrap_err();
    assert!(matches!(errors[0], MirValidationError::InvalidValue { value_id: 0, ref message } if message == "duplicate MIR value id"));
    assert!(matches!(errors[1], MirValidationError::InvalidBranchTarget { target: 9 }));
    assert!(errors.iter().any(|e| matches!(e, MirValidationError::MissingExitPath { .. })));
}

#[test]
fn validator_reports_function_without_blocks() {
    let function = MirFunction::new(MirFunctionId::new(3), String::from("empty"));
    let mut validator = MirValidator::new();
    let errors = validator.validate(&module_with(function)).unwrap_err();
    assert_eq!(errors.len(), 1);
    assert!(matches!(errors[0], MirValidationError::InvalidInstruction { ref message } if message == "Function 'empty' has no blocks"));
}

#[test]
fn validator_reports_unreachable_block() {
    let mut function = single_block(vec![MirInstructionKind::Return { value: None }], 0);
    function.add_block(MirBasicBlock::new(MirBlockId::new(1)));
    function.add_instruction(1, ins(MirInstructionKind::Return { value: None }));
    function.rebuild_cfg();
    let mut validator = MirValidator::new();
    let errors = validator.validate(&module_with(function)).unwrap_err();
    assert_eq!(errors.len(), 1);
    assert!(matches!(errors[0], MirValidationError::UnreachableBlock { block_id: 1 }));
}

#[test]
fn optimizer_propagates_folds_and_removes_dead_code() {
    let function = single_block(
        vec![
            MirInstructionKind::Const { result: v(0), value: MirValue::Integer(2) },
            MirInstructionKind::Const { result: v(1), value: MirValue::Integer(3) },
            MirInstructionKind::Add { result: v(2), left: v(0), right: v(1) },
            MirInstructionKind::Move { result: v(3), value: v(2) },
            MirInstructionKind::Return { value: Some(v(3)) },
        ],
        4,
    );
    let mut optimizer = MirOptimizer::new();
    let result = optimizer.optimize(module_with(function));
    assert_eq!(result.stats.copies_propagated, 1);
    assert_eq!(result.stats.constants_folded, 1);
    assert_eq!(result.stats.dead_instructions_removed, 2);
    assert_eq!(result.stats.unreachable_blocks_removed, 0);
    assert_eq!(*optimizer.stats(), result.stats);

    let function = &result.module.functions[0];
    let body = &function.blocks[0].instructions;
    assert_eq!(body.len(), 2);
    assert!(matches!(body[0].kind, MirInstructionKind::Const { result, value: MirValue::Integer(5) } if result == v(2)));
    assert!(matches!(body[1].kind, MirInstructionKind::Return { value: Some(r) } if r == v(2)));
    assert_eq!(function.values.len(), 1);
    assert_eq!(function.values[0].id, v(2));
    assert_eq!(function.blocks[0].terminator, Some(MirTerminator::Return { value: Some(v(2)) }));
}

#[test]
fn optimizer_keeps_division_by_zero() {
    let function = single_block(
        vec![
            MirInstructionKind::Const { result: v(0), value: MirValue::Integer(1) },
            MirInstructionKind::Const { result: v(1), value: MirValue::Integer(0) },
            MirInstructionKind::Divide { result: v(2), left: v(0), right: v(1) },
            MirInstructionKind::Return { value: Some(v(2)) },
        ],
        3,
    );
    let result = MirOptimizer::new().optimize(module_with(function));
    assert_eq!(result.stats.constants_folded, 0);
    assert_eq!(result.stats.dead_instructions_removed, 0);
    assert_eq!(result.module.functions[0].blocks[0].instructions.len(), 4);
}

#[test]
fn optimizer_folds_comparisons_and_booleans() {
    let function = single_block(
        vec![
            MirInstructionKind::Const { result: v(0), value: MirValue::Integer(4) },
            MirInstructionKind::Const { result: v(1), value: MirValue::Integer(9) },
            MirInstructionKind::LessThan { result: v(2), left: v(0), right: v(1) },
            MirInstructionKind::Not { result: v(3), operand: v(2) },
            MirInstructionKind::Return { value: Some(v(3)) },
        ],
        4,
    );
    let result = MirOptimizer::new().optimize(module_with(function));
    assert_eq!(result.stats.constants_folded, 2);
    let body = &result.module.functions[0].blocks[0].instructions;
    assert!(matches!(body[0].kind, MirInstructionKind::Const { result, value: MirValue::Boolean(false) } if result == v(3)));
}

#[test]
fn optimizer_removes_unreachable_blocks() {
    let mut function = single_block(vec![MirInstructionKind::Return { value: None }], 0);
    function.add_block(MirBasicBlock::new(MirBlockId::new(1)));
    function.add_instruction(1, ins(MirInstructionKind::Return { value: None }));
    function.rebuild_cfg();
    let result = MirOptimizer::new().optimize(module_with(function));
    assert_eq!(result.stats.unreachable_blocks_removed, 1);
    let function = &result.module.functions[0];
    assert_eq!(function.blocks.len(), 1);
    assert_eq!(function.entry_block, Some(0));
}

#[test]
fn optimizer_resolves_copy_chains() {
    let function = single_block(
        vec![
            MirInstructionKind::Load { result: v(0), name: String::from("x") },
            MirInstructionKind::Move { result: v(1), value: v(0) },
            MirInstructionKind::Move { result: v(2), value: v(1) },
            MirInstructionKind::Store { name: String::from("y"), value: v(2) },
            MirInstructionKind::Return { value: None },
        ],
        3,
    );
    let result = MirOptimizer::new().optimize(module_with(function));
    assert_eq!(result.stats.copies_propagated, 2);
    let body = &result.module.functions[0].blocks[0].instructions;
    assert!(matches!(body[1].kind, MirInstructionKind::Store { ref name, value } if name == "y" && value == v(0)));
}

#[test]
fn cfg_build_and_traversals() {
    let mut function = single_block(
        vec![
            MirInstructionKind::Const { result: v(0), value: MirValue::Boolean(true) },
            MirInstructionKind::Branch { condition: v(0), true_block: MirBlockId::new(1), false_block: MirBlockId::new(2) },
        ],
        1,
    );
    function.add_block(MirBasicBlock::new(MirBlockId::new(1)));
    function.add_instruction(1, ins(MirInstructionKind::Jump { target: MirBlockId::new(2) }));
    function.add_block(MirBasicBlock::new(MirBlockId::new(2)));
    function.add_instruction(2, ins(MirInstructionKind::Return { value: None }));
    function.rebuild_cfg();
    let cfg = MirControlFlowGraph::build(&function).unwrap();
    assert!(cfg.validate().is_ok());
    assert_eq!(cfg.edges.len(), 3);
    let bfs = cfg.bfs();
    assert_eq!(bfs, vec![MirBlockId::new(0), MirBlockId::new(1), MirBlockId::new(2)]);
    let post = cfg.post_order();
    assert_eq!(post.last(), Some(&MirBlockId::new(0)));
    assert!(cfg.unreachable_blocks().is_empty());
    let idoms = cfg.immediate_dominators();
    assert!(idoms.contains(&(MirBlockId::new(2), MirBlockId::new(0))));
    assert!(idoms.contains(&(MirBlockId::new(1), MirBlockId::new(0))));
    assert!(cfg.loops.is_empty());
    assert_eq!(function.blocks[2].predecessors.len(), 2);
}

#[test]
fn cfg_detects_natural_loop() {
    let mut function = single_block(vec![MirInstructionKind::Jump { target: MirBlockId::new(1) }], 1);
    function.add_block(MirBasicBlock::new(MirBlockId::new(1)));
    function.add_instruction(1, ins(MirInstructionKind::Branch { condition: v(0), true_block: MirBlockId::new(2), false_block: MirBlockId::new(3) }));
    function.add_block(MirBasicBlock::new(MirBlockId::new(2)));
    function.add_instruction(2, ins(MirInstructionKind::Jump { target: MirBlockId::new(1) }));
    function.add_block(MirBasicBlock::new(MirBlockId::new(3)));
    function.add_instruction(3, ins(MirInstructionKind::Return { value: None }));
    function.rebuild_cfg();
    let cfg = MirControlFlowGraph::build(&function).unwrap();
    assert_eq!(cfg.loops.len(), 1);
    assert_eq!(cfg.loops[0].header, MirBlockId::new(1));
    assert_eq!(cfg.loops[0].body_blocks.len(), 2);
    assert_eq!(cfg.loops[0].exit_edges.len(), 1);
}

#[test]
fn printer_prints_instruction() {
    let mut printer = MirPrinter::new();
    let text = printer.print_instruction(&ins(MirInstructionKind::Add { result: v(2), left: v(0), right: v(1) }));
    assert_eq!(text, "add %2, %0, %1\n");
    let text = printer.print_instruction(&ins(MirInstructionKind::Const { result: v(0), value: MirValue::Integer(-12) }));
    assert_eq!(text, "const %0 = -12\n");
}

#[test]
fn traversal_orders_are_exact() {
    let mut function = single_block(
        vec![MirInstructionKind::Branch { condition: v(0), true_block: MirBlockId::new(1), false_block: MirBlockId::new(2) }],
        1,
    );
    function.add_block(MirBasicBlock::new(MirBlockId::new(1)));
    function.add_instruction(1, ins(MirInstructionKind::Jump { target: MirBlockId::new(3) }));
    function.add_block(MirBasicBlock::new(MirBlockId::new(2)));
    function.add_instruction(2, ins(MirInstructionKind::Jump { target: MirBlockId::new(3) }));
    function.add_block(MirBasicBlock::new(MirBlockId::new(3)));
    function.add_instruction(3, ins(MirInstructionKind::Return { value: None }));
    function.rebuild_cfg();
    let cfg = MirControlFlowGraph::build(&function).unwrap();
    let b = |i: usize| MirBlockId::new(i);
    assert_eq!(cfg.dfs(), vec![b(0), b(1), b(3), b(2)]);
    assert_eq!(cfg.bfs(), vec![b(0), b(1), b(2), b(3)]);
    assert_eq!(cfg.post_order(), vec![b(3), b(1), b(2), b(0)]);
    assert_eq!(cfg.reverse_post_order(), vec![b(0), b(2), b(1), b(3)]);
}

#[test]
fn post_order_lists_successors_before_their_blocks_on_a_dag() {
    let mut function = single_block(
        vec![MirInstructionKind::Branch { condition: v(0), true_block: MirBlockId::new(1), false_block: MirBlockId::new(2) }],
        1,
    );
    function.add_block(MirBasicBlock::new(MirBlockId::new(1)));
    function.add_instruction(1, ins(MirInstructionKind::Jump { target: MirBlockId::new(2) }));
    function.add_block(MirBasicBlock::new(MirBlockId::new(2)));
    function.add_instruction(2, ins(MirInstructionKind::Jump { target: MirBlockId::new(3) }));
    function.add_block(MirBasicBlock::new(MirBlockId::new(3)));
    function.add_instruction(3, ins(MirInstructionKind::Return { value: None }));
    function.rebuild_cfg();
    let cfg = MirControlFlowGraph::build(&function).unwrap();
    let order = cfg.post_order();
    let at = |i: usize| order.iter().position(|b| *b == MirBlockId::new(i)).unwrap();
    let edges = [(0, 1), (0, 2), (1, 2), (2, 3)];
    for (from, to) in edges {
        assert!(at(to) < at(from));
    }
    assert_eq!(order.len(), 4);
}

#[test]
fn bfs_never_moves_away_from_the_entry_and_back() {
    let mut function = single_block(
        vec![MirInstructionKind::Branch { condition: v(0), true_block: MirBlockId::new(1), false_block: MirBlockId::new(3) }],
        1,
    );
    function.add_block(MirBasicBlock::new(MirBlockId::new(1)));
    function.add_instruction(1, ins(MirInstructionKind::Jump { target: MirBlockId::new(2) }));
    function.add_block(MirBasicBlock::new(MirBlockId::new(2)));
    function.add_instruction(2, ins(MirInstructionKind::Return { value: None }));
    function.add_block(MirBasicBlock::new(MirBlockId::new(3)));
    function.add_instruction(3, ins(MirInstructionKind::Jump { target: MirBlockId::new(2) }));
    function.rebuild_cfg();
    let cfg = MirControlFlowGraph::build(&function).unwrap();
    let order = cfg.bfs();
    let distance = |b: &MirBlockId| match b.0 {
        0 => 0,
        1 | 3 => 1,
        _ => 2,
    };
    assert_eq!(order, vec![MirBlockId::new(0), MirBlockId::new(1), MirBlockId::new(3), MirBlockId::new(2)]);
    for pair in order.windows(2) {
        assert!(distance(&pair[0]) <= distance(&pair[1]));
    }
}

#[test]
fn prints_the_control_flow_graph() {
    let mut function = single_block(
        vec![MirInstructionKind::Branch { condition: v(0), true_block: MirBlockId::new(1), false_block: MirBlockId::new(2) }],
        1,
    );
    function.add_block(MirBasicBlock::new(MirBlockId::new(1)));
    function.add_instruction(1, ins(MirInstructionKind::Jump { target: MirBlockId::new(3) }));
    function.add_block(MirBasicBlock::new(MirBlockId::new(2)));
    function.add_instruction(2, ins(MirInstructionKind::Jump { target: MirBlockId::new(3) }));
    function.add_block(MirBasicBlock::new(MirBlockId::new(3)));
    function.add_instruction(3, ins(MirInstructionKind::Return { value: None }));
    function.rebuild_cfg();
    let cfg = MirControlFlowGraph::build(&function).unwrap();
    let text = MirPrinter::new().print_cfg(Some(&cfg));
    assert!(text.starts_with("CFG:\n  entry: Block0\n"));
    assert!(text.contains("  edge Block0 -> Block1 (true)\n"));
    assert!(text.contains("  edge Block0 -> Block2 (false)\n"));
    assert!(text.contains("  edge Block1 -> Block3 (jump)\n"));
    assert!(text.contains("  edge Block2 -> Block3 (jump)\n"));
    assert_eq!(MirPrinter::new().print_cfg(None), "");
}

#[test]
fn dominance_frontiers_of_a_diamond() {
    let mut function = single_block(
        vec![MirInstructionKind::Branch { condition: v(0), true_block: MirBlockId::new(1), false_block: MirBlockId::new(2) }],
        1,
    );
    function.add_block(MirBasicBlock::new(MirBlockId::new(1)));
    function.add_instruction(1, ins(MirInstructionKind::Jump { target: MirBlockId::new(3) }));
    function.add_block(MirBasicBlock::new(MirBlockId::new(2)));
    function.add_instruction(2, ins(MirInstructionKind::Jump { target: MirBlockId::new(3) }));
    function.add_block(MirBasicBlock::new(MirBlockId::new(3)));
    function.add_instruction(3, ins(MirInstructionKind::Return { value: None }));
    function.rebuild_cfg();
    let metadata = lib::mir::ssa::MirSsaPreparation::analyze(&function);
    let b = |i: usize| MirBlockId::new(i);
    assert_eq!(
        metadata.dominance_frontiers,
        vec![(b(0), vec![]), (b(1), vec![b(3)]), (b(2), vec![b(3)]), (b(3), vec![])]
    );
    assert!(lib::mir::ssa::MirSsaPreparation::validate(&metadata).is_ok());
}
