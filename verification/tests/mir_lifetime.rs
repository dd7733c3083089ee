use lib::mir::lifetime::{MirLifetimeAnalysis, MirLifetimeMetadata, MirValueLifetime, MirVariableLifetime};
use lib::mir::ssa::MirProgramPoint;
use lib::mir::types::{MirBlockId, MirValueId};

fn point(block: usize, index: usize) -> MirProgramPoint {
    MirProgramPoint { block: MirBlockId::new(block), instruction_index: index }
}

fn variable(storage: &str, definition: Option<MirProgramPoint>, last_use: Option<MirProgramPoint>, dead: bool) -> MirVariableLifetime {
    MirVariableLifetime {
        storage: storage.to_string(),
        value_id: MirValueId::new(0),
        definition,
        first_use: last_use,
        last_use,
        live_blocks: Vec::new(),
        dead,
    }
}

fn empty() -> MirLifetimeMetadata {
    MirLifetimeMetadata {
        live_in: Vec::new(),
        live_out: Vec::new(),
        variable_lifetimes: Vec::new(),
        value_lifetimes: Vec::new(),
        dead_variables: Vec::new(),
        dead_values: Vec::new(),
    }
}

#[test]
fn consistent_lifetimes_validate_and_dump_sorted() {
    let mut metadata = empty();
    metadata.variable_lifetimes.push(variable("y", Some(point(1, 0)), None, true));
    metadata.variable_lifetimes.push(variable("x", Some(point(1, 2)), Some(point(0, 3)), false));
    metadata.live_in.push((MirBlockId::new(0), vec!["x".to_string()]));
    metadata.live_out.push((MirBlockId::new(0), vec!["x".to_string()]));

    assert!(MirLifetimeAnalysis::validate(&metadata).is_ok());
    assert_eq!(
        MirLifetimeAnalysis::dump(&metadata),
        "Variable x\n  Definition: Block1 @2\n  Last Use: Block0 @3\n  Dead: false\nVariable y\n  Definition: Block1 @0\n  Dead: true\n"
    );
}

#[test]
fn inconsistent_lifetimes_are_reported() {
    let mut metadata = empty();
    metadata.variable_lifetimes.push(variable("a", None, Some(point(0, 1)), true));
    metadata.value_lifetimes.push(MirValueLifetime {
        value_id: MirValueId::new(7),
        definition: None,
        uses: vec![point(0, 0)],
        last_use: Some(point(0, 0)),
        live_blocks: Vec::new(),
        dead: true,
    });
    metadata.live_in.push((MirBlockId::new(2), vec!["ghost".to_string(), "a".to_string()]));
    metadata.live_out.push((MirBlockId::new(2), vec!["ghost".to_string()]));

    assert_eq!(
        MirLifetimeAnalysis::validate(&metadata).unwrap_err(),
        vec![
            "live range for a has a use without a definition".to_string(),
            "dead variable a has a recorded use".to_string(),
            "value %7 is used before definition".to_string(),
            "dead value %7 has a recorded use".to_string(),
            "live set for block 2 references unknown variable ghost".to_string(),
        ]
    );
}
