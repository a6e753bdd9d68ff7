use prada::architecture::{PRADAArchitecture, RowAddress};
use prada::compilation::{compile, CompilationState, CompileError};
use prada::mig::{MigNetwork, MigNode, Signal};
use prada::program::Instruction;

fn arch() -> PRADAArchitecture {
    PRADAArchitecture::new(128, 512)
}

fn row(a: u64) -> RowAddress {
    RowAddress(a)
}

fn sig(id: usize) -> Signal {
    Signal::new(id, false)
}

fn not_sig(id: usize) -> Signal {
    Signal::new(id, true)
}

/// One input, one non-inverted output: y = x.
fn identity_network() -> MigNetwork {
    MigNetwork { nodes: vec![MigNode::Input(0)], outputs: vec![sig(0)] }
}

/// One input, one inverted output: y = not x.
fn inversion_network() -> MigNetwork {
    MigNetwork { nodes: vec![MigNode::Input(0)], outputs: vec![not_sig(0)] }
}

/// Three inputs, one output: y = MAJ(a, b, c).
fn single_maj_network() -> MigNetwork {
    MigNetwork {
        nodes: vec![
            MigNode::Input(0),
            MigNode::Input(1),
            MigNode::Input(2),
            MigNode::Maj(sig(0), sig(1), sig(2)),
        ],
        outputs: vec![sig(3)],
    }
}

/// y = MAJ(a, b, c); outputs y and MAJ(y, a, b).
fn shared_subexpression_network() -> MigNetwork {
    MigNetwork {
        nodes: vec![
            MigNode::Input(0),
            MigNode::Input(1),
            MigNode::Input(2),
            MigNode::Maj(sig(0), sig(1), sig(2)),
            MigNode::Maj(sig(3), sig(0), sig(1)),
        ],
        outputs: vec![sig(3), sig(4)],
    }
}

// Row layout with one reserved output row: the pool starts at row 1, the
// constants take rows 1 and 2, and the first input takes rows 3 (positive)
// and 4 (negative).
#[test]
fn identity_compiles_to_one_copy() {
    let p = compile(&arch(), &identity_network()).unwrap();
    assert_eq!(p.instructions, vec![Instruction::AAPRowCopy(row(3), row(0))]);
    assert_eq!(p.runtime_estimate, 100);
    assert_eq!(p.energy_consumption_estimate, 50);
}

#[test]
fn inversion_compiles_to_copy_negate_move() {
    // copy x to a fresh row, negate it there, move it into output row 0
    let p = compile(&arch(), &inversion_network()).unwrap();
    assert_eq!(
        p.instructions,
        vec![
            Instruction::AAPRowCopy(row(3), row(5)),
            Instruction::N(row(5)),
            Instruction::AAPRowCopy(row(5), row(0)),
        ]
    );
}

#[test]
fn single_maj_compiles_to_tra_and_copy() {
    // inputs sit in rows 3, 5 and 7; the TRA leaves the result in row 3
    let p = compile(&arch(), &single_maj_network()).unwrap();
    assert_eq!(
        p.instructions,
        vec![
            Instruction::AAPTRA(row(3), row(5), row(7)),
            Instruction::AAPRowCopy(row(3), row(0)),
        ]
    );
    assert_eq!(p.instructions.len(), 2);
}

#[test]
fn shared_subexpression_preserves_live_inputs() {
    // with two reserved output rows the pool starts at row 2; constants take
    // rows 2 and 3, the inputs rows 4..=9, the two preservation copies 10, 11
    let p = compile(&arch(), &shared_subexpression_network()).unwrap();
    assert_eq!(
        p.instructions,
        vec![
            // a and b are needed again after the first TRA destroys their rows
            Instruction::AAPRowCopy(row(4), row(10)),
            Instruction::AAPRowCopy(row(6), row(11)),
            Instruction::AAPTRA(row(4), row(6), row(8)),
            Instruction::AAPRowCopy(row(4), row(0)),
            // the second majority reuses the preserved copies of a and b
            Instruction::AAPTRA(row(4), row(10), row(11)),
            Instruction::AAPRowCopy(row(4), row(1)),
        ]
    );
    let tra_count = p
        .instructions
        .iter()
        .filter(|i| matches!(i, Instruction::AAPTRA(_, _, _)))
        .count();
    assert_eq!(tra_count, 2);
}

#[test]
fn outputs_are_placed_in_their_reserved_rows() {
    // the last write to each output row copies the signal declared there
    let p = compile(&arch(), &shared_subexpression_network()).unwrap();
    let mut to_out0 = Vec::new();
    let mut to_out1 = Vec::new();
    for i in &p.instructions {
        if let Instruction::AAPRowCopy(src, dst) = i {
            if dst.0 == 0 {
                to_out0.push(*src);
            }
            if dst.0 == 1 {
                to_out1.push(*src);
            }
        }
    }
    assert_eq!(to_out0.len(), 1);
    assert_eq!(to_out1.len(), 1);
}

#[test]
fn tra_operands_share_a_subarray() {
    // TRA locality on every emitted instruction
    let p = compile(&arch(), &shared_subexpression_network()).unwrap();
    for i in &p.instructions {
        if let Instruction::AAPTRA(a, b, c) = i {
            assert_eq!(a.get_subarray_id(), b.get_subarray_id());
            assert_eq!(b.get_subarray_id(), c.get_subarray_id());
        }
    }
}

#[test]
fn copies_stay_within_partner_subarrays() {
    // copy partnership on every emitted instruction
    let p = compile(&arch(), &shared_subexpression_network()).unwrap();
    for i in &p.instructions {
        if let Instruction::AAPRowCopy(src, dst) = i {
            let s = src.get_subarray_id();
            let d = dst.get_subarray_id();
            assert!(s == d || s.get_partner_subarray() == d);
        }
    }
}

#[test]
fn compilation_is_deterministic() {
    // two compilations of the same MIG and architecture are bit-identical
    let network = shared_subexpression_network();
    let p1 = compile(&arch(), &network).unwrap();
    let p2 = compile(&arch(), &network).unwrap();
    assert_eq!(p1.instructions, p2.instructions);
    assert_eq!(p1.runtime_estimate, p2.runtime_estimate);
    assert_eq!(p1.energy_consumption_estimate, p2.energy_consumption_estimate);
}

#[test]
fn runtime_estimate_is_sum_of_instruction_latencies() {
    let p = compile(&arch(), &shared_subexpression_network()).unwrap();
    let mut runtime: u64 = 0;
    let mut energy: u64 = 0;
    for i in &p.instructions {
        runtime += i.get_latency_in_ns();
        energy += i.get_energy();
    }
    assert_eq!(p.runtime_estimate, runtime);
    assert_eq!(p.energy_consumption_estimate, energy);
}

#[test]
fn row_exhaustion_is_reported() {
    // a subarray of four rows cannot hold one output sink, two constants and
    // two rows per input
    let small = PRADAArchitecture::new(128, 4);
    let network = MigNetwork {
        nodes: vec![MigNode::Input(0), MigNode::Input(1)],
        outputs: vec![sig(0)],
    };
    assert!(matches!(compile(&small, &network), Err(CompileError::OutOfRows)));
}

#[test]
fn unreachable_output_is_an_invalid_graph() {
    // an output whose node can never be computed (its input never exists)
    let network = MigNetwork {
        nodes: vec![MigNode::Input(0), MigNode::Maj(sig(0), sig(0), sig(9)), MigNode::Input(1)],
        outputs: vec![sig(1)],
    };
    assert!(matches!(compile(&arch(), &network), Err(CompileError::InvalidGraph)));
}

#[test]
fn self_referring_node_is_an_invalid_graph() {
    // a node that lists itself among its inputs is never ready
    let network = MigNetwork {
        nodes: vec![
            MigNode::Input(0),
            MigNode::Input(1),
            MigNode::Maj(sig(2), sig(0), sig(1)),
        ],
        outputs: vec![sig(2)],
    };
    assert!(matches!(compile(&arch(), &network), Err(CompileError::InvalidGraph)));
}

#[test]
fn row_conservation_holds_at_every_step() {
    // occupied + free + reserved output rows always equals the usable rows
    let network = shared_subexpression_network();
    let architecture = arch();
    let mut state = CompilationState::new(&architecture, &network).unwrap();
    let usable = architecture.rows_per_subarray as usize;
    let conserved = |state: &CompilationState| {
        let occupied = state.dram_state.iter().filter(|r| r.is_some()).count();
        occupied + state.free_rows_per_subarray.len() + state.outputs.len()
    };
    assert_eq!(conserved(&state), usable);
    while !state.candidates.is_empty() {
        state.compute(&network, 0).unwrap();
        assert_eq!(conserved(&state), usable);
    }
}

#[test]
fn use_counts_follow_the_backward_edges() {
    let network = shared_subexpression_network();
    let state = CompilationState::new(&arch(), &network).unwrap();
    // a and b feed both majority nodes; c feeds one; y feeds one and is an
    // output; z only is an output
    assert_eq!(state.leftover_use_count(0), 2);
    assert_eq!(state.leftover_use_count(1), 2);
    assert_eq!(state.leftover_use_count(2), 1);
    assert_eq!(state.leftover_use_count(3), 2);
    assert_eq!(state.leftover_use_count(4), 1);
}

#[test]
fn inverted_internal_outputs_use_a_backup_row() {
    // output is not MAJ(a, b, c): copy the positive value to a backup row,
    // negate it there, and move it into the output row
    let network = MigNetwork {
        nodes: vec![
            MigNode::Input(0),
            MigNode::Input(1),
            MigNode::Input(2),
            MigNode::Maj(sig(0), sig(1), sig(2)),
        ],
        outputs: vec![not_sig(3)],
    };
    let p = compile(&arch(), &network).unwrap();
    // the TRA frees rows 5 and 7; the backup is the last freed row, 7
    assert_eq!(
        p.instructions,
        vec![
            Instruction::AAPTRA(row(3), row(5), row(7)),
            Instruction::AAPRowCopy(row(3), row(7)),
            Instruction::N(row(7)),
            Instruction::AAPRowCopy(row(7), row(0)),
        ]
    );
}

#[test]
fn inverted_input_edges_read_the_negative_rows() {
    // y = MAJ(not a, b, c): the inverted polarity of an input is materialized
    // at initialization and feeds the TRA directly
    let network = MigNetwork {
        nodes: vec![
            MigNode::Input(0),
            MigNode::Input(1),
            MigNode::Input(2),
            MigNode::Maj(not_sig(0), sig(1), sig(2)),
        ],
        outputs: vec![sig(3)],
    };
    let p = compile(&arch(), &network).unwrap();
    // not a sits in row 4, b in row 5, c in row 7
    assert_eq!(
        p.instructions,
        vec![
            Instruction::AAPTRA(row(4), row(5), row(7)),
            Instruction::AAPRowCopy(row(4), row(0)),
        ]
    );
}

#[test]
fn chained_majorities_compile_in_dependency_order() {
    // z = MAJ(y, d, e) with y = MAJ(a, b, c); nothing is shared, so no
    // preservation copies are needed
    let network = MigNetwork {
        nodes: vec![
            MigNode::Input(0),
            MigNode::Input(1),
            MigNode::Input(2),
            MigNode::Input(3),
            MigNode::Input(4),
            MigNode::Maj(sig(0), sig(1), sig(2)),
            MigNode::Maj(sig(5), sig(3), sig(4)),
        ],
        outputs: vec![sig(6)],
    };
    let p = compile(&arch(), &network).unwrap();
    // inputs sit in rows 3..=12; y lands in row 3 and is consumed in place
    assert_eq!(
        p.instructions,
        vec![
            Instruction::AAPTRA(row(3), row(5), row(7)),
            Instruction::AAPTRA(row(3), row(9), row(11)),
            Instruction::AAPRowCopy(row(3), row(0)),
        ]
    );
}

#[test]
fn constant_false_node_feeds_the_constant_rows() {
    // y = MAJ(a, b, false) reads the seeded constant row
    let network = MigNetwork {
        nodes: vec![
            MigNode::False,
            MigNode::Input(0),
            MigNode::Input(1),
            MigNode::Maj(sig(1), sig(2), sig(0)),
        ],
        outputs: vec![sig(3)],
    };
    let p = compile(&arch(), &network).unwrap();
    // constants sit in rows 1 (all 0s) and 2 (all 1s); inputs in 3..=6
    assert_eq!(
        p.instructions,
        vec![
            Instruction::AAPTRA(row(3), row(5), row(1)),
            Instruction::AAPRowCopy(row(3), row(0)),
        ]
    );
}
