use prada::architecture::{PRADAArchitecture, RowAddress};
use prada::program::{Instruction, Program};
use prada::rows::BitwiseRow;
use prada::BitwiseOperand;

fn row(a: u64) -> RowAddress {
    RowAddress(a)
}

#[test]
fn latency_table() {
    assert_eq!(Instruction::AAPRowCopy(row(1), row(2)).get_latency_in_ns(), 100);
    assert_eq!(Instruction::AAPTRA(row(1), row(2), row(3)).get_latency_in_ns(), 49);
    assert_eq!(Instruction::N(row(1)).get_latency_in_ns(), 35);
}

#[test]
fn energy_table() {
    assert_eq!(Instruction::AAPRowCopy(row(1), row(2)).get_energy(), 50);
    assert_eq!(Instruction::AAPTRA(row(1), row(2), row(3)).get_energy(), 150);
    assert_eq!(Instruction::N(row(1)).get_energy(), 100);
}

#[test]
fn used_addresses_lists_input_rows() {
    assert_eq!(Instruction::AAPRowCopy(row(4), row(9)).used_addresses(), vec![row(4)]);
    assert_eq!(
        Instruction::AAPTRA(row(1), row(2), row(3)).used_addresses(),
        vec![row(1), row(2), row(3)]
    );
    assert_eq!(Instruction::N(row(8)).used_addresses(), vec![row(8)]);
}

#[test]
fn input_operands_lists_input_rows() {
    assert_eq!(Instruction::AAPRowCopy(row(4), row(9)).input_operands(), vec![row(4)]);
    assert_eq!(
        Instruction::AAPTRA(row(1), row(2), row(3)).input_operands(),
        vec![row(1), row(2), row(3)]
    );
    assert_eq!(Instruction::N(row(8)).input_operands(), vec![row(8)]);
}

#[test]
fn program_new_sums_latency_and_energy() {
    let arch = PRADAArchitecture::new(128, 512);
    let instructions = vec![
        Instruction::AAPTRA(row(1), row(2), row(3)),
        Instruction::AAPRowCopy(row(1), row(0)),
        Instruction::N(row(5)),
    ];
    let p = Program::new(&arch, instructions.clone());
    assert_eq!(p.instructions, instructions);
    assert_eq!(p.runtime_estimate, 49 + 100 + 35);
    assert_eq!(p.energy_consumption_estimate, 150 + 50 + 100);
    assert_eq!(p.architecture, arch);
}

#[test]
fn program_new_of_empty_program_is_zero() {
    let arch = PRADAArchitecture::new(128, 512);
    let p = Program::new(&arch, vec![]);
    assert_eq!(p.runtime_estimate, 0);
    assert_eq!(p.energy_consumption_estimate, 0);
}

#[test]
fn render_one_instruction_per_line() {
    let arch = PRADAArchitecture::new(128, 512);
    let p = Program::new(
        &arch,
        vec![
            Instruction::AAPRowCopy(row(3), row(0)),
            Instruction::AAPTRA(row(2 * 512 + 210), row(2 * 512 + 7), row(2 * 512 + 8)),
            Instruction::N(row(5)),
        ],
    );
    assert_eq!(p.render(), "AAPRowCopy 0.3 0.0\nAAPTRA 2.210 2.7 2.8\nN 0.5\n");
}

#[test]
fn bitwise_operand_row_and_polarity() {
    let op = BitwiseOperand::T(4);
    assert_eq!(op.row(), BitwiseRow::T(4));
    assert!(!op.inverted());
    assert_eq!(BitwiseOperand::from(BitwiseRow::T(9)), BitwiseOperand::T(9));
}
