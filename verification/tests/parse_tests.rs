use std::collections::VecDeque;

use crt_sim::instructions::Instruction;
use crt_sim::instructions::parse_instruction;
use crt_sim::instructions::parse_instructions;

#[test]
fn parses_noop() {
    assert_eq!(parse_instruction("noop"), Instruction::Noop);
}

#[test]
fn noop_prefix_wins() {
    // Only the four-character prefix is inspected, as the machine's input
    // format prescribes.
    assert_eq!(parse_instruction("noopville"), Instruction::Noop);
}

#[test]
fn parses_positive_operand() {
    assert_eq!(parse_instruction("addx 15"), Instruction::Addx(15));
}

#[test]
fn parses_negative_operand() {
    assert_eq!(parse_instruction("addx -11"), Instruction::Addx(-11));
}

#[test]
fn parses_explicit_plus_sign() {
    assert_eq!(parse_instruction("addx +7"), Instruction::Addx(7));
}

#[test]
fn parses_zero() {
    assert_eq!(parse_instruction("addx 0"), Instruction::Addx(0));
}

#[test]
fn parses_multi_digit_operand() {
    assert_eq!(parse_instruction("addx 1234"), Instruction::Addx(1234));
    assert_eq!(parse_instruction("addx -98765"), Instruction::Addx(-98765));
}

#[test]
fn parses_program_line_by_line() {
    let program = parse_instructions("addx 15\nnoop\naddx -11");
    assert_eq!(
        program,
        VecDeque::from(vec![
            Instruction::Addx(15),
            Instruction::Noop,
            Instruction::Addx(-11),
        ])
    );
}

#[test]
fn parses_single_line_program() {
    let program = parse_instructions("noop");
    assert_eq!(program, VecDeque::from(vec![Instruction::Noop]));
}
