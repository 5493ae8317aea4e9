use std::collections::VecDeque;

use crt_sim::instructions::Instruction;
use crt_sim::machines::VirtualMachine;

fn machine_of(program: Vec<Instruction>) -> VirtualMachine {
    VirtualMachine::new(VecDeque::from(program))
}

#[test]
fn fresh_machine_state() {
    let vm = machine_of(vec![Instruction::Noop]);
    assert_eq!(vm.get_ticks(), 1);
    assert_eq!(vm.read_register(), 1);
    assert!(vm.is_executing());
}

#[test]
fn ticks_increase_by_one_per_cycle() {
    let mut vm = machine_of(vec![
        Instruction::Noop,
        Instruction::Addx(3),
        Instruction::Noop,
    ]);
    let mut expected: usize = 1;
    while vm.is_executing() {
        assert_eq!(vm.get_ticks(), expected);
        vm.cycle();
        expected += 1;
        assert_eq!(vm.get_ticks(), expected);
    }
    assert_eq!(vm.get_ticks(), 5);
}

#[test]
fn noop_retires_in_one_cycle_without_touching_register() {
    let mut vm = machine_of(vec![Instruction::Noop]);
    assert_eq!(vm.read_register(), 1);
    vm.cycle();
    assert_eq!(vm.read_register(), 1);
    assert!(!vm.is_executing());
}

#[test]
fn addx_applies_only_after_its_second_cycle() {
    let mut vm = machine_of(vec![Instruction::Addx(3), Instruction::Addx(-5)]);
    vm.cycle();
    assert_eq!(vm.read_register(), 1, "unchanged through the scheduling cycle");
    vm.cycle();
    assert_eq!(vm.read_register(), 4, "visible once the second cycle returns");
    vm.cycle();
    assert_eq!(vm.read_register(), 4);
    vm.cycle();
    assert_eq!(vm.read_register(), -1);
    assert!(!vm.is_executing());
}

#[test]
fn executing_through_last_completion_then_false() {
    // Total latency: 1 + 2 + 1 = 4 cycles of work.
    let mut vm = machine_of(vec![
        Instruction::Noop,
        Instruction::Addx(7),
        Instruction::Noop,
    ]);
    for _ in 0..4 {
        assert!(vm.is_executing());
        vm.cycle();
    }
    assert!(!vm.is_executing());
    assert!(!vm.is_executing(), "stays false under further inspection");
    assert_eq!(vm.read_register(), 8);
}

#[test]
fn empty_program_never_executes() {
    let vm = machine_of(vec![]);
    assert!(!vm.is_executing());
    assert_eq!(vm.read_register(), 1);
    assert_eq!(vm.get_ticks(), 1);
}

#[test]
fn register_can_go_negative() {
    let mut vm = machine_of(vec![Instruction::Addx(-10)]);
    vm.cycle();
    vm.cycle();
    assert_eq!(vm.read_register(), -9);
}
