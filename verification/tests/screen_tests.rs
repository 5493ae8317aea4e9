use std::collections::VecDeque;

use crt_sim::instructions::Instruction;
use crt_sim::instructions::parse_instructions;
use crt_sim::machines::VirtualMachine;
use crt_sim::screens::Pixel;
use crt_sim::screens::Screen;

/// The canonical example program: 146 instructions whose run takes exactly
/// 240 cycles.
const EXAMPLE_PROGRAM: &str = "addx 15\naddx -11\naddx 6\naddx -3\naddx 5\naddx -1\naddx -8\naddx 13\naddx 4\nnoop\naddx -1\naddx 5\naddx -1\naddx 5\naddx -1\naddx 5\naddx -1\naddx 5\naddx -1\naddx -35\naddx 1\naddx 24\naddx -19\naddx 1\naddx 16\naddx -11\nnoop\nnoop\naddx 21\naddx -15\nnoop\nnoop\naddx -3\naddx 9\naddx 1\naddx -3\naddx 8\naddx 1\naddx 5\nnoop\nnoop\nnoop\nnoop\nnoop\naddx -36\nnoop\naddx 1\naddx 7\nnoop\nnoop\nnoop\naddx 2\naddx 6\nnoop\nnoop\nnoop\nnoop\nnoop\naddx 1\nnoop\nnoop\naddx 7\naddx 1\nnoop\naddx -13\naddx 13\naddx 7\nnoop\naddx 1\naddx -33\nnoop\nnoop\nnoop\naddx 2\nnoop\nnoop\nnoop\naddx 8\nnoop\naddx -1\naddx 2\naddx 1\nnoop\naddx 17\naddx -9\naddx 1\naddx 1\naddx -3\naddx 11\nnoop\nnoop\naddx 1\nnoop\naddx 1\nnoop\nnoop\naddx -13\naddx -19\naddx 1\naddx 3\naddx 26\naddx -30\naddx 12\naddx -1\naddx 3\naddx 1\nnoop\nnoop\nnoop\naddx -9\naddx 18\naddx 1\naddx 2\nnoop\nnoop\naddx 9\nnoop\nnoop\nnoop\naddx -1\naddx 2\naddx -37\naddx 1\naddx 3\nnoop\naddx 15\naddx -21\naddx 22\naddx -6\naddx 1\nnoop\naddx 2\naddx 1\nnoop\naddx -10\nnoop\nnoop\naddx 20\naddx 1\naddx 2\naddx 2\naddx -6\naddx -11\nnoop\nnoop\nnoop";

/// The raster the canonical example program draws.
const EXAMPLE_RASTER: &str = "\
##..##..##..##..##..##..##..##..##..##..\n\
###...###...###...###...###...###...###.\n\
####....####....####....####....####....\n\
#####.....#####.....#####.....#####.....\n\
######......######......######......####\n\
#######.......#######.......#######.....\n";

fn example_machine() -> VirtualMachine {
    let program = parse_instructions(EXAMPLE_PROGRAM);
    assert_eq!(program.len(), 146);
    VirtualMachine::new(program)
}

#[test]
fn example_signal_strengths_sum_to_13140() {
    let mut vm = example_machine();
    let mut sum: isize = 0;
    while vm.is_executing() {
        let ticks = vm.get_ticks();
        if ticks >= 20 && (ticks - 20) % 40 == 0 {
            sum += (ticks as isize) * vm.read_register();
        }
        vm.cycle();
    }
    assert_eq!(sum, 13140);
}

#[test]
fn example_program_draws_the_reference_raster() {
    let mut screen = Screen::new(example_machine());
    screen.refresh();
    assert_eq!(screen.render(), EXAMPLE_RASTER);
}

#[test]
fn refresh_twice_draws_the_same_grid() {
    let mut screen = Screen::new(example_machine());
    screen.refresh();
    let first = screen.render();
    screen.refresh();
    let second = screen.render();
    assert_eq!(first, second);
}

#[test]
fn render_is_pure() {
    let mut screen = Screen::new(example_machine());
    screen.refresh();
    assert_eq!(screen.render(), screen.render());
}

#[test]
fn render_before_refresh_is_all_dark() {
    let screen = Screen::new(example_machine());
    let blank_row = format!("{}\n", ".".repeat(40));
    assert_eq!(screen.render(), blank_row.repeat(6));
}

#[test]
fn refresh_on_empty_program_changes_nothing() {
    let mut screen = Screen::new(VirtualMachine::new(VecDeque::new()));
    screen.refresh();
    let blank_row = format!("{}\n", ".".repeat(40));
    assert_eq!(screen.render(), blank_row.repeat(6));
}

#[test]
fn cycles_beyond_the_grid_are_skipped() {
    // 300 `Noop`s run for 300 cycles: the 60 cycles past the last pixel
    // are driven but sampled nowhere.  The register stays at 1, so the
    // sprite covers columns 0, 1 and 2 on every row.
    let program: Vec<Instruction> = vec![Instruction::Noop; 300];
    let mut screen = Screen::new(VirtualMachine::new(VecDeque::from(program)));
    screen.refresh();
    let row = format!("###{}\n", ".".repeat(37));
    assert_eq!(screen.render(), row.repeat(6));
}

#[test]
fn pixel_characters() {
    assert_eq!(Pixel::Lit.as_char(), '#');
    assert_eq!(Pixel::Dark.as_char(), '.');
}
