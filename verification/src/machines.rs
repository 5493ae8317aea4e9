use std::collections::VecDeque;

use vstd::prelude::*;

use crate::instructions::Instruction;
use crate::instructions::latency;

verus! {

/// Mathematical state of the processor: the program still to be fetched,
/// the instruction currently in flight (if any), the register, and the
/// number of the cycle about to run.
#[verifier::ext_equal]
pub ghost struct MachineModel {
    pub program: Seq<Instruction>,
    pub in_flight: Option<Instruction>,
    pub register: int,
    pub ticks: int,
}

/// Total number of cycles the instructions of `program` will occupy.
pub open spec fn program_latency(program: Seq<Instruction>) -> nat
    decreases program.len(),
{
    if program.len() == 0 {
        0
    } else {
        latency(program[0]) + program_latency(program.drop_first())
    }
}

/// Cycles left until the machine runs out of work.
pub open spec fn work(m: MachineModel) -> nat {
    program_latency(m.program) + if m.in_flight is Some {
        1nat
    } else {
        0nat
    }
}

/// The machine still has an instruction to fetch or to finish.
pub open spec fn executing(m: MachineModel) -> bool {
    m.program.len() > 0 || m.in_flight is Some
}

/// The machine state after one cycle.
///
/// With nothing in flight the next instruction is fetched: a `Noop` retires
/// at once, an `Addx` is parked in the in-flight slot with its effect
/// deferred.  With an instruction in flight its effect is applied and the
/// slot cleared.  Either way the cycle counter moves up by one.
pub open spec fn step(m: MachineModel) -> MachineModel
    recommends
        executing(m),
{
    if m.in_flight is None {
        let rest = m.program.drop_first();
        match m.program[0] {
            Instruction::Noop => MachineModel {
                program: rest,
                in_flight: None,
                register: m.register,
                ticks: m.ticks + 1,
            },
            Instruction::Addx(d) => MachineModel {
                program: rest,
                in_flight: Some(Instruction::Addx(d)),
                register: m.register,
                ticks: m.ticks + 1,
            },
        }
    } else {
        let applied = match m.in_flight {
            Some(Instruction::Addx(d)) => m.register + d,
            _ => m.register,
        };
        MachineModel { program: m.program, in_flight: None, register: applied, ticks: m.ticks + 1 }
    }
}

/// The one cycle about to run keeps the register within machine bounds.
pub open spec fn step_ok(m: MachineModel) -> bool {
    match m.in_flight {
        Some(Instruction::Addx(d)) => isize::MIN <= m.register + d <= isize::MAX,
        _ => true,
    }
}

/// The machine state after `n` cycles.
pub open spec fn run_machine(m: MachineModel, n: nat) -> MachineModel
    decreases n,
{
    if n == 0 {
        m
    } else {
        run_machine(step(m), (n - 1) as nat)
    }
}

/// Each of the next `n` cycles keeps the register within machine bounds.
pub open spec fn safe_steps(m: MachineModel, n: nat) -> bool
    decreases n,
{
    n == 0 || (step_ok(m) && safe_steps(step(m), (n - 1) as nat))
}

/// A machine has work left exactly when cycles remain.
pub proof fn lemma_executing_work(m: MachineModel)
    ensures
        executing(m) <==> work(m) > 0,
{
}

/// Every cycle consumes exactly one unit of the remaining work.
pub proof fn lemma_step_work(m: MachineModel)
    requires
        executing(m),
    ensures
        work(step(m)) == work(m) - 1,
{
}

/// The machine reports work for every cycle up to the completion of its
/// last instruction, and none from then on: after `i` of the `work(m)`
/// remaining cycles it is executing exactly when `i < work(m)`.
pub proof fn lemma_executing_until_done(m: MachineModel, i: nat)
    requires
        i <= work(m),
    ensures
        executing(run_machine(m, i)) <==> i < work(m),
    decreases i,
{
    if i > 0 {
        lemma_executing_work(m);
        lemma_step_work(m);
        lemma_executing_until_done(step(m), (i - 1) as nat);
    } else {
        lemma_executing_work(m);
    }
}

/// A `Noop` at the front of the program retires in a single cycle and
/// never changes the register.
pub proof fn lemma_noop_single_cycle(m: MachineModel)
    requires
        m.in_flight is None,
        m.program.len() > 0,
        m.program[0] == Instruction::Noop,
    ensures
        step(m).register == m.register,
        step(m).in_flight is None,
        step(m).program == m.program.drop_first(),
        step(m).ticks == m.ticks + 1,
{
}

/// An `Addx(d)` at the front of the program leaves the register unchanged
/// through the cycle that schedules it, and the sum becomes visible only
/// when the following cycle completes.
pub proof fn lemma_addx_two_cycles(m: MachineModel, d: isize)
    requires
        m.in_flight is None,
        m.program.len() > 0,
        m.program[0] == Instruction::Addx(d),
    ensures
        step(m).register == m.register,
        step(m).in_flight == Some(Instruction::Addx(d)),
        step(step(m)).register == m.register + d,
        step(step(m)).in_flight is None,
        step(step(m)).program == m.program.drop_first(),
        step(step(m)).ticks == m.ticks + 2,
{
}

/// A virtual machine executes a program, a sequence of `Instruction`s.  It
/// maintains the value of a single register.  Since some instructions take
/// longer than one cycle, it separates the program instructions from the
/// one in flight.
#[derive(Debug)]
pub struct VirtualMachine {
    /// Instructions not yet fetched, consumed from the front.
    program: VecDeque<Instruction>,
    /// The instruction currently executing, whose effect is still pending.
    in_flight: Option<Instruction>,
    /// The single register of this machine, initially `1`.
    register: isize,
    /// The number of the cycle about to run, initially `1`; it moves up by
    /// one every time the machine cycles.
    ticks: usize,
}

impl View for VirtualMachine {
    type V = MachineModel;

    closed spec fn view(&self) -> MachineModel {
        MachineModel {
            program: self.program@,
            in_flight: self.in_flight,
            register: self.register as int,
            ticks: self.ticks as int,
        }
    }
}

/// The states a well-formed machine can be in: the cycle counter started
/// at one and cannot exhaust `usize` over the cycles that remain, and only
/// an `Addx` ever occupies the in-flight slot.
pub open spec fn wf_machine(m: MachineModel) -> bool {
    &&& m.ticks >= 1
    &&& m.ticks + work(m) <= usize::MAX
    &&& m.in_flight != Some(Instruction::Noop)
}

impl VirtualMachine {
    /// The representation invariant; see [`wf_machine`].
    pub open spec fn wf(&self) -> bool {
        wf_machine(self@)
    }

    /// A fresh machine for `program`: nothing in flight, register one,
    /// about to run cycle one.
    pub fn new(program: VecDeque<Instruction>) -> (machine: Self)
        requires
            1 + program_latency(program@) <= usize::MAX,
        ensures
            machine.wf(),
            machine@.program == program@,
            machine@.in_flight is None,
            machine@.register == 1,
            machine@.ticks == 1,
    {
        VirtualMachine { program, in_flight: None, register: 1, ticks: 1 }
    }

    /// Returns `false` exactly when the program has finished executing:
    /// nothing left to fetch and nothing in flight.
    pub fn is_executing(&self) -> (busy: bool)
        ensures
            busy == executing(self@),
    {
        self.program.len() > 0 || self.in_flight.is_some()
    }

    /// The value currently stored in the register.  Instructions still in
    /// flight have not touched it yet: it reflects exactly the
    /// instructions that have fully completed.
    pub fn read_register(&self) -> (value: isize)
        ensures
            value == self@.register,
    {
        self.register
    }

    /// The number of the cycle about to run.
    pub fn get_ticks(&self) -> (ticks: usize)
        ensures
            ticks == self@.ticks,
    {
        self.ticks
    }

    /// Advances the machine by exactly one cycle, as [`step`] describes,
    /// and moves the cycle counter up by one.
    ///
    /// The caller must have checked `is_executing()` first: a machine with
    /// no work left cannot cycle.
    pub fn cycle(&mut self)
        requires
            old(self).wf(),
            executing(old(self)@),
            step_ok(old(self)@),
        ensures
            final(self).wf(),
            final(self)@ == step(old(self)@),
            final(self)@.ticks == old(self)@.ticks + 1,
    {
        proof {
            lemma_executing_work(old(self)@);
            lemma_step_work(old(self)@);
        }
        if self.in_flight.is_none() {
            self.schedule();
        } else {
            self.execute();
        }
        self.ticks = self.ticks + 1;
        proof {
            assert(self@ =~= step(old(self)@));
        }
    }

    /// An instruction is in flight, necessarily an `Addx` scheduled on the
    /// previous cycle: apply its effect and clear the slot.
    fn execute(&mut self)
        requires
            old(self).wf(),
            old(self)@.in_flight is Some,
            step_ok(old(self)@),
        ensures
            final(self)@.program == old(self)@.program,
            final(self)@.in_flight is None,
            final(self)@.register == match old(self)@.in_flight {
                Some(Instruction::Addx(d)) => old(self)@.register + d,
                _ => old(self)@.register,
            },
            final(self)@.ticks == old(self)@.ticks,
    {
        let instruction = self.in_flight.unwrap();
        match instruction {
            Instruction::Noop => (),
            Instruction::Addx(number) => {
                self.register = self.register + number;
            },
        }
        self.in_flight = None;
    }

    /// Nothing is in flight: fetch the next instruction.  A `Noop` retires
    /// at once; an `Addx` is parked in the in-flight slot so that its
    /// effect lands only on the next cycle.
    fn schedule(&mut self)
        requires
            old(self).wf(),
            old(self)@.in_flight is None,
            old(self)@.program.len() > 0,
        ensures
            final(self)@.program == old(self)@.program.drop_first(),
            final(self)@.in_flight == match old(self)@.program[0] {
                Instruction::Noop => None::<Instruction>,
                Instruction::Addx(d) => Some(Instruction::Addx(d)),
            },
            final(self)@.register == old(self)@.register,
            final(self)@.ticks == old(self)@.ticks,
    {
        let instruction = self.program.pop_front();
        let instruction = instruction.unwrap();
        match instruction {
            Instruction::Noop => (),
            Instruction::Addx(_) => self.in_flight = Some(instruction),
        }
        proof {
            assert(self@.program =~= old(self)@.program.drop_first());
        }
    }
}

} // verus!
