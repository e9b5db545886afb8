//! The mathematical model of the processor: a state (memory image, program
//! counter, relative base), a one-instruction transition function, and a
//! fuel-bounded iterated run.  The executable processor is specified
//! exactly against these functions.
//!
//! A step either halts, faults, or produces a next state together with how
//! many input words it consumed (zero or one) and which output word, if
//! any, it offered.  Side effects happen only after every operand and
//! address of a step has been resolved, so a faulting step leaves the
//! machine unchanged.

use vstd::prelude::*;

use crate::cpu::decode::{spec_decode, AddressingMode, Opcode};
use crate::cpu::fault::{CpuFault, InputOutputError};
use crate::cpu::memory::{mem_read, mem_write};
use crate::cpu::word::{add_in_range, mul_in_range, Word};

verus! {

/// The semantic state of a processor.
#[verifier::ext_equal]
pub struct MachineState {
    /// The memory image: the written region, addresses beyond it read zero.
    pub mem: Seq<i64>,
    /// The program counter.
    pub pc: int,
    /// The relative base register.
    pub rb: int,
}

/// The outcome of one instruction.
pub enum SpecStep {
    /// A halt instruction executed; the state is unchanged.
    Halted,
    /// The step faulted; the state is unchanged and no input or output
    /// happened.
    Fault(CpuFault),
    /// The step completed: the machine moved to `next`, consumed
    /// `consumed` input words and offered `emitted` to the output port.
    Step { next: MachineState, consumed: int, emitted: Option<i64> },
}

/// The value of a read-only operand in slot `index`, or the fault its
/// resolution raises.
pub open spec fn spec_get(s: MachineState, mode: AddressingMode, index: int) -> Result<
    i64,
    CpuFault,
> {
    if !add_in_range(s.pc, index) {
        Err(CpuFault::Overflow)
    } else {
        let loc = s.pc + index;
        if loc < 0 {
            Err(CpuFault::MemoryFault)
        } else {
            match mode {
                AddressingMode::POSITIONAL => {
                    let a = mem_read(s.mem, loc);
                    if a < 0 {
                        Err(CpuFault::MemoryFault)
                    } else {
                        Ok(mem_read(s.mem, a as int))
                    }
                },
                AddressingMode::IMMEDIATE => Ok(mem_read(s.mem, loc)),
                AddressingMode::RELATIVE => {
                    let off = mem_read(s.mem, loc);
                    if !add_in_range(off as int, s.rb) {
                        Err(CpuFault::Overflow)
                    } else {
                        let a = off + s.rb;
                        if a < 0 {
                            Err(CpuFault::MemoryFault)
                        } else {
                            Ok(mem_read(s.mem, a))
                        }
                    }
                },
            }
        }
    }
}

/// The store address of the write operand in slot `index`, or the fault
/// its resolution raises.  Immediate mode is invalid as a store target.
pub open spec fn spec_put_addr(s: MachineState, mode: AddressingMode, index: int) -> Result<
    int,
    CpuFault,
> {
    if !add_in_range(s.pc, index) {
        Err(CpuFault::Overflow)
    } else {
        let loc = s.pc + index;
        match mode {
            AddressingMode::POSITIONAL => {
                if loc < 0 {
                    Err(CpuFault::MemoryFault)
                } else {
                    let a = mem_read(s.mem, loc);
                    if a < 0 {
                        Err(CpuFault::MemoryFault)
                    } else {
                        Ok(a as int)
                    }
                }
            },
            AddressingMode::RELATIVE => {
                if loc < 0 {
                    Err(CpuFault::MemoryFault)
                } else {
                    let off = mem_read(s.mem, loc);
                    if !add_in_range(off as int, s.rb) {
                        Err(CpuFault::Overflow)
                    } else {
                        let a = off + s.rb;
                        if a < 0 {
                            Err(CpuFault::MemoryFault)
                        } else {
                            Ok(a)
                        }
                    }
                }
            },
            AddressingMode::IMMEDIATE => Err(CpuFault::AddressingModeNotValidInContext),
        }
    }
}

/// A step that stores `value` through slot 3 and advances the program
/// counter by four: the shape shared by the arithmetic and comparison
/// instructions once their result is known.
pub open spec fn spec_store_step(s: MachineState, modes: [AddressingMode; 4], value: i64) -> SpecStep {
    match spec_put_addr(s, modes[3], 3) {
        Err(f) => SpecStep::Fault(f),
        Ok(addr) => if !add_in_range(s.pc, 4) {
            SpecStep::Fault(CpuFault::Overflow)
        } else {
            SpecStep::Step {
                next: MachineState { mem: mem_write(s.mem, addr, value), pc: s.pc + 4, rb: s.rb },
                consumed: 0,
                emitted: None,
            }
        },
    }
}

/// One instruction of the machine, from state `s` with the input words
/// `avail` on offer.  Opaque: callers reason about a step through the
/// contract of `Processor::execute_instruction`; reveal it to unfold one
/// concrete instruction.
#[verifier::opaque]
pub open spec fn spec_step(s: MachineState, avail: Seq<i64>) -> SpecStep {
    if s.pc < 0 {
        SpecStep::Fault(CpuFault::MemoryFault)
    } else {
        let insn = mem_read(s.mem, s.pc);
        match spec_decode(Word(insn), Word(s.pc as i64)) {
            Err(bad) => SpecStep::Fault(CpuFault::InvalidInstruction(bad)),
            Ok(d) => match d.op {
                Opcode::Add => match (
                    spec_get(s, d.addressing_modes[1], 1),
                    spec_get(s, d.addressing_modes[2], 2),
                ) {
                    (Err(f), _) => SpecStep::Fault(f),
                    (Ok(_), Err(f)) => SpecStep::Fault(f),
                    (Ok(a), Ok(b)) => if !add_in_range(a as int, b as int) {
                        SpecStep::Fault(CpuFault::Overflow)
                    } else {
                        spec_store_step(s, d.addressing_modes, (a + b) as i64)
                    },
                },
                Opcode::Multiply => match (
                    spec_get(s, d.addressing_modes[1], 1),
                    spec_get(s, d.addressing_modes[2], 2),
                ) {
                    (Err(f), _) => SpecStep::Fault(f),
                    (Ok(_), Err(f)) => SpecStep::Fault(f),
                    (Ok(a), Ok(b)) => if !mul_in_range(a as int, b as int) {
                        SpecStep::Fault(CpuFault::Overflow)
                    } else {
                        spec_store_step(s, d.addressing_modes, (a * b) as i64)
                    },
                },
                Opcode::Read => match spec_put_addr(s, d.addressing_modes[1], 1) {
                    Err(f) => SpecStep::Fault(f),
                    Ok(addr) => if !add_in_range(s.pc, 2) {
                        SpecStep::Fault(CpuFault::Overflow)
                    } else if avail.len() == 0 {
                        SpecStep::Fault(CpuFault::IOError(InputOutputError::NoInput))
                    } else {
                        SpecStep::Step {
                            next: MachineState {
                                mem: mem_write(s.mem, addr, avail[0]),
                                pc: s.pc + 2,
                                rb: s.rb,
                            },
                            consumed: 1,
                            emitted: None,
                        }
                    },
                },
                Opcode::Write => match spec_get(s, d.addressing_modes[1], 1) {
                    Err(f) => SpecStep::Fault(f),
                    Ok(v) => if !add_in_range(s.pc, 2) {
                        SpecStep::Fault(CpuFault::Overflow)
                    } else {
                        SpecStep::Step {
                            next: MachineState { mem: s.mem, pc: s.pc + 2, rb: s.rb },
                            consumed: 0,
                            emitted: Some(v),
                        }
                    },
                },
                Opcode::JumpTrue => match spec_get(s, d.addressing_modes[1], 1) {
                    Err(f) => SpecStep::Fault(f),
                    Ok(v) => if v != 0 {
                        match spec_get(s, d.addressing_modes[2], 2) {
                            Err(f) => SpecStep::Fault(f),
                            Ok(t) => SpecStep::Step {
                                next: MachineState { mem: s.mem, pc: t as int, rb: s.rb },
                                consumed: 0,
                                emitted: None,
                            },
                        }
                    } else if !add_in_range(s.pc, 3) {
                        SpecStep::Fault(CpuFault::Overflow)
                    } else {
                        SpecStep::Step {
                            next: MachineState { mem: s.mem, pc: s.pc + 3, rb: s.rb },
                            consumed: 0,
                            emitted: None,
                        }
                    },
                },
                Opcode::JumpFalse => match spec_get(s, d.addressing_modes[1], 1) {
                    Err(f) => SpecStep::Fault(f),
                    Ok(v) => if v == 0 {
                        match spec_get(s, d.addressing_modes[2], 2) {
                            Err(f) => SpecStep::Fault(f),
                            Ok(t) => SpecStep::Step {
                                next: MachineState { mem: s.mem, pc: t as int, rb: s.rb },
                                consumed: 0,
                                emitted: None,
                            },
                        }
                    } else if !add_in_range(s.pc, 3) {
                        SpecStep::Fault(CpuFault::Overflow)
                    } else {
                        SpecStep::Step {
                            next: MachineState { mem: s.mem, pc: s.pc + 3, rb: s.rb },
                            consumed: 0,
                            emitted: None,
                        }
                    },
                },
                Opcode::CmpLess => match (
                    spec_get(s, d.addressing_modes[1], 1),
                    spec_get(s, d.addressing_modes[2], 2),
                ) {
                    (Err(f), _) => SpecStep::Fault(f),
                    (Ok(_), Err(f)) => SpecStep::Fault(f),
                    (Ok(a), Ok(b)) => spec_store_step(
                        s,
                        d.addressing_modes,
                        if a < b {
                            1i64
                        } else {
                            0i64
                        },
                    ),
                },
                Opcode::CmpEq => match (
                    spec_get(s, d.addressing_modes[1], 1),
                    spec_get(s, d.addressing_modes[2], 2),
                ) {
                    (Err(f), _) => SpecStep::Fault(f),
                    (Ok(_), Err(f)) => SpecStep::Fault(f),
                    (Ok(a), Ok(b)) => spec_store_step(
                        s,
                        d.addressing_modes,
                        if a == b {
                            1i64
                        } else {
                            0i64
                        },
                    ),
                },
                Opcode::DeltaRelBase => match spec_get(s, d.addressing_modes[1], 1) {
                    Err(f) => SpecStep::Fault(f),
                    Ok(v) => if !add_in_range(s.rb, v as int) {
                        SpecStep::Fault(CpuFault::Overflow)
                    } else if !add_in_range(s.pc, 2) {
                        SpecStep::Fault(CpuFault::Overflow)
                    } else {
                        SpecStep::Step {
                            next: MachineState { mem: s.mem, pc: s.pc + 2, rb: s.rb + v },
                            consumed: 0,
                            emitted: None,
                        }
                    },
                },
                Opcode::Stop => SpecStep::Halted,
            },
        }
    }
}

/// How many input words a step outcome consumed.
pub open spec fn step_consumed(st: SpecStep) -> int {
    match st {
        SpecStep::Step { consumed, .. } => consumed,
        _ => 0,
    }
}

/// The outcome of running the machine for at most `fuel` instructions with
/// the fixed input list `ins`, assuming every offered output is accepted.
pub enum SpecRun {
    /// The machine executed a halt instruction.
    Stopped { state: MachineState, output: Seq<i64>, remaining: Seq<i64> },
    /// The fuel ran out with the machine still running.
    Running { state: MachineState, output: Seq<i64>, remaining: Seq<i64> },
    /// A step faulted; `state` is the state at the fault.
    Crashed { fault: CpuFault, state: MachineState, output: Seq<i64>, remaining: Seq<i64> },
}

/// The words one step offers to the output port.
pub open spec fn opt_seq(o: Option<i64>) -> Seq<i64> {
    match o {
        None => Seq::empty(),
        Some(v) => seq![v],
    }
}

/// `r` with `head` prepended to its collected output.
pub open spec fn run_prepend(head: Seq<i64>, r: SpecRun) -> SpecRun {
    match r {
        SpecRun::Stopped { state, output, remaining } => SpecRun::Stopped {
            state,
            output: head + output,
            remaining,
        },
        SpecRun::Running { state, output, remaining } => SpecRun::Running {
            state,
            output: head + output,
            remaining,
        },
        SpecRun::Crashed { fault, state, output, remaining } => SpecRun::Crashed {
            fault,
            state,
            output: head + output,
            remaining,
        },
    }
}

/// Iterate `spec_step` up to `fuel` times from state `s` with input `ins`,
/// collecting every offered output word in order.
pub open spec fn spec_run(s: MachineState, ins: Seq<i64>, fuel: nat) -> SpecRun
    decreases fuel,
{
    if fuel == 0 {
        SpecRun::Running { state: s, output: Seq::empty(), remaining: ins }
    } else {
        match spec_step(s, ins) {
            SpecStep::Halted => SpecRun::Stopped {
                state: s,
                output: Seq::empty(),
                remaining: ins,
            },
            SpecStep::Fault(f) => SpecRun::Crashed {
                fault: f,
                state: s,
                output: Seq::empty(),
                remaining: ins,
            },
            SpecStep::Step { next, consumed, emitted } => run_prepend(
                opt_seq(emitted),
                spec_run(next, ins.skip(consumed), (fuel - 1) as nat),
            ),
        }
    }
}

/// Prepending twice is prepending the concatenation.
pub proof fn lemma_run_prepend_assoc(a: Seq<i64>, b: Seq<i64>, r: SpecRun)
    ensures
        run_prepend(a, run_prepend(b, r)) == run_prepend(a + b, r),
{
    match r {
        SpecRun::Stopped { state, output, remaining } => {
            assert(a + (b + output) =~= (a + b) + output);
        },
        SpecRun::Running { state, output, remaining } => {
            assert(a + (b + output) =~= (a + b) + output);
        },
        SpecRun::Crashed { fault, state, output, remaining } => {
            assert(a + (b + output) =~= (a + b) + output);
        },
    }
}

/// Prepending nothing changes nothing.
pub proof fn lemma_run_prepend_empty(r: SpecRun)
    ensures
        run_prepend(Seq::empty(), r) == r,
{
    match r {
        SpecRun::Stopped { state, output, remaining } => {
            assert(Seq::empty() + output =~= output);
        },
        SpecRun::Running { state, output, remaining } => {
            assert(Seq::empty() + output =~= output);
        },
        SpecRun::Crashed { fault, state, output, remaining } => {
            assert(Seq::empty() + output =~= output);
        },
    }
}

/// What a caller's own loop over `Processor::execute_instruction`
/// computes: starting from state `s` with the input words `ins` on offer
/// and the words `sent` already in its output sink, take one step at a
/// time, appending each offered output word to the sink, until the machine
/// halts, faults, or `fuel` steps have run.
pub open spec fn stepwise_run(s: MachineState, ins: Seq<i64>, sent: Seq<i64>, fuel: nat) -> SpecRun
    decreases fuel,
{
    if fuel == 0 {
        SpecRun::Running { state: s, output: sent, remaining: ins }
    } else {
        match spec_step(s, ins) {
            SpecStep::Halted => SpecRun::Stopped { state: s, output: sent, remaining: ins },
            SpecStep::Fault(f) => SpecRun::Crashed {
                fault: f,
                state: s,
                output: sent,
                remaining: ins,
            },
            SpecStep::Step { next, consumed, emitted } => stepwise_run(
                next,
                ins.skip(consumed),
                sent + opt_seq(emitted),
                (fuel - 1) as nat,
            ),
        }
    }
}

/// Driving the machine one instruction at a time agrees with the
/// run-to-completion drivers.  The stepwise run — the accumulator-carrying
/// loop that a caller of `execute_instruction` writes — is exactly the
/// bounded run of the model with the sink's prior contents in front: so,
/// from an empty sink, a manual loop of single steps and
/// `run_with_fixed_input` reach the same final state, collect the same
/// output words in the same order, and leave the same input unread, under
/// every step budget.
pub proof fn lemma_stepwise_run_matches_run(
    s: MachineState,
    ins: Seq<i64>,
    sent: Seq<i64>,
    fuel: nat,
)
    ensures
        stepwise_run(s, ins, sent, fuel) == run_prepend(sent, spec_run(s, ins, fuel)),
    decreases fuel,
{
    if fuel == 0 {
        assert(sent + Seq::<i64>::empty() =~= sent);
    } else {
        match spec_step(s, ins) {
            SpecStep::Halted => {
                assert(sent + Seq::<i64>::empty() =~= sent);
            },
            SpecStep::Fault(f) => {
                assert(sent + Seq::<i64>::empty() =~= sent);
            },
            SpecStep::Step { next, consumed, emitted } => {
                lemma_stepwise_run_matches_run(
                    next,
                    ins.skip(consumed),
                    sent + opt_seq(emitted),
                    (fuel - 1) as nat,
                );
                lemma_run_prepend_assoc(
                    sent,
                    opt_seq(emitted),
                    spec_run(next, ins.skip(consumed), (fuel - 1) as nat),
                );
            },
        }
    }
}

/// Complete runs are unique: if running a machine on the same input list
/// reaches a halt under two fuel bounds, the two runs agree exactly — the
/// same final state, the same output sequence and the same leftover input.
/// In particular, a run-to-completion driver and a manual one-step-at-a-time
/// loop over the same program and inputs see identical results.
pub proof fn lemma_complete_runs_agree(s: MachineState, ins: Seq<i64>, fuel1: nat, fuel2: nat)
    requires
        spec_run(s, ins, fuel1) is Stopped,
        spec_run(s, ins, fuel2) is Stopped,
    ensures
        spec_run(s, ins, fuel1) == spec_run(s, ins, fuel2),
    decreases fuel1,
{
    if fuel1 == 0 {
        // impossible: a zero-fuel run is still Running
        assert(false);
    } else {
        match spec_step(s, ins) {
            SpecStep::Halted => {},
            SpecStep::Fault(_) => {
                assert(false);
            },
            SpecStep::Step { next, consumed, emitted } => {
                assert(fuel2 != 0);
                lemma_complete_runs_agree(
                    next,
                    ins.skip(consumed),
                    (fuel1 - 1) as nat,
                    (fuel2 - 1) as nat,
                );
            },
        }
    }
}

/// More fuel never changes a completed run: once a run halts within
/// `fuel`, any larger bound yields the same outcome.
pub proof fn lemma_stopped_run_is_stable(s: MachineState, ins: Seq<i64>, fuel: nat, more: nat)
    requires
        spec_run(s, ins, fuel) is Stopped,
        more >= fuel,
    ensures
        spec_run(s, ins, more) == spec_run(s, ins, fuel),
    decreases fuel,
{
    if fuel == 0 {
        assert(false);
    } else {
        match spec_step(s, ins) {
            SpecStep::Halted => {},
            SpecStep::Fault(_) => {
                assert(false);
            },
            SpecStep::Step { next, consumed, emitted } => {
                lemma_stopped_run_is_stable(
                    next,
                    ins.skip(consumed),
                    (fuel - 1) as nat,
                    (more - 1) as nat,
                );
            },
        }
    }
}

} // verus!
