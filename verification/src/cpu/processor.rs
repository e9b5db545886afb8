//! The processor: owns a memory, a program counter and a relocatable
//! relative base, and exposes a single-step execution primitive plus two
//! run-to-completion drivers.
//!
//! Each step is specified exactly against `spec_step`; the drivers are
//! specified against `spec_run`.  Side effects (stores, register updates,
//! input consumption, output emission) happen only after every operand,
//! store address and next program counter of the step has been resolved,
//! so a faulting step leaves the machine, and any untouched port, exactly
//! as it was.  Drivers take an explicit step budget so that every loop in
//! the library provably terminates; a budget that runs out reports
//! `CpuStatus::Run`, and the caller may simply drive on.

use vstd::prelude::*;

use crate::cpu::decode::{decode, AddressingMode};
use crate::cpu::fault::CpuFault;
use crate::cpu::machine::{
    lemma_run_prepend_assoc, lemma_run_prepend_empty, opt_seq, run_prepend, spec_get,
    spec_put_addr, spec_run, spec_step, spec_store_step, MachineState, SpecRun, SpecStep,
};
use crate::cpu::memory::{mem_load_block, Memory};
use crate::cpu::ports::{FixedInput, InputPort, OutputPort};
use crate::cpu::trace::{
    lemma_trace_extends_refl, lemma_trace_extends_trans, trace_extends, TraceLog, TraceState,
    Tracer,
};
use crate::cpu::word::Word;

verus! {

/// Whether the machine is still willing to execute instructions.
#[derive(Clone, Copy, Debug, PartialEq, Eq, Structural)]
pub enum CpuStatus {
    Halt,
    Run,
}

/// The virtual machine.
pub struct Processor {
    ram: Memory,
    relative_base: i64,
    pc: Word,
    tracer: Tracer,
}

impl View for Processor {
    type V = MachineState;

    closed spec fn view(&self) -> MachineState {
        MachineState { mem: self.ram@, pc: self.pc.0 as int, rb: self.relative_base as int }
    }
}

/// What one call of `execute_instruction` promises, given the step the
/// model prescribes.  `r` is the call's result; the primed values are the
/// ports' models after the call.
pub open spec fn step_contract(
    st: SpecStep,
    r: Result<CpuStatus, CpuFault>,
    pre: MachineState,
    post: MachineState,
    sent_pre: Seq<i64>,
    sent_post: Seq<i64>,
    accepts_all: bool,
) -> bool {
    match st {
        SpecStep::Halted => r == Ok::<CpuStatus, CpuFault>(CpuStatus::Halt) && post == pre
            && sent_post == sent_pre,
        SpecStep::Fault(f) => r == Err::<CpuStatus, CpuFault>(f) && post == pre && sent_post
            == sent_pre,
        SpecStep::Step { next, consumed, emitted } => match emitted {
            None => r == Ok::<CpuStatus, CpuFault>(CpuStatus::Run) && post == next && sent_post
                == sent_pre,
            Some(v) => {
                &&& (r == Ok::<CpuStatus, CpuFault>(CpuStatus::Run) ==> post == next && sent_post
                    == sent_pre.push(v))
                &&& (r is Err ==> (r matches Err(CpuFault::IOError(_))) && post == pre && sent_post
                    == sent_pre)
                &&& (r == Ok::<CpuStatus, CpuFault>(CpuStatus::Run) || r is Err)
                &&& (accepts_all ==> r == Ok::<CpuStatus, CpuFault>(CpuStatus::Run))
            },
        },
    }
}

impl Processor {
    /// The tracer's state: the sequence number its next event will carry,
    /// and the lines of the bound trace sink, when one is bound.
    pub closed spec fn trace(&self) -> TraceState {
        self.tracer@
    }

    /// A processor with empty memory, relative base zero, the given
    /// initial program counter and no trace sink bound.
    pub fn new(initial_pc: Word) -> (r: Processor)
        ensures
            r@ == (MachineState { mem: Seq::<i64>::empty(), pc: initial_pc.0 as int, rb: 0 }),
            r.trace() == (TraceState { seqno: 0, sink: None }),
    {
        Processor {
            ram: Memory::new(),
            relative_base: 0,
            pc: initial_pc,
            tracer: Tracer::new(),
        }
    }

    /// Bind a trace sink: subsequent events are appended to it.  Tracing
    /// is purely observational and never changes what the machine
    /// computes.
    pub fn enable_tracing(&mut self, sink: TraceLog)
        ensures
            final(self)@ == old(self)@,
            final(self).trace() == (TraceState {
                seqno: old(self).trace().seqno,
                sink: Some(sink@),
            }),
    {
        self.tracer.enable(sink);
    }

    /// Unbind and return the trace sink, with every line recorded since it
    /// was bound, if one was bound.
    pub fn take_trace(&mut self) -> (r: Option<TraceLog>)
        ensures
            final(self)@ == old(self)@,
            final(self).trace() == (TraceState { seqno: old(self).trace().seqno, sink: None }),
            match r {
                Some(log) => old(self).trace().sink == Some(log@),
                None => old(self).trace().sink is None,
            },
    {
        self.tracer.close()
    }

    /// Point the program counter at `addr`.
    pub fn set_pc(&mut self, addr: Word)
        ensures
            final(self)@ == (MachineState { pc: addr.0 as int, ..old(self)@ }),
            final(self).trace() == old(self).trace(),
    {
        self.pc = addr;
    }

    /// Write `content` into memory starting at `base`, leaving the
    /// registers alone.  Fails, writing nothing, when `base` is negative
    /// or the block would run past the last representable address.
    pub fn load(&mut self, base: Word, content: &[Word]) -> (r: Result<(), CpuFault>)
        ensures
            base.0 < 0 ==> r == Err::<(), CpuFault>(CpuFault::MemoryFault) && final(self)@ == old(
                self,
            )@,
            base.0 >= 0 && base.0 + content@.len() - 1 > i64::MAX ==> r == Err::<(), CpuFault>(
                CpuFault::Overflow,
            ) && final(self)@ == old(self)@,
            base.0 >= 0 && base.0 + content@.len() - 1 <= i64::MAX ==> r == Ok::<(), CpuFault>(())
                && final(self)@ == (MachineState {
                mem: mem_load_block(
                    old(self)@.mem,
                    base.0 as int,
                    content@.map_values(|w: Word| w.0),
                ),
                ..old(self)@
            }),
            final(self).trace() == old(self).trace(),
    {
        self.ram.load(base, content)
    }

    /// A snapshot of the written region of memory, in address order from
    /// zero to the high-water mark.
    pub fn ram(&self) -> (r: Vec<Word>)
        ensures
            r@.map_values(|w: Word| w.0) == self@.mem,
    {
        let mut result = Vec::new();
        self.ram.dump(&mut result);
        proof {
            assert(result@.map_values(|w: Word| w.0) =~= self@.mem);
        }
        result
    }

    /// Resolve the value of the read-only operand in slot `index`.
    fn get(&mut self, modes: &[AddressingMode; 4], index: usize) -> (r: Result<Word, CpuFault>)
        requires
            1 <= index <= 3,
        ensures
            final(self)@ == old(self)@,
            trace_extends(old(self).trace(), final(self).trace()),
            match spec_get(old(self)@, modes[index as int], index as int) {
                Ok(v) => r == Ok::<Word, CpuFault>(Word(v)),
                Err(f) => r == Err::<Word, CpuFault>(f),
            },
    {
        let fetch_loc: Word = self.pc.checked_add_usize(&index)?;
        let fetch_loc = match modes[index] {
            AddressingMode::POSITIONAL => self.ram.fetch(fetch_loc)?,
            AddressingMode::IMMEDIATE => fetch_loc,
            AddressingMode::RELATIVE => {
                let base: Word = Word(self.relative_base);
                let offset = self.ram.fetch(fetch_loc)?;
                offset.checked_add(&base)?
            },
        };
        let result = self.ram.fetch(fetch_loc)?;
        self.tracer.trace_mem_load(fetch_loc, result);
        Ok(result)
    }

    /// Resolve the store address of the write operand in slot `index`,
    /// without writing anything yet.
    fn put_addr(&self, modes: &[AddressingMode; 4], index: usize) -> (r: Result<Word, CpuFault>)
        requires
            1 <= index <= 3,
        ensures
            match spec_put_addr(self@, modes[index as int], index as int) {
                Ok(a) => r == Ok::<Word, CpuFault>(Word(a as i64)) && a >= 0,
                Err(f) => r == Err::<Word, CpuFault>(f),
            },
    {
        let fetch_loc = self.pc.checked_add_usize(&index)?;
        let store_loc = match modes[index] {
            AddressingMode::POSITIONAL => self.ram.fetch(fetch_loc)?,
            AddressingMode::RELATIVE => {
                self.ram.fetch(fetch_loc)?.checked_add(&Word(self.relative_base))?
            },
            AddressingMode::IMMEDIATE => {
                return Err(CpuFault::AddressingModeNotValidInContext);
            },
        };
        if store_loc.0 < 0 {
            return Err(CpuFault::MemoryFault);
        }
        Ok(store_loc)
    }

    /// Store `value` through the write operand in slot 3 and advance the
    /// program counter by four, the common tail of the arithmetic and
    /// comparison instructions.
    fn store_and_advance(&mut self, modes: &[AddressingMode; 4], value: Word) -> (r: Result<
        (),
        CpuFault,
    >)
        ensures
            trace_extends(old(self).trace(), final(self).trace()),
            match spec_store_step(old(self)@, *modes, value.0) {
                SpecStep::Fault(f) => r == Err::<(), CpuFault>(f) && final(self)@ == old(self)@,
                SpecStep::Step { next, .. } => r == Ok::<(), CpuFault>(()) && final(self)@ == next,
                SpecStep::Halted => false,
            },
    {
        let addr = self.put_addr(modes, 3)?;
        let next_pc = self.pc.checked_add_usize(&4)?;
        self.tracer.trace_mem_store(addr, value);
        match self.ram.store(addr, value) {
            Ok(()) => (),
            Err(f) => {
                return Err(f);  // unreachable: the address is non-negative
            },
        }
        self.pc = next_pc;
        proof {
            assert(final(self)@ =~= (match spec_store_step(old(self)@, *modes, value.0) {
                SpecStep::Step { next, .. } => next,
                _ => final(self)@,
            }));
        }
        Ok(())
    }

    /// Execute exactly one instruction.
    ///
    /// The returned status, the machine's new state and the ports' new
    /// models are exactly what `spec_step` prescribes for the old state
    /// and the input port's old offer.  The one liberty left to the
    /// environment is an output port's right to reject a word: the step
    /// then reports the I/O error and leaves the machine unchanged.
    pub fn execute_instruction<I: InputPort, O: OutputPort>(
        &mut self,
        get_input: &mut I,
        do_output: &mut O,
    ) -> (r: Result<CpuStatus, CpuFault>)
        ensures
            final(get_input).fifo() == old(get_input).fifo(),
            final(do_output).accepts_all() == old(do_output).accepts_all(),
            trace_extends(old(self).trace(), final(self).trace()),
            step_contract(
                spec_step(old(self)@, old(get_input).avail()),
                r,
                old(self)@,
                final(self)@,
                old(do_output).sent(),
                final(do_output).sent(),
                old(do_output).accepts_all(),
            ),
            old(get_input).fifo() ==> final(get_input).avail() =~= old(get_input).avail().skip(
                crate::cpu::machine::step_consumed(spec_step(old(self)@, old(get_input).avail())),
            ),
    {
        proof {
            reveal(crate::cpu::machine::spec_step);
        }
        let ghost pre = self@;
        let ghost avail0 = get_input.avail();
        let instruction = self.ram.fetch(self.pc)?;
        self.tracer.trace_execution(self.pc, instruction);
        let decoded = match decode(instruction, self.pc) {
            Ok(d) => d,
            Err(bad) => {
                return Err(CpuFault::InvalidInstruction(bad));
            },
        };
        let modes = &decoded.addressing_modes;
        match decoded.op {
            crate::cpu::decode::Opcode::Add => {
                let a = self.get(modes, 1)?;
                let b = self.get(modes, 2)?;
                let value = a.checked_add(&b)?;
                self.store_and_advance(modes, value)?;
                Ok(CpuStatus::Run)
            },
            crate::cpu::decode::Opcode::Multiply => {
                let a = self.get(modes, 1)?;
                let b = self.get(modes, 2)?;
                let value = a.checked_mul(&b)?;
                self.store_and_advance(modes, value)?;
                Ok(CpuStatus::Run)
            },
            crate::cpu::decode::Opcode::Read => {
                let addr = self.put_addr(modes, 1)?;
                let next_pc = self.pc.checked_add_usize(&2)?;
                let input = match get_input.next_input() {
                    Ok(w) => w,
                    Err(e) => {
                        return Err(CpuFault::IOError(e));
                    },
                };
                self.tracer.trace_io_read(input);
                self.tracer.trace_mem_store(addr, input);
                match self.ram.store(addr, input) {
                    Ok(()) => (),
                    Err(f) => {
                        return Err(f);  // unreachable: the address is non-negative
                    },
                }
                self.pc = next_pc;
                Ok(CpuStatus::Run)
            },
            crate::cpu::decode::Opcode::Write => {
                let output = self.get(modes, 1)?;
                let next_pc = self.pc.checked_add_usize(&2)?;
                self.tracer.trace_io_write(output);
                match do_output.emit_output(output) {
                    Ok(()) => {
                        self.pc = next_pc;
                        Ok(CpuStatus::Run)
                    },
                    Err(e) => Err(CpuFault::IOError(e)),
                }
            },
            crate::cpu::decode::Opcode::JumpTrue => {
                let val = self.get(modes, 1)?;
                if val.0 != 0 {
                    let target = self.get(modes, 2)?;
                    self.pc = target;
                } else {
                    let next_pc = self.pc.checked_add_usize(&3)?;
                    self.pc = next_pc;
                }
                Ok(CpuStatus::Run)
            },
            crate::cpu::decode::Opcode::JumpFalse => {
                let val = self.get(modes, 1)?;
                if val.0 == 0 {
                    let target = self.get(modes, 2)?;
                    self.pc = target;
                } else {
                    let next_pc = self.pc.checked_add_usize(&3)?;
                    self.pc = next_pc;
                }
                Ok(CpuStatus::Run)
            },
            crate::cpu::decode::Opcode::CmpLess => {
                let a = self.get(modes, 1)?;
                let b = self.get(modes, 2)?;
                let value = Word(
                    if a.0 < b.0 {
                        1
                    } else {
                        0
                    },
                );
                self.store_and_advance(modes, value)?;
                Ok(CpuStatus::Run)
            },
            crate::cpu::decode::Opcode::CmpEq => {
                let a = self.get(modes, 1)?;
                let b = self.get(modes, 2)?;
                let value = Word(
                    if a.0 == b.0 {
                        1
                    } else {
                        0
                    },
                );
                self.store_and_advance(modes, value)?;
                Ok(CpuStatus::Run)
            },
            crate::cpu::decode::Opcode::DeltaRelBase => {
                let delta = self.get(modes, 1)?;
                let new_base = match self.relative_base.checked_add(delta.0) {
                    Some(b) => b,
                    None => {
                        return Err(CpuFault::Overflow);
                    },
                };
                let next_pc = self.pc.checked_add_usize(&2)?;
                self.relative_base = new_base;
                self.pc = next_pc;
                Ok(CpuStatus::Run)
            },
            crate::cpu::decode::Opcode::Stop => Ok(CpuStatus::Halt),
        }
    }

    /// Drive `execute_instruction` until the machine halts, a fault
    /// arises, or `max_steps` instructions have run.
    ///
    /// For a queue-like input port and a sink that accepts every word, the
    /// outcome is exactly what `spec_run` prescribes: `Ok(Halt)` for a
    /// completed run, `Ok(Run)` for an exhausted step budget, and the
    /// fault of the first faulting step otherwise, with the sink holding
    /// every output word the run offered, in order.
    #[verifier::rlimit(100)]
    pub fn run_with_io<I: InputPort, O: OutputPort>(
        &mut self,
        get_input: &mut I,
        do_output: &mut O,
        max_steps: u64,
    ) -> (r: Result<CpuStatus, CpuFault>)
        ensures
            final(get_input).fifo() == old(get_input).fifo(),
            final(do_output).accepts_all() == old(do_output).accepts_all(),
            trace_extends(old(self).trace(), final(self).trace()),
            (old(get_input).fifo() && old(do_output).accepts_all()) ==> match spec_run(
                old(self)@,
                old(get_input).avail(),
                max_steps as nat,
            ) {
                SpecRun::Stopped { state, output, remaining } => r == Ok::<CpuStatus, CpuFault>(
                    CpuStatus::Halt,
                ) && final(self)@ == state && final(do_output).sent() == old(do_output).sent()
                    + output && final(get_input).avail() == remaining,
                SpecRun::Running { state, output, remaining } => r == Ok::<CpuStatus, CpuFault>(
                    CpuStatus::Run,
                ) && final(self)@ == state && final(do_output).sent() == old(do_output).sent()
                    + output && final(get_input).avail() == remaining,
                SpecRun::Crashed { fault, state, output, remaining } => r == Err::<
                    CpuStatus,
                    CpuFault,
                >(fault) && final(self)@ == state && final(do_output).sent() == old(
                    do_output,
                ).sent() + output && final(get_input).avail() == remaining,
            },
    {
        let ghost s0 = self@;
        let ghost in0 = get_input.avail();
        let ghost out0 = do_output.sent();
        let ghost good = get_input.fifo() && do_output.accepts_all();
        let ghost mut acc: Seq<i64> = Seq::empty();
        let mut steps: u64 = 0;
        proof {
            lemma_trace_extends_refl(self.trace());
            if good {
                lemma_run_prepend_empty(spec_run(s0, in0, max_steps as nat));
                assert(out0 + acc =~= out0);
            }
        }
        while steps < max_steps
            invariant
                steps <= max_steps,
                s0 == old(self)@,
                in0 == old(get_input).avail(),
                out0 == old(do_output).sent(),
                good == (old(get_input).fifo() && old(do_output).accepts_all()),
                trace_extends(old(self).trace(), self.trace()),
                get_input.fifo() == old(get_input).fifo(),
                do_output.accepts_all() == old(do_output).accepts_all(),
                good ==> do_output.sent() == out0 + acc,
                good ==> spec_run(s0, in0, max_steps as nat) == run_prepend(
                    acc,
                    spec_run(self@, get_input.avail(), (max_steps - steps) as nat),
                ),
            decreases max_steps - steps,
        {
            let ghost pre = self@;
            let ghost tr_pre = self.trace();
            let ghost avail_pre = get_input.avail();
            let ghost sent_pre = do_output.sent();
            let status = self.execute_instruction(get_input, do_output);
            proof {
                lemma_trace_extends_trans(old(self).trace(), tr_pre, self.trace());
                let st = spec_step(pre, avail_pre);
                if good {
                    match st {
                        SpecStep::Step { next, consumed, emitted } => {
                            lemma_run_prepend_assoc(
                                acc,
                                opt_seq(emitted),
                                spec_run(
                                    next,
                                    avail_pre.skip(consumed),
                                    (max_steps - steps - 1) as nat,
                                ),
                            );
                            if status is Ok {
                                acc = acc + opt_seq(emitted);
                            }
                        },
                        _ => (),
                    }
                }
            }
            match status {
                Ok(CpuStatus::Run) => {
                    steps = steps + 1;
                    proof {
                        if good {
                            let st = spec_step(pre, avail_pre);
                            match st {
                                SpecStep::Step { next, consumed, emitted } => {
                                    match emitted {
                                        Some(v) => {
                                            assert(do_output.sent() =~= out0 + acc);
                                        },
                                        None => {
                                            assert(acc + opt_seq(emitted) =~= acc);
                                            assert(do_output.sent() =~= out0 + acc);
                                        },
                                    }
                                },
                                _ => (),
                            }
                        }
                    }
                },
                Ok(CpuStatus::Halt) => {
                    proof {
                        if good {
                            assert(spec_run(s0, in0, max_steps as nat) == run_prepend(
                                acc,
                                SpecRun::Stopped {
                                    state: pre,
                                    output: Seq::empty(),
                                    remaining: avail_pre,
                                },
                            ));
                            assert(acc + Seq::<i64>::empty() =~= acc);
                            assert(avail_pre.skip(0) =~= avail_pre);
                            assert(get_input.avail() == avail_pre);
                        }
                    }
                    return Ok(CpuStatus::Halt);
                },
                Err(f) => {
                    proof {
                        if good {
                            let st = spec_step(pre, avail_pre);
                            match st {
                                SpecStep::Fault(g) => {
                                    assert(spec_run(pre, avail_pre, (max_steps - steps) as nat)
                                        == (SpecRun::Crashed {
                                        fault: g,
                                        state: pre,
                                        output: Seq::empty(),
                                        remaining: avail_pre,
                                    }));
                                    assert(acc + Seq::<i64>::empty() =~= acc);
                                    assert(avail_pre.skip(0) =~= avail_pre);
                                    assert(get_input.avail() == avail_pre);
                                },
                                _ => (),
                            }
                        }
                    }
                    return Err(f);
                },
            }
        }
        proof {
            if good {
                assert(acc + Seq::<i64>::empty() =~= acc);
            }
        }
        Ok(CpuStatus::Run)
    }

    /// Run to completion with a pre-supplied, ordered list of input words
    /// as the successive answers to read instructions.  An attempted read
    /// past the end of the list faults with an I/O error, which this
    /// driver reports like any other fault.
    pub fn run_with_fixed_input<O: OutputPort>(
        &mut self,
        fixed_input: &[Word],
        do_output: &mut O,
        max_steps: u64,
    ) -> (r: Result<CpuStatus, CpuFault>)
        ensures
            final(do_output).accepts_all() == old(do_output).accepts_all(),
            trace_extends(old(self).trace(), final(self).trace()),
            old(do_output).accepts_all() ==> match spec_run(
                old(self)@,
                fixed_input@.map_values(|w: Word| w.0),
                max_steps as nat,
            ) {
                SpecRun::Stopped { state, output, remaining } => r == Ok::<CpuStatus, CpuFault>(
                    CpuStatus::Halt,
                ) && final(self)@ == state && final(do_output).sent() == old(do_output).sent()
                    + output,
                SpecRun::Running { state, output, remaining } => r == Ok::<CpuStatus, CpuFault>(
                    CpuStatus::Run,
                ) && final(self)@ == state && final(do_output).sent() == old(do_output).sent()
                    + output,
                SpecRun::Crashed { fault, state, output, remaining } => r == Err::<
                    CpuStatus,
                    CpuFault,
                >(fault) && final(self)@ == state && final(do_output).sent() == old(
                    do_output,
                ).sent() + output,
            },
    {
        let values = vstd::slice::slice_to_vec(fixed_input);
        let mut port = FixedInput::new(values);
        self.run_with_io(&mut port, do_output, max_steps)
    }
}

} // verus!
