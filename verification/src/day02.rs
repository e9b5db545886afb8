//! The gravity-assist check: patch a program's noun and verb, run it to
//! completion with no input or output, and read the answer back from
//! address zero.

use vstd::prelude::*;

use crate::cpu::fault::CpuFault;
use crate::cpu::machine::{spec_run, MachineState, SpecRun};
use crate::cpu::memory::{lemma_load_block_round_trip, mem_read};
use crate::cpu::ports::{DiscardOutput, NoInputPort};
use crate::cpu::processor::{CpuStatus, Processor};
use crate::cpu::word::Word;

verus! {

/// The program with its noun and verb patched in.
pub open spec fn patched(program: Seq<i64>, noun: i64, verb: i64) -> Seq<i64> {
    program.update(1, noun).update(2, verb)
}

/// Run `program` with addresses 1 and 2 replaced by `noun` and `verb`,
/// no input and discarded output, for at most `max_steps` instructions,
/// and report what address zero then holds.
///
/// The answer is exactly what the machine model prescribes for the
/// patched program: `Ok(Some(w))` when the run halts with `w` at address
/// zero, `Ok(None)` when the step budget runs out first, and the run's
/// fault otherwise.
pub fn run_program(program: &[Word], noun: Word, verb: Word, max_steps: u64) -> (r: Result<
    Option<Word>,
    CpuFault,
>)
    requires
        3 <= program@.len() <= i64::MAX,
    ensures
        ({
            let init = MachineState {
                mem: patched(program@.map_values(|w: Word| w.0), noun.0, verb.0),
                pc: 0,
                rb: 0,
            };
            match spec_run(init, Seq::empty(), max_steps as nat) {
                SpecRun::Stopped { state, .. } => r == Ok::<Option<Word>, CpuFault>(
                    Some(Word(mem_read(state.mem, 0))),
                ),
                SpecRun::Running { .. } => r == Ok::<Option<Word>, CpuFault>(None),
                SpecRun::Crashed { fault, .. } => r == Err::<Option<Word>, CpuFault>(fault),
            }
        }),
{
    let mut modified: Vec<Word> = vstd::slice::slice_to_vec(program);
    modified[1] = noun;
    modified[2] = verb;
    proof {
        assert(modified@.map_values(|w: Word| w.0) =~= patched(
            program@.map_values(|w: Word| w.0),
            noun.0,
            verb.0,
        ));
    }
    let mut cpu = Processor::new(Word(0));
    match cpu.load(Word(0), modified.as_slice()) {
        Ok(()) => (),
        Err(f) => {
            return Err(f);  // unreachable: base zero and the length fits
        },
    }
    proof {
        lemma_load_block_round_trip(modified@.map_values(|w: Word| w.0));
    }
    let mut input = NoInputPort {};
    let mut output = DiscardOutput::new();
    match cpu.run_with_io(&mut input, &mut output, max_steps) {
        Ok(CpuStatus::Halt) => {
            let ram = cpu.ram();
            if ram.len() >= 1 {
                proof {
                    assert(ram@.map_values(|w: Word| w.0)[0] == ram@[0].0);
                }
                Ok(Some(ram[0]))
            } else {
                Ok(Some(Word(0)))
            }
        },
        Ok(CpuStatus::Run) => Ok(None),
        Err(f) => Err(f),
    }
}

} // verus!
