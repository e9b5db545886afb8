//! The diagnostic runner: run a program with one input word and collect
//! everything it writes.

use vstd::prelude::*;

use crate::cpu::fault::CpuFault;
use crate::cpu::machine::{spec_run, MachineState, SpecRun};
use crate::cpu::memory::lemma_load_block_round_trip;
use crate::cpu::ports::OutputLog;
use crate::cpu::processor::{CpuStatus, Processor};
use crate::cpu::word::Word;

verus! {

/// Run `program` from address zero with `input_word` as the only input,
/// for at most `max_steps` instructions, and collect its output.
///
/// The output is exactly what the machine model prescribes: `Ok(Some(v))`
/// with the full output sequence when the run halts, `Ok(None)` when the
/// step budget runs out first, and the run's fault otherwise.
pub fn run_program(program: &[Word], input_word: Word, max_steps: u64) -> (r: Result<
    Option<Vec<Word>>,
    CpuFault,
>)
    requires
        1 <= program@.len() <= i64::MAX,
    ensures
        ({
            let init = MachineState {
                mem: program@.map_values(|w: Word| w.0),
                pc: 0,
                rb: 0,
            };
            match spec_run(init, seq![input_word.0], max_steps as nat) {
                SpecRun::Stopped { output, .. } => match r {
                    Ok(Some(words)) => words@.map_values(|w: Word| w.0) == output,
                    _ => false,
                },
                SpecRun::Running { .. } => r == Ok::<Option<Vec<Word>>, CpuFault>(None),
                SpecRun::Crashed { fault, .. } => r == Err::<Option<Vec<Word>>, CpuFault>(fault),
            }
        }),
{
    let mut cpu = Processor::new(Word(0));
    match cpu.load(Word(0), program) {
        Ok(()) => (),
        Err(f) => {
            return Err(f);  // unreachable: base zero and the length fits
        },
    }
    proof {
        lemma_load_block_round_trip(program@.map_values(|w: Word| w.0));
    }
    let mut inputs: Vec<Word> = Vec::new();
    inputs.push(input_word);
    let mut output = OutputLog::new();
    proof {
        assert(inputs@.map_values(|w: Word| w.0) =~= seq![input_word.0]);
    }
    match cpu.run_with_fixed_input(inputs.as_slice(), &mut output, max_steps) {
        Ok(CpuStatus::Halt) => {
            proof {
                let ghost run = spec_run(
                    MachineState { mem: program@.map_values(|w: Word| w.0), pc: 0, rb: 0 },
                    seq![input_word.0],
                    max_steps as nat,
                );
                if let SpecRun::Stopped { output: produced, .. } = run {
                    assert(Seq::<i64>::empty() + produced =~= produced);
                }
            }
            let words = output.into_words();
            Ok(Some(words))
        },
        Ok(CpuStatus::Run) => Ok(None),
        Err(f) => Err(f),
    }
}

} // verus!
