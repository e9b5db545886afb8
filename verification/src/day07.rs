//! Amplifier orchestration: the same program runs on a chain (or a
//! feedback ring) of processors, each fed a phase setting and its
//! predecessor's signal, and the best phase order is sought.

use vstd::prelude::*;

use itertools::Itertools;

use crate::cpu::fault::{CpuFault, InputOutputError};
use crate::cpu::machine::{spec_run, MachineState, SpecRun};
use crate::cpu::memory::lemma_load_block_round_trip;
use crate::cpu::ports::{FixedInput, OutputLog, OutputPort};
use crate::cpu::processor::{CpuStatus, Processor};
use crate::cpu::word::Word;

verus! {

/// Why an amplifier run failed: the machine faulted, or client-level
/// bookkeeping noticed an impossible state (the wrong number of outputs,
/// a missing signal, an exhausted budget).
#[derive(Debug, Clone, PartialEq, Eq)]
pub enum AmplifierError {
    Cpu(CpuFault),
    InvariantViolated(String),
}

/// The machine state holding `program` at base zero, about to run.
pub open spec fn initial_state(program: Seq<i64>) -> MachineState {
    MachineState { mem: program, pc: 0, rb: 0 }
}

/// What one amplifier passes on: run the program with the phase and the
/// incoming signal as its two inputs; the signal out is the run's single
/// output word, if the run halts with exactly one.
pub open spec fn spec_amplifier(program: Seq<i64>, phase: i64, signal: i64, fuel: nat) -> Option<
    i64,
> {
    match spec_run(initial_state(program), seq![phase, signal], fuel) {
        SpecRun::Stopped { output, .. } => if output.len() == 1 {
            Some(output[0])
        } else {
            None
        },
        _ => None,
    }
}

/// The signal after feeding `signal` through one amplifier per phase, in
/// order.
pub open spec fn spec_chain(program: Seq<i64>, phases: Seq<i64>, signal: i64, fuel: nat) -> Option<
    i64,
>
    decreases phases.len(),
{
    if phases.len() == 0 {
        Some(signal)
    } else {
        match spec_amplifier(program, phases[0], signal, fuel) {
            Some(out) => spec_chain(program, phases.skip(1), out, fuel),
            None => None,
        }
    }
}

/// Run one amplifier: the program, loaded fresh, fed the phase and the
/// signal, driven to completion.
fn run_amplifier(program: &[Word], phase: Word, input: Word, max_steps: u64) -> (r: Result<
    Word,
    AmplifierError,
>)
    requires
        1 <= program@.len() <= i64::MAX,
    ensures
        match spec_amplifier(program@.map_values(|w: Word| w.0), phase.0, input.0, max_steps as nat) {
            Some(out) => r == Ok::<Word, AmplifierError>(Word(out)),
            None => r is Err,
        },
{
    let mut cpu = Processor::new(Word(0));
    match cpu.load(Word(0), program) {
        Ok(()) => (),
        Err(f) => {
            return Err(AmplifierError::Cpu(f));  // unreachable: base zero, length fits
        },
    }
    proof {
        lemma_load_block_round_trip(program@.map_values(|w: Word| w.0));
    }
    let mut inputs: Vec<Word> = Vec::new();
    inputs.push(phase);
    inputs.push(input);
    proof {
        assert(inputs@.map_values(|w: Word| w.0) =~= seq![phase.0, input.0]);
    }
    let mut output = OutputLog::new();
    match cpu.run_with_fixed_input(inputs.as_slice(), &mut output, max_steps) {
        Ok(CpuStatus::Halt) => (),
        Ok(CpuStatus::Run) => {
            return Err(AmplifierError::InvariantViolated(
                String::from_str("amplifier did not halt within the step budget"),
            ));
        },
        Err(f) => {
            return Err(AmplifierError::Cpu(f));
        },
    }
    let words = output.into_words();
    if words.len() != 1 {
        return Err(AmplifierError::InvariantViolated(
            String::from_str("amplifier should produce exactly one output"),
        ));
    }
    proof {
        assert(words@.map_values(|w: Word| w.0)[0] == words@[0].0);
    }
    Ok(words[0])
}

/// Feed `input` through one amplifier per phase, in order.
pub fn run_amplifier_chain(program: &[Word], phases: &[Word], input: Word, max_steps: u64) -> (r:
    Result<Word, AmplifierError>)
    requires
        1 <= program@.len() <= i64::MAX,
        phases@.len() >= 1,
    ensures
        match spec_chain(
            program@.map_values(|w: Word| w.0),
            phases@.map_values(|w: Word| w.0),
            input.0,
            max_steps as nat,
        ) {
            Some(out) => r == Ok::<Word, AmplifierError>(Word(out)),
            None => r is Err,
        },
{
    let ghost prog = program@.map_values(|w: Word| w.0);
    let ghost phase_vals = phases@.map_values(|w: Word| w.0);
    proof {
        assert(phase_vals.skip(0) =~= phase_vals);
    }
    let mut signal = input;
    let mut i: usize = 0;
    while i < phases.len()
        invariant
            i <= phases@.len(),
            1 <= program@.len() <= i64::MAX,
            prog == program@.map_values(|w: Word| w.0),
            phase_vals == phases@.map_values(|w: Word| w.0),
            spec_chain(prog, phase_vals, input.0, max_steps as nat) == spec_chain(
                prog,
                phase_vals.skip(i as int),
                signal.0,
                max_steps as nat,
            ),
        decreases phases@.len() - i,
    {
        proof {
            assert(phase_vals.skip(i as int)[0] == phase_vals[i as int]);
            assert(phase_vals.skip(i as int).skip(1) =~= phase_vals.skip(i as int + 1));
        }
        let out = match run_amplifier(program, phases[i], signal, max_steps) {
            Ok(w) => w,
            Err(e) => {
                return Err(e);
            },
        };
        signal = out;
        i = i + 1;
    }
    proof {
        assert(phase_vals.skip(phases@.len() as int) =~= Seq::<i64>::empty());
    }
    Ok(signal)
}

/// Every ordering of a list of words, as the permutation generator yields
/// them.
pub uninterp spec fn perms_of(items: Seq<Word>) -> Seq<Seq<Word>>;

/// Relies on `itertools::Itertools::permutations`: with the item count as
/// the length it yields every rearrangement of the items exactly once, in
/// lexicographic order of source positions, so each yielded list carries
/// the same words as the input.
#[verifier::external_body]
fn permutations_of(items: &Vec<Word>) -> (r: Vec<Vec<Word>>)
    ensures
        r@.map_values(|p: Vec<Word>| p@) == perms_of(items@),
        forall|i: int|
            0 <= i < r@.len() ==> (#[trigger] r@[i])@.to_multiset() == items@.to_multiset(),
{
    items.iter().cloned().permutations(items.len()).collect()
}

/// The best signal over a list of phase orderings, fed through the
/// amplifier chain, later orderings winning ties; `None` when the list is
/// empty or any chain fails.
pub open spec fn spec_best_chain(
    program: Seq<i64>,
    perms: Seq<Seq<i64>>,
    input: i64,
    fuel: nat,
) -> Option<(i64, Seq<i64>)>
    decreases perms.len(),
{
    if perms.len() == 0 {
        None
    } else {
        match spec_chain(program, perms.last(), input, fuel) {
            None => None,
            Some(out) => match spec_best_chain(program, perms.drop_last(), input, fuel) {
                None => if perms.len() == 1 {
                    Some((out, perms.last()))
                } else {
                    None
                },
                Some((best, bphases)) => if best <= out {
                    Some((out, perms.last()))
                } else {
                    Some((best, bphases))
                },
            },
        }
    }
}

/// Try every ordering of the phases zero to four on the amplifier chain
/// and report the best signal and the ordering that produced it, later
/// orderings winning ties.
pub fn solve1(program: &[Word], input: Word, max_steps: u64) -> (r: Result<
    (Word, Vec<Word>),
    AmplifierError,
>)
    requires
        1 <= program@.len() <= i64::MAX,
    ensures
        ({
            let prog = program@.map_values(|w: Word| w.0);
            let candidates = perms_of(seq![Word(0), Word(1), Word(2), Word(3), Word(4)]).map_values(
                |p: Seq<Word>| p.map_values(|w: Word| w.0),
            );
            match r {
                Ok(best) => spec_best_chain(prog, candidates, input.0, max_steps as nat) == Some(
                    (best.0.0 as i64, best.1@.map_values(|w: Word| w.0)),
                ),
                Err(_) => spec_best_chain(prog, candidates, input.0, max_steps as nat) is None,
            }
        }),
{
    let mut phase_values: Vec<Word> = Vec::new();
    phase_values.push(Word(0));
    phase_values.push(Word(1));
    phase_values.push(Word(2));
    phase_values.push(Word(3));
    phase_values.push(Word(4));
    proof {
        assert(phase_values@ =~= seq![Word(0), Word(1), Word(2), Word(3), Word(4)]);
    }
    let perms = permutations_of(&phase_values);
    let ghost prog = program@.map_values(|w: Word| w.0);
    let ghost candidates = perms_of(phase_values@).map_values(
        |p: Seq<Word>| p.map_values(|w: Word| w.0),
    );
    let mut best: Option<(Word, Vec<Word>)> = None;
    let mut i: usize = 0;
    while i < perms.len()
        invariant
            i <= perms@.len(),
            1 <= program@.len() <= i64::MAX,
            prog == program@.map_values(|w: Word| w.0),
            phase_values@ == seq![Word(0), Word(1), Word(2), Word(3), Word(4)],
            candidates == perms_of(phase_values@).map_values(
                |p: Seq<Word>| p.map_values(|w: Word| w.0),
            ),
            perms@.map_values(|p: Vec<Word>| p@) == perms_of(phase_values@),
            candidates.len() == perms@.len(),
            forall|j: int|
                0 <= j < perms@.len() ==> (#[trigger] perms@[j])@.to_multiset()
                    == phase_values@.to_multiset(),
            match best {
                Some(b) => spec_best_chain(prog, candidates.take(i as int), input.0, max_steps as nat)
                    == Some((b.0.0 as i64, b.1@.map_values(|w: Word| w.0))),
                None => i == 0,
            },
        decreases perms@.len() - i,
    {
        proof {
            assert(candidates[i as int] == perms@[i as int]@.map_values(|w: Word| w.0));
        }
        if perms[i].len() < 1 {
            proof {
                perms@[i as int]@.to_multiset_ensures();
                phase_values@.to_multiset_ensures();
                assert(false);  // each ordering carries all five phases
            }
            return Err(AmplifierError::InvariantViolated(
                String::from_str("phase ordering should not be empty"),
            ));
        }
        let out = match run_amplifier_chain(program, perms[i].as_slice(), input, max_steps) {
            Ok(w) => w,
            Err(e) => {
                proof {
                    lemma_best_chain_none(prog, candidates, i as int, input.0, max_steps as nat);
                }
                return Err(e);
            },
        };
        let take_it = match &best {
            Some(b) => b.0.0 <= out.0,
            None => true,
        };
        proof {
            assert(candidates.take(i as int + 1).drop_last() =~= candidates.take(i as int));
            assert(candidates.take(i as int + 1).last() == candidates[i as int]);
        }
        if take_it {
            let phases_copy = vstd::slice::slice_to_vec(perms[i].as_slice());
            best = Some((out, phases_copy));
        } else {
            proof {
                assert(best is Some);
            }
        }
        i = i + 1;
    }
    proof {
        assert(candidates.take(candidates.len() as int) =~= candidates);
    }
    match best {
        Some(b) => Ok(b),
        None => Err(AmplifierError::InvariantViolated(
            String::from_str("no phase orderings were generated"),
        )),
    }
}

/// The last word a run emitted, if any.
pub open spec fn last_of(output: Seq<i64>) -> Option<Word> {
    if output.len() == 0 {
        None
    } else {
        Some(Word(output.last()))
    }
}

/// One amplifier in the feedback ring: a processor that keeps its state
/// between turns, plus whether it has halted.
pub struct Amplifier {
    cpu: Processor,
    running: bool,
}

impl Amplifier {
    /// The machine's semantic state.
    pub closed spec fn state(&self) -> MachineState {
        self.cpu@
    }

    /// Whether this amplifier has not yet executed a halt instruction.
    pub closed spec fn live(&self) -> bool {
        self.running
    }

    /// An amplifier with the program loaded and the machine at address
    /// zero.
    pub fn new(program: &[Word]) -> (r: Result<Amplifier, CpuFault>)
        requires
            1 <= program@.len() <= i64::MAX,
        ensures
            r matches Ok(amp) && amp.state() == initial_state(program@.map_values(|w: Word| w.0))
                && amp.live(),
    {
        let mut cpu = Processor::new(Word(0));
        match cpu.load(Word(0), program) {
            Ok(()) => (),
            Err(f) => {
                return Err(f);  // unreachable: base zero, length fits
            },
        }
        proof {
            lemma_load_block_round_trip(program@.map_values(|w: Word| w.0));
        }
        Ok(Amplifier { cpu, running: true })
    }

    /// Whether this amplifier has not yet halted.
    pub fn is_running(&self) -> (r: bool)
        ensures
            r == self.live(),
    {
        self.running
    }

    /// Give the amplifier one input word and let it run until it halts,
    /// starves for input (the cooperative yield), faults, or exhausts the
    /// step budget.  The last word it wrote in that time, if any, is
    /// handed back.  The run is exactly what `spec_run` prescribes for the
    /// machine's state with that one word on offer.
    pub fn run_until_output(&mut self, input: Word, max_steps: u64) -> (r: Result<
        Option<Word>,
        AmplifierError,
    >)
        ensures
            match spec_run(old(self).state(), seq![input.0], max_steps as nat) {
                SpecRun::Stopped { state, output, remaining } => {
                    &&& final(self).state() == state
                    &&& !final(self).live()
                    &&& r == Ok::<Option<Word>, AmplifierError>(last_of(output))
                },
                SpecRun::Running { state, output, remaining } => {
                    &&& final(self).state() == state
                    &&& final(self).live() == old(self).live()
                    &&& r matches Err(AmplifierError::InvariantViolated(_))
                },
                SpecRun::Crashed { fault, state, output, remaining } => {
                    &&& final(self).state() == state
                    &&& final(self).live() == old(self).live()
                    &&& if fault == CpuFault::IOError(InputOutputError::NoInput) {
                        r == Ok::<Option<Word>, AmplifierError>(last_of(output))
                    } else {
                        r == Err::<Option<Word>, AmplifierError>(AmplifierError::Cpu(fault))
                    }
                },
            },
    {
        let mut inputs: Vec<Word> = Vec::new();
        inputs.push(input);
        proof {
            assert(inputs@.map_values(|w: Word| w.0) =~= seq![input.0]);
        }
        let mut port = FixedInput::new(inputs);
        let mut output = OutputLog::new();
        let ghost run = spec_run(self.cpu@, seq![input.0], max_steps as nat);
        let outcome = self.cpu.run_with_io(&mut port, &mut output, max_steps);
        proof {
            match run {
                SpecRun::Stopped { output: out, .. } => {
                    assert(Seq::<i64>::empty() + out =~= out);
                },
                SpecRun::Running { output: out, .. } => {
                    assert(Seq::<i64>::empty() + out =~= out);
                },
                SpecRun::Crashed { output: out, .. } => {
                    assert(Seq::<i64>::empty() + out =~= out);
                },
            }
        }
        match outcome {
            Ok(CpuStatus::Halt) => {
                self.running = false;
                Ok(last_word(&output))
            },
            Ok(CpuStatus::Run) => Err(
                AmplifierError::InvariantViolated(
                    String::from_str("amplifier did not yield within the step budget"),
                ),
            ),
            Err(CpuFault::IOError(InputOutputError::NoInput)) => Ok(last_word(&output)),
            Err(e) => Err(AmplifierError::Cpu(e)),
        }
    }
}

/// The most recent word an output log accepted, if any.
fn last_word(output: &OutputLog) -> (r: Option<Word>)
    ensures
        r == last_of(output.sent()),
{
    let words = output.words();
    if words.len() == 0 {
        None
    } else {
        let w = words[words.len() - 1];
        proof {
            assert(output.sent().last() == words@.map_values(|x: Word| x.0)[words@.len() - 1]);
        }
        Some(w)
    }
}

/// Run the amplifiers as a feedback ring: each takes its phase first,
/// then whatever the previous amplifier last emitted, until every
/// amplifier has halted; the word left on the first wire is the answer.
/// Fails when a machine faults, when the ring starves, or when the round
/// budget runs out.
pub fn run_amplifier_loop(
    program: &[Word],
    phases: &[Word],
    first_input: Word,
    max_steps: u64,
    max_rounds: u64,
) -> (r: Result<Word, AmplifierError>)
    requires
        1 <= program@.len() <= i64::MAX,
        1 <= phases@.len() <= 1_000_000,
{
    let n = phases.len();
    let mut wires: Vec<Option<Word>> = Vec::new();
    let mut maybe_phases: Vec<Option<Word>> = Vec::new();
    let mut amplifiers: Vec<Amplifier> = Vec::new();
    let mut i: usize = 0;
    while i < n
        invariant
            i <= n,
            n == phases@.len(),
            1 <= program@.len() <= i64::MAX,
            wires@.len() == i,
            maybe_phases@.len() == i,
            amplifiers@.len() == i,
        decreases n - i,
    {
        wires.push(None);
        maybe_phases.push(Some(phases[i]));
        match Amplifier::new(program) {
            Ok(amp) => {
                amplifiers.push(amp);
            },
            Err(f) => {
                return Err(AmplifierError::Cpu(f));
            },
        }
        i = i + 1;
    }
    wires[0] = Some(first_input);
    let mut total_halted: usize = 0;
    let mut rounds: u64 = 0;
    while rounds < max_rounds
        invariant
            rounds <= max_rounds,
            n == phases@.len(),
            1 <= n,
            wires@.len() == n,
            maybe_phases@.len() == n,
            amplifiers@.len() == n,
            total_halted <= n,
        decreases max_rounds - rounds,
    {
        let mut i: usize = 0;
        while i < n
            invariant
                i <= n,
                n == phases@.len(),
                1 <= n,
                wires@.len() == n,
                maybe_phases@.len() == n,
                amplifiers@.len() == n,
                total_halted <= n,
            decreases n - i,
        {
            if amplifiers[i].is_running() {
                let input: Option<Word> = match maybe_phases[i] {
                    Some(phase) => {
                        maybe_phases[i] = None;
                        Some(phase)
                    },
                    None => {
                        let w = wires[i];
                        wires[i] = None;
                        w
                    },
                };
                match input {
                    Some(input) => {
                        let outcome = amplifiers[i].run_until_output(input, max_steps);
                        match outcome {
                            Ok(Some(output)) => {
                                let dest = if i + 1 == n {
                                    0
                                } else {
                                    i + 1
                                };
                                wires[dest] = Some(output);
                            },
                            Ok(None) => (),
                            Err(e) => {
                                return Err(e);
                            },
                        }
                        if !amplifiers[i].is_running() {
                            if total_halted < n {
                                total_halted = total_halted + 1;
                            }
                            if total_halted == n {
                                let thruster = wires[0];
                                match thruster {
                                    Some(w) => {
                                        return Ok(w);
                                    },
                                    None => {
                                        return Err(AmplifierError::InvariantViolated(
                                            String::from_str("no thruster input is available"),
                                        ));
                                    },
                                }
                            }
                        }
                    },
                    None => (),
                }
            }
            i = i + 1;
        }
        rounds = rounds + 1;
    }
    Err(AmplifierError::InvariantViolated(
        String::from_str("the amplifier ring did not settle within the round budget"),
    ))
}

/// Try every ordering of the phases five to nine on the feedback ring and
/// report the best thruster signal and the ordering that produced it,
/// later orderings winning ties.  Whatever ordering wins carries exactly
/// the phases five to nine.
pub fn solve2(program: &[Word], input: Word, max_steps: u64, max_rounds: u64) -> (r: Result<
    (Word, Vec<Word>),
    AmplifierError,
>)
    requires
        1 <= program@.len() <= i64::MAX,
    ensures
        r matches Ok(best) ==> best.1@.to_multiset() == seq![
            Word(5),
            Word(6),
            Word(7),
            Word(8),
            Word(9),
        ].to_multiset(),
{
    let mut phase_values: Vec<Word> = Vec::new();
    phase_values.push(Word(5));
    phase_values.push(Word(6));
    phase_values.push(Word(7));
    phase_values.push(Word(8));
    phase_values.push(Word(9));
    proof {
        assert(phase_values@ =~= seq![Word(5), Word(6), Word(7), Word(8), Word(9)]);
    }
    let perms = permutations_of(&phase_values);
    let mut best: Option<(Word, Vec<Word>)> = None;
    let mut i: usize = 0;
    while i < perms.len()
        invariant
            i <= perms@.len(),
            1 <= program@.len() <= i64::MAX,
            phase_values@ == seq![Word(5), Word(6), Word(7), Word(8), Word(9)],
            forall|j: int|
                0 <= j < perms@.len() ==> (#[trigger] perms@[j])@.to_multiset()
                    == phase_values@.to_multiset(),
            match best {
                Some(b) => b.1@.to_multiset() == phase_values@.to_multiset(),
                None => true,
            },
        decreases perms@.len() - i,
    {
        if perms[i].len() < 1 {
            proof {
                perms@[i as int]@.to_multiset_ensures();
                phase_values@.to_multiset_ensures();
                assert(false);  // each ordering carries all five phases
            }
            return Err(AmplifierError::InvariantViolated(
                String::from_str("phase ordering should not be empty"),
            ));
        }
        proof {
            perms@[i as int]@.to_multiset_ensures();
            phase_values@.to_multiset_ensures();
            assert(perms@[i as int]@.len() == 5);
        }
        let output = match run_amplifier_loop(
            program,
            perms[i].as_slice(),
            input,
            max_steps,
            max_rounds,
        ) {
            Ok(w) => w,
            Err(e) => {
                return Err(e);
            },
        };
        let take_it = match &best {
            Some(b) => b.0.0 <= output.0,
            None => true,
        };
        if take_it {
            let phases_copy = vstd::slice::slice_to_vec(perms[i].as_slice());
            best = Some((output, phases_copy));
        }
        i = i + 1;
    }
    match best {
        Some(b) => Ok(b),
        None => Err(AmplifierError::InvariantViolated(
            String::from_str("no phase orderings were generated"),
        )),
    }
}

/// A failed chain anywhere in the candidate list makes the whole search
/// fail.
proof fn lemma_best_chain_none(
    program: Seq<i64>,
    perms: Seq<Seq<i64>>,
    i: int,
    input: i64,
    fuel: nat,
)
    requires
        0 <= i < perms.len(),
        spec_chain(program, perms[i], input, fuel) is None,
    ensures
        spec_best_chain(program, perms, input, fuel) is None,
    decreases perms.len(),
{
    if perms.len() > 0 {
        if i == perms.len() - 1 {
        } else {
            assert(perms.drop_last()[i] == perms[i]);
            lemma_best_chain_none(program, perms.drop_last(), i, input, fuel);
        }
    }
}

} // verus!
