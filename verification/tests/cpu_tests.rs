use adventkit::cpu::decode::{decode, encode, AddressingMode, Opcode};
use adventkit::cpu::fault::{BadInstructionKind, CpuFault, InputOutputError};
use adventkit::cpu::memory::Memory;
use adventkit::cpu::ports::{FixedInput, NoInputPort, OutputLog};
use adventkit::cpu::processor::{CpuStatus, Processor};
use adventkit::cpu::program::{read_program_from_reader, ProgramLoadError};
use adventkit::cpu::trace::TraceLog;
use adventkit::cpu::word::Word;

const TEST_STEPS: u64 = 1_000_000;

fn assert_same(label: &str, expected: &[Word], got: &[Word]) {
    if !expected.is_empty() {
        for (i, (e, g)) in expected.iter().zip(got.iter()).enumerate() {
            if e != g {
                panic!(
                    "{} mismatch at location {}: expected {}, got {}",
                    label, i, e.0, g.0
                );
            }
        }
    }
}

fn check_program(program: &[i64], input: &[i64], expected_ram: &[i64], expected_output: &[i64]) {
    fn w(n: &i64) -> Word {
        Word(*n)
    }
    let w_program: Vec<Word> = program.iter().map(w).collect();
    let w_input: Vec<Word> = input.iter().map(w).collect();
    let w_expected_ram: Vec<Word> = expected_ram.iter().map(w).collect();
    let w_expected_output: Vec<Word> = expected_output.iter().map(w).collect();

    let mut cpu = Processor::new(Word(0));
    cpu.load(Word(0), &w_program)
        .expect("0 should be a valid load address");
    let mut output = OutputLog::new();
    let status = cpu
        .run_with_fixed_input(&w_input, &mut output, TEST_STEPS)
        .expect("test program should not fault");
    assert_eq!(status, CpuStatus::Halt);
    let ram = cpu.ram();
    assert_same("ram", &w_expected_ram, &ram);
    assert_same("output", &w_expected_output, output.words());
}

#[test]
fn lib_test_cpu() {
    fn check(program: &[i64], expected_memory: &[i64]) {
        check_program(program, &[], expected_memory, &[]);
    }

    check(&[1, 0, 0, 0, 99], &[2, 0, 0, 0, 99]);
    check(&[2, 3, 0, 3, 99], &[2, 3, 0, 6, 99]);
    check(&[2, 4, 4, 5, 99, 0], &[2, 4, 4, 5, 99, 9801]);
    check(
        &[1, 1, 1, 4, 99, 5, 6, 0, 99],
        &[30, 1, 1, 4, 2, 5, 6, 0, 99],
    );
}

#[test]
fn lib_test_quine() {
    let quine = &[
        109, 1, 204, -1, 1001, 100, 1, 100, 1008, 100, 16, 101, 1006, 101, 0, 99,
    ];
    check_program(quine, &[], quine, quine);
}

#[test]
fn mod_test_cpu() {
    fn check(program: &[i64], expected_memory: &[i64]) {
        check_program(program, &[], expected_memory, &[]);
    }

    check(&[1, 0, 0, 0, 99], &[2, 0, 0, 0, 99]);
    check(&[2, 3, 0, 3, 99], &[2, 3, 0, 6, 99]);
    check(&[2, 4, 4, 5, 99, 0], &[2, 4, 4, 5, 99, 9801]);
    check(
        &[1, 1, 1, 4, 99, 5, 6, 0, 99],
        &[30, 1, 1, 4, 2, 5, 6, 0, 99],
    );
}

#[test]
fn mod_test_quine() {
    let quine = &[
        109, 1, 204, -1, 1001, 100, 1, 100, 1008, 100, 16, 101, 1006, 101, 0, 99,
    ];
    check_program(quine, &[], quine, quine);
}

#[test]
fn read_one_value_and_echo_it() {
    // read one value, write it back, halt
    check_program(&[3, 0, 4, 0, 99], &[42], &[42, 0, 4, 0, 99], &[42]);
}

#[test]
fn comparison_and_jump_programs() {
    // is the input equal to 8? (positional mode)
    check_program(&[3, 9, 8, 9, 10, 9, 4, 9, 99, -1, 8], &[8], &[], &[1]);
    check_program(&[3, 9, 8, 9, 10, 9, 4, 9, 99, -1, 8], &[7], &[], &[0]);
    // is the input less than 8? (immediate mode)
    check_program(&[3, 3, 1107, -1, 8, 3, 4, 3, 99], &[3], &[], &[1]);
    check_program(&[3, 3, 1107, -1, 8, 3, 4, 3, 99], &[9], &[], &[0]);
    // jump tests: output 0 when the input was zero, 1 otherwise
    check_program(
        &[3, 12, 6, 12, 15, 1, 13, 14, 13, 4, 13, 99, -1, 0, 1, 9],
        &[0],
        &[],
        &[0],
    );
    check_program(
        &[3, 3, 1105, -1, 9, 1101, 0, 0, 12, 4, 12, 99, 1],
        &[5],
        &[],
        &[1],
    );
}

#[test]
fn relative_base_large_numbers() {
    // output the 16-digit number it computes
    check_program(
        &[1102, 34915192, 34915192, 7, 4, 7, 99, 0],
        &[],
        &[],
        &[1219070632396864],
    );
    // output the large number in the middle
    check_program(&[104, 1125899906842624, 99], &[], &[], &[1125899906842624]);
}

#[test]
fn load_then_dump_returns_the_program() {
    let program: Vec<Word> = [3, 225, 1, 225, 6, 6, 1100, 1, 238, 225]
        .iter()
        .map(|n| Word(*n))
        .collect();
    let mut cpu = Processor::new(Word(0));
    cpu.load(Word(0), &program).expect("load at base 0");
    assert_eq!(cpu.ram(), program);
}

#[test]
fn add_overflow_faults_instead_of_wrapping() {
    // add two words whose sum cannot be represented
    let program: Vec<Word> = [1101, i64::MAX, i64::MAX, 0, 99]
        .iter()
        .map(|n| Word(*n))
        .collect();
    let mut cpu = Processor::new(Word(0));
    cpu.load(Word(0), &program).expect("load at base 0");
    let mut output = OutputLog::new();
    let r = cpu.run_with_fixed_input(&[], &mut output, TEST_STEPS);
    assert_eq!(r, Err(CpuFault::Overflow));
}

#[test]
fn multiply_overflow_faults_instead_of_wrapping() {
    let program: Vec<Word> = [1102, i64::MAX, 2, 0, 99].iter().map(|n| Word(*n)).collect();
    let mut cpu = Processor::new(Word(0));
    cpu.load(Word(0), &program).expect("load at base 0");
    let mut output = OutputLog::new();
    let r = cpu.run_with_fixed_input(&[], &mut output, TEST_STEPS);
    assert_eq!(r, Err(CpuFault::Overflow));
}

#[test]
fn negative_addresses_fault() {
    let mut m = Memory::new();
    assert_eq!(m.fetch(Word(-1)), Err(CpuFault::MemoryFault));
    assert_eq!(m.store(Word(-1), Word(5)), Err(CpuFault::MemoryFault));
    assert_eq!(m.fetch(Word(7)), Ok(Word(0)));

    // a fetch through a negative positional operand faults
    let program: Vec<Word> = [4, -1, 99].iter().map(|n| Word(*n)).collect();
    let mut cpu = Processor::new(Word(0));
    cpu.load(Word(0), &program).expect("load at base 0");
    let mut output = OutputLog::new();
    let r = cpu.run_with_fixed_input(&[], &mut output, TEST_STEPS);
    assert_eq!(r, Err(CpuFault::MemoryFault));

    // a store through a negative positional operand faults too
    let program: Vec<Word> = [3, -1, 99].iter().map(|n| Word(*n)).collect();
    let mut cpu = Processor::new(Word(0));
    cpu.load(Word(0), &program).expect("load at base 0");
    let mut output = OutputLog::new();
    let r = cpu.run_with_fixed_input(&[Word(1)], &mut output, TEST_STEPS);
    assert_eq!(r, Err(CpuFault::MemoryFault));
}

#[test]
fn immediate_store_target_faults() {
    let program: Vec<Word> = [10001, 0, 0, 0, 99].iter().map(|n| Word(*n)).collect();
    let mut cpu = Processor::new(Word(0));
    cpu.load(Word(0), &program).expect("load at base 0");
    let mut output = OutputLog::new();
    let r = cpu.run_with_fixed_input(&[], &mut output, TEST_STEPS);
    assert_eq!(r, Err(CpuFault::AddressingModeNotValidInContext));
}

#[test]
fn exhausted_input_faults_with_no_input() {
    let program: Vec<Word> = [3, 0, 99].iter().map(|n| Word(*n)).collect();
    let mut cpu = Processor::new(Word(0));
    cpu.load(Word(0), &program).expect("load at base 0");
    let mut output = OutputLog::new();
    let r = cpu.run_with_fixed_input(&[], &mut output, TEST_STEPS);
    assert_eq!(r, Err(CpuFault::IOError(InputOutputError::NoInput)));
}

#[test]
fn bad_opcode_is_reported_with_its_digits() {
    let program: Vec<Word> = [98, 0, 0, 99].iter().map(|n| Word(*n)).collect();
    let mut cpu = Processor::new(Word(0));
    cpu.load(Word(0), &program).expect("load at base 0");
    let mut output = OutputLog::new();
    let r = cpu.run_with_fixed_input(&[], &mut output, TEST_STEPS);
    match r {
        Err(CpuFault::InvalidInstruction(bad)) => {
            assert_eq!(bad.instruction, Word(98));
            assert_eq!(bad.address, Some(Word(0)));
            match bad.kind {
                BadInstructionKind::BadOp(op) => assert_eq!(op.code, 98),
                other => panic!("expected a bad opcode, got {:?}", other),
            }
        }
        other => panic!("expected an invalid instruction fault, got {:?}", other),
    }
}

#[test]
fn bad_addressing_mode_is_reported_with_its_digit() {
    // opcode 1 with mode digit 3 in the hundreds place
    let r = decode(Word(301), Word(7));
    match r {
        Err(bad) => {
            assert_eq!(bad.instruction, Word(301));
            assert_eq!(bad.address, Some(Word(7)));
            match bad.kind {
                BadInstructionKind::BadAddrMode(m) => assert_eq!(m.mode, 3),
                other => panic!("expected a bad addressing mode, got {:?}", other),
            }
        }
        Ok(_) => panic!("expected mode digit 3 to be rejected"),
    }
}

#[test]
fn encode_then_decode_recovers_opcode_and_modes() {
    let ops = [
        Opcode::Add,
        Opcode::Multiply,
        Opcode::Read,
        Opcode::Write,
        Opcode::JumpTrue,
        Opcode::JumpFalse,
        Opcode::CmpLess,
        Opcode::CmpEq,
        Opcode::DeltaRelBase,
        Opcode::Stop,
    ];
    let modes = [
        AddressingMode::POSITIONAL,
        AddressingMode::IMMEDIATE,
        AddressingMode::RELATIVE,
    ];
    for op in ops.iter() {
        for m1 in modes.iter() {
            for m2 in modes.iter() {
                for m3 in modes.iter() {
                    let word = encode(*op, *m1, *m2, *m3);
                    let decoded = decode(word, Word(0)).expect("valid encodings decode");
                    assert_eq!(decoded.op, *op);
                    assert_eq!(decoded.addressing_modes[1], *m1);
                    assert_eq!(decoded.addressing_modes[2], *m2);
                    assert_eq!(decoded.addressing_modes[3], *m3);
                }
            }
        }
    }
    assert_eq!(
        encode(
            Opcode::Add,
            AddressingMode::POSITIONAL,
            AddressingMode::IMMEDIATE,
            AddressingMode::RELATIVE
        ),
        Word(21001)
    );
}

#[test]
fn fixed_input_run_matches_manual_step_loop() {
    // the same program and inputs, once through the driver and once
    // stepped by hand, end in the same outputs and memory
    let program: Vec<Word> = [3, 9, 8, 9, 10, 9, 4, 9, 99, -1, 8]
        .iter()
        .map(|n| Word(*n))
        .collect();

    let mut driver_cpu = Processor::new(Word(0));
    driver_cpu.load(Word(0), &program).expect("load at base 0");
    let mut driver_out = OutputLog::new();
    let status = driver_cpu
        .run_with_fixed_input(&[Word(8)], &mut driver_out, TEST_STEPS)
        .expect("program should not fault");
    assert_eq!(status, CpuStatus::Halt);

    let mut manual_cpu = Processor::new(Word(0));
    manual_cpu.load(Word(0), &program).expect("load at base 0");
    let mut manual_in = FixedInput::new(vec![Word(8)]);
    let mut manual_out = OutputLog::new();
    loop {
        match manual_cpu
            .execute_instruction(&mut manual_in, &mut manual_out)
            .expect("program should not fault")
        {
            CpuStatus::Run => (),
            CpuStatus::Halt => break,
        }
    }

    assert_eq!(driver_cpu.ram(), manual_cpu.ram());
    assert_eq!(driver_out.words(), manual_out.words());
}

#[test]
fn tracing_never_changes_what_runs() {
    let program: Vec<Word> = [1101, 2, 3, 0, 4, 0, 99].iter().map(|n| Word(*n)).collect();

    let mut plain = Processor::new(Word(0));
    plain.load(Word(0), &program).expect("load at base 0");
    let mut plain_out = OutputLog::new();
    plain
        .run_with_fixed_input(&[], &mut plain_out, TEST_STEPS)
        .expect("program should not fault");

    let mut traced = Processor::new(Word(0));
    traced.enable_tracing(TraceLog::new());
    traced.load(Word(0), &program).expect("load at base 0");
    let mut traced_out = OutputLog::new();
    traced
        .run_with_fixed_input(&[], &mut traced_out, TEST_STEPS)
        .expect("program should not fault");

    assert_eq!(plain.ram(), traced.ram());
    assert_eq!(plain_out.words(), traced_out.words());
    let log = traced.take_trace().expect("a sink was bound");
    let got: Vec<&str> = log.lines().iter().map(|l| l.as_str()).collect();
    let expected = vec![
        "0 @0: execute 1101",
        "1 @1: load 2",
        "2 @2: load 3",
        "3 @0: store 5",
        "4 @4: execute 4",
        "5 @0: load 5",
        "6 io-write:5",
        "7 @6: execute 99",
    ];
    assert_eq!(got, expected);
}

#[test]
fn set_pc_changes_where_execution_starts() {
    // starting two cells in, the machine sees "4,0 / 99" and echoes cell 0
    let program: Vec<Word> = [104, 7, 4, 0, 99].iter().map(|n| Word(*n)).collect();
    let mut cpu = Processor::new(Word(0));
    cpu.load(Word(0), &program).expect("load at base 0");
    cpu.set_pc(Word(2));
    let mut input = NoInputPort {};
    let mut output = OutputLog::new();
    let status = cpu
        .run_with_io(&mut input, &mut output, TEST_STEPS)
        .expect("program should not fault");
    assert_eq!(status, CpuStatus::Halt);
    assert_eq!(output.words(), &vec![Word(104)]);
}

#[test]
fn program_text_parses_to_words() {
    let words = read_program_from_reader("1,2,-3\n4,5\n").expect("valid program text");
    assert_eq!(
        words,
        vec![Word(1), Word(2), Word(-3), Word(4), Word(5)]
    );
    match read_program_from_reader("1,x,3") {
        Err(ProgramLoadError::BadWord(w)) => assert_eq!(w, "x"),
        other => panic!("expected a bad word, got {:?}", other),
    }
}
