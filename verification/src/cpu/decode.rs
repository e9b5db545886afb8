//! Instruction decoding: a pure function from a raw instruction word to an
//! opcode plus one addressing mode per potential parameter slot.
//!
//! The low two decimal digits of the word select the opcode; the hundreds,
//! thousands and ten-thousands digits select the addressing modes of
//! parameter slots 1, 2 and 3.  Digit extraction follows the machine's
//! truncating division, so a negative instruction word yields a
//! non-positive opcode digit pair and never decodes.

use vstd::prelude::*;
use vstd::arithmetic::div_mod::{
    lemma_div_denominator, lemma_fundamental_div_mod_converse,
};

use crate::cpu::fault::{
    BadAddressingMode, BadInstruction, BadInstructionKind, BadOpcode,
};
use crate::cpu::word::Word;

verus! {

/// The number of parameter slots tracked per instruction (slot 0 is unused).
pub const NUM_PARAMS: usize = 4;

/// The ten operations of the machine.
#[derive(Debug, Clone, Copy, PartialEq, Eq, Structural)]
pub enum Opcode {
    Add,
    Multiply,
    Read,
    Write,
    JumpTrue,
    JumpFalse,
    CmpLess,
    CmpEq,
    DeltaRelBase,
    Stop,
}

/// How one parameter slot is interpreted.
#[derive(Debug, Copy, Clone, PartialEq, Eq, Structural)]
pub enum AddressingMode {
    POSITIONAL,
    IMMEDIATE,
    RELATIVE,
}

/// An instruction word split into its opcode and addressing modes.
#[derive(Debug, Clone, Copy, PartialEq, Eq)]
pub struct DecodedInstruction {
    pub op: Opcode,
    pub addressing_modes: [AddressingMode; 4],
}

/// Truncating (round-toward-zero) division by a positive divisor, as the
/// machine's division performs it.
pub open spec fn trunc_div(a: int, d: int) -> int
    recommends
        d > 0,
{
    if a >= 0 {
        a / d
    } else {
        -((-a) / d)
    }
}

/// Truncating remainder by a positive divisor: same sign as the dividend.
pub open spec fn trunc_mod(a: int, d: int) -> int
    recommends
        d > 0,
{
    if a >= 0 {
        a % d
    } else {
        -((-a) % d)
    }
}

/// The opcode digit pair of an instruction word.
pub open spec fn opcode_digits(w: int) -> int {
    trunc_mod(w, 100)
}

/// The addressing-mode digit of parameter slot `slot` (1, 2 or 3).
pub open spec fn mode_digit(w: int, slot: int) -> int
    recommends
        1 <= slot <= 3,
{
    let divisor = if slot == 1 {
        100
    } else if slot == 2 {
        1000
    } else {
        10000
    };
    trunc_mod(trunc_div(w, divisor), 10)
}

/// The operation selected by an opcode digit pair, if any.
pub open spec fn spec_opcode(code: int) -> Option<Opcode> {
    if code == 1 {
        Some(Opcode::Add)
    } else if code == 2 {
        Some(Opcode::Multiply)
    } else if code == 3 {
        Some(Opcode::Read)
    } else if code == 4 {
        Some(Opcode::Write)
    } else if code == 5 {
        Some(Opcode::JumpTrue)
    } else if code == 6 {
        Some(Opcode::JumpFalse)
    } else if code == 7 {
        Some(Opcode::CmpLess)
    } else if code == 8 {
        Some(Opcode::CmpEq)
    } else if code == 9 {
        Some(Opcode::DeltaRelBase)
    } else if code == 99 {
        Some(Opcode::Stop)
    } else {
        None
    }
}

/// The addressing mode selected by a mode digit, if any.
pub open spec fn spec_mode(digit: int) -> Option<AddressingMode> {
    if digit == 0 {
        Some(AddressingMode::POSITIONAL)
    } else if digit == 1 {
        Some(AddressingMode::IMMEDIATE)
    } else if digit == 2 {
        Some(AddressingMode::RELATIVE)
    } else {
        None
    }
}

/// The addressing modes of an instruction word, or the first bad digit,
/// checking slots in the order 1, 2, 3.  Slot 0 is never used and reads as
/// positional.
pub open spec fn spec_getmodes(w: int) -> Result<[AddressingMode; 4], BadAddressingMode> {
    if spec_mode(mode_digit(w, 1)) is None {
        Err(BadAddressingMode { mode: mode_digit(w, 1) as i64 })
    } else if spec_mode(mode_digit(w, 2)) is None {
        Err(BadAddressingMode { mode: mode_digit(w, 2) as i64 })
    } else if spec_mode(mode_digit(w, 3)) is None {
        Err(BadAddressingMode { mode: mode_digit(w, 3) as i64 })
    } else {
        Ok(
            [
                AddressingMode::POSITIONAL,
                spec_mode(mode_digit(w, 1)).unwrap(),
                spec_mode(mode_digit(w, 2)).unwrap(),
                spec_mode(mode_digit(w, 3)).unwrap(),
            ],
        )
    }
}

/// The decoding of one instruction word fetched at `pc`: the opcode is
/// checked first, then the mode digits.
pub open spec fn spec_decode(instruction: Word, pc: Word) -> Result<
    DecodedInstruction,
    BadInstruction,
> {
    match spec_opcode(opcode_digits(instruction.0 as int)) {
        None => Err(
            BadInstruction {
                kind: BadInstructionKind::BadOp(
                    BadOpcode { code: opcode_digits(instruction.0 as int) as i64 },
                ),
                instruction,
                address: Some(pc),
            },
        ),
        Some(op) => match spec_getmodes(instruction.0 as int) {
            Err(bad) => Err(
                BadInstruction {
                    kind: BadInstructionKind::BadAddrMode(bad),
                    instruction,
                    address: Some(pc),
                },
            ),
            Ok(addressing_modes) => Ok(DecodedInstruction { op, addressing_modes }),
        },
    }
}

/// The magnitude of a word, as a 64-bit unsigned value.
fn magnitude(w: i64) -> (m: u64)
    ensures
        w >= 0 ==> m == w as u64,
        w < 0 ==> m as int == -(w as int),
{
    if w >= 0 {
        w as u64
    } else if w == i64::MIN {
        9223372036854775808u64
    } else {
        (-w) as u64
    }
}

/// The decimal digit of `w` selected by dividing by `divisor` and keeping
/// the remainder of ten, under truncating division.
fn digit_at(w: i64, divisor: u64) -> (d: i64)
    requires
        divisor > 0,
    ensures
        d as int == trunc_mod(trunc_div(w as int, divisor as int), 10),
{
    let m = magnitude(w);
    let digit = ((m / divisor) % 10) as i64;
    if w >= 0 {
        digit
    } else {
        -digit
    }
}

impl Opcode {
    /// The operation named by the low two decimal digits of `instruction`,
    /// or the offending digit pair.
    pub fn from_word(instruction: &Word) -> (r: Result<Opcode, BadOpcode>)
        ensures
            match spec_opcode(opcode_digits(instruction.0 as int)) {
                Some(op) => r == Ok::<Opcode, BadOpcode>(op),
                None => r == Err::<Opcode, BadOpcode>(
                    BadOpcode { code: opcode_digits(instruction.0 as int) as i64 },
                ),
            },
    {
        let m = magnitude(instruction.0);
        let rem = (m % 100) as i64;
        let opcode = if instruction.0 >= 0 {
            rem
        } else {
            -rem
        };
        match opcode {
            1 => Ok(Opcode::Add),
            2 => Ok(Opcode::Multiply),
            3 => Ok(Opcode::Read),
            4 => Ok(Opcode::Write),
            5 => Ok(Opcode::JumpTrue),
            6 => Ok(Opcode::JumpFalse),
            7 => Ok(Opcode::CmpLess),
            8 => Ok(Opcode::CmpEq),
            9 => Ok(Opcode::DeltaRelBase),
            99 => Ok(Opcode::Stop),
            _ => Err(BadOpcode { code: opcode }),
        }
    }
}

impl AddressingMode {
    /// The addressing mode named by digit `d`, or the offending digit.
    pub fn from_digit(d: i64) -> (r: Result<AddressingMode, BadAddressingMode>)
        ensures
            match spec_mode(d as int) {
                Some(mode) => r == Ok::<AddressingMode, BadAddressingMode>(mode),
                None => r == Err::<AddressingMode, BadAddressingMode>(
                    BadAddressingMode { mode: d },
                ),
            },
    {
        match d {
            0 => Ok(AddressingMode::POSITIONAL),
            1 => Ok(AddressingMode::IMMEDIATE),
            2 => Ok(AddressingMode::RELATIVE),
            _ => Err(BadAddressingMode { mode: d }),
        }
    }
}

/// The addressing modes of the instruction word `m`, slot by slot.
pub fn getmodes(m: &i64) -> (r: Result<[AddressingMode; 4], BadAddressingMode>)
    ensures
        r == spec_getmodes(*m as int),
{
    let m1 = AddressingMode::from_digit(digit_at(*m, 100))?;
    let m2 = AddressingMode::from_digit(digit_at(*m, 1000))?;
    let m3 = AddressingMode::from_digit(digit_at(*m, 10000))?;
    Ok([AddressingMode::POSITIONAL, m1, m2, m3])
}

/// Decode the instruction word fetched at `pc`.  Decoding never mutates
/// state; an error records the offending word and the program counter.
pub fn decode(instruction: Word, pc: Word) -> (r: Result<DecodedInstruction, BadInstruction>)
    ensures
        r == spec_decode(instruction, pc),
{
    let op = match Opcode::from_word(&instruction) {
        Ok(op) => op,
        Err(bad) => {
            return Err(
                BadInstruction {
                    kind: BadInstructionKind::BadOp(bad),
                    instruction,
                    address: Some(pc),
                },
            );
        },
    };
    let addressing_modes = match getmodes(&instruction.0) {
        Ok(modes) => modes,
        Err(bad) => {
            return Err(
                BadInstruction {
                    kind: BadInstructionKind::BadAddrMode(bad),
                    instruction,
                    address: Some(pc),
                },
            );
        },
    };
    Ok(DecodedInstruction { op, addressing_modes })
}

/// The digit pair that encodes an opcode.
pub open spec fn opcode_code(op: Opcode) -> int {
    match op {
        Opcode::Add => 1,
        Opcode::Multiply => 2,
        Opcode::Read => 3,
        Opcode::Write => 4,
        Opcode::JumpTrue => 5,
        Opcode::JumpFalse => 6,
        Opcode::CmpLess => 7,
        Opcode::CmpEq => 8,
        Opcode::DeltaRelBase => 9,
        Opcode::Stop => 99,
    }
}

/// The digit that encodes an addressing mode.
pub open spec fn mode_code(m: AddressingMode) -> int {
    match m {
        AddressingMode::POSITIONAL => 0,
        AddressingMode::IMMEDIATE => 1,
        AddressingMode::RELATIVE => 2,
    }
}

/// Pack an opcode and three addressing modes into one instruction word.
pub fn encode(op: Opcode, m1: AddressingMode, m2: AddressingMode, m3: AddressingMode) -> (r: Word)
    ensures
        r.0 as int == opcode_code(op) + 100 * mode_code(m1) + 1000 * mode_code(m2) + 10000
            * mode_code(m3),
{
    let code: i64 = match op {
        Opcode::Add => 1,
        Opcode::Multiply => 2,
        Opcode::Read => 3,
        Opcode::Write => 4,
        Opcode::JumpTrue => 5,
        Opcode::JumpFalse => 6,
        Opcode::CmpLess => 7,
        Opcode::CmpEq => 8,
        Opcode::DeltaRelBase => 9,
        Opcode::Stop => 99,
    };
    let d1: i64 = match m1 {
        AddressingMode::POSITIONAL => 0,
        AddressingMode::IMMEDIATE => 1,
        AddressingMode::RELATIVE => 2,
    };
    let d2: i64 = match m2 {
        AddressingMode::POSITIONAL => 0,
        AddressingMode::IMMEDIATE => 1,
        AddressingMode::RELATIVE => 2,
    };
    let d3: i64 = match m3 {
        AddressingMode::POSITIONAL => 0,
        AddressingMode::IMMEDIATE => 1,
        AddressingMode::RELATIVE => 2,
    };
    Word(code + 100 * d1 + 1000 * d2 + 10000 * d3)
}

/// Addressing-mode round trip: packing any opcode and any three addressing
/// modes into an instruction word and decoding that word recovers exactly
/// the opcode and the modes.
pub proof fn lemma_encode_decode_roundtrip(
    op: Opcode,
    m1: AddressingMode,
    m2: AddressingMode,
    m3: AddressingMode,
    pc: Word,
)
    ensures
        spec_decode(
            Word(
                (opcode_code(op) + 100 * mode_code(m1) + 1000 * mode_code(m2) + 10000 * mode_code(
                    m3,
                )) as i64,
            ),
            pc,
        ) == Ok::<DecodedInstruction, BadInstruction>(
            DecodedInstruction {
                op,
                addressing_modes: [AddressingMode::POSITIONAL, m1, m2, m3],
            },
        ),
{
    let c = opcode_code(op);
    let d1 = mode_code(m1);
    let d2 = mode_code(m2);
    let d3 = mode_code(m3);
    let w = c + 100 * d1 + 1000 * d2 + 10000 * d3;
    let k = d1 + 10 * d2 + 100 * d3;
    assert(w == 100 * k + c);
    lemma_fundamental_div_mod_converse(w, 100, k, c);
    assert(w % 100 == c && w / 100 == k);
    lemma_fundamental_div_mod_converse(k, 10, d2 + 10 * d3, d1);
    assert(k % 10 == d1 && k / 10 == d2 + 10 * d3);
    lemma_div_denominator(w, 100, 10);
    assert(w / 1000 == k / 10);
    lemma_fundamental_div_mod_converse(d2 + 10 * d3, 10, d3, d2);
    assert((d2 + 10 * d3) % 10 == d2 && (d2 + 10 * d3) / 10 == d3);
    lemma_div_denominator(w, 1000, 10);
    assert(w / 10000 == (d2 + 10 * d3) / 10);
    lemma_fundamental_div_mod_converse(d3, 10, 0, d3);
    assert(d3 % 10 == d3);
    assert(opcode_digits(w) == c);
    assert(mode_digit(w, 1) == d1);
    assert(mode_digit(w, 2) == d2);
    assert(mode_digit(w, 3) == d3);
}

} // verus!
