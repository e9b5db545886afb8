//! The processor's fault taxonomy.  Every fault aborts the step in which it
//! arises and is returned to the immediate caller; none is retried
//! internally.

use vstd::prelude::*;

use crate::cpu::word::Word;

verus! {

/// An addressing-mode digit that is not 0, 1 or 2.
#[derive(Debug, Copy, Clone, PartialEq, Eq, Structural)]
pub struct BadAddressingMode {
    pub mode: i64,
}

/// An opcode (the low two decimal digits of an instruction word) that names
/// no operation.
#[derive(Debug, Copy, Clone, PartialEq, Eq, Structural)]
pub struct BadOpcode {
    pub code: i64,
}

/// Why an instruction word failed to decode.
#[derive(Debug, Copy, Clone, PartialEq, Eq, Structural)]
pub enum BadInstructionKind {
    BadOp(BadOpcode),
    BadAddrMode(BadAddressingMode),
}

/// An instruction word that failed to decode, together with the program
/// counter at which it was fetched, when known.
#[derive(Debug, Copy, Clone, PartialEq, Eq)]
pub struct BadInstruction {
    pub kind: BadInstructionKind,
    pub instruction: Word,
    pub address: Option<Word>,
}

/// Errors reported by input and output ports.  `NoInput` doubles as the
/// cooperative "no input available yet" signal that lets an orchestrator
/// yield instead of crashing.
#[derive(Clone, Copy, Debug, PartialEq, Eq, Structural)]
pub enum InputOutputError {
    Unprintable(Word),
    NoInput,
}

/// A fatal condition for the current execution.
#[derive(Clone, Debug, PartialEq, Eq)]
pub enum CpuFault {
    /// Signed 64-bit arithmetic would wrap, in data arithmetic or in an
    /// address computation.
    Overflow,
    /// An instruction word failed to decode.
    InvalidInstruction(BadInstruction),
    /// An address used for fetch, store or load resolved to a negative value.
    MemoryFault,
    /// Immediate mode was used as a store target.
    AddressingModeNotValidInContext,
    /// An input port reported exhaustion or an output port rejected a value.
    IOError(InputOutputError),
    /// The trace sink could not be written.  The in-memory sink of
    /// `cpu::trace` cannot fail to append, so nothing in this library
    /// raises this variant; it stays in the taxonomy for callers that
    /// drive the processor against sinks of their own.
    TraceError(String),
}

} // verus!
