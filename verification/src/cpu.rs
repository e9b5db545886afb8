//! The processor: a virtual machine interpreting a small stack-free,
//! register-free instruction set over a flat addressable memory of words.

pub mod decode;
pub mod fault;
pub mod machine;
pub mod memory;
pub mod ports;
pub mod processor;
pub mod program;
pub mod trace;
pub mod word;
