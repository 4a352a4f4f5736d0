//! A verified CHIP-8 virtual machine: fetch, decode and execute of the
//! classic opcode set against an emulated machine state — memory,
//! registers, call stack, timers, framebuffer, keypad — advancing one
//! instruction per step.

use vstd::prelude::*;

pub mod model;
pub mod machine;
pub mod draw;
pub mod laws;

verus! {

/// The three failure kinds a machine operation can report: decoding met no
/// known opcode pattern, a memory or stack access fell outside its range, or
/// a keypad index was out of range.
#[derive(Clone, Copy, Debug, PartialEq, Eq, Structural)]
pub enum Chip8Error {
    UnknownOpcode,
    OutOfBounds,
    InvalidKey,
}

} // verus!
