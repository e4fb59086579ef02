//! A small 8-bit virtual machine: fixed instruction set, 4096 bytes of
//! memory, two saturating timers, a monochrome XOR framebuffer and a
//! 16-key input port. The instruction execution engine is verified; the
//! host (window, audio, real keyboard) lives outside this crate.

use vstd::prelude::*;

pub mod cpu;
pub mod display;
pub mod input;
pub mod machine;
pub mod mem;

verus! {

/// The fatal conditions an executing program can run into. None of them is
/// recoverable: the host terminates the run and reports the condition.
#[derive(Clone, Copy, Debug, PartialEq, Eq, Structural)]
pub enum Chip8Error {
    /// A memory or framebuffer address fell outside the valid range.
    OutOfBounds,
    /// No opcode pattern matched the fetched instruction.
    IllegalInstruction,
    /// A subroutine call was made with the call stack already full.
    StackOverflow,
    /// A return was executed with the call stack empty.
    StackUnderflow,
}

} // verus!
