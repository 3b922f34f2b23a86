//! A verified CHIP-8 virtual machine core.
//!
//! The engine interprets the classic CHIP-8 instruction set against a
//! 4096-byte memory, sixteen 8-bit registers, a 16-level call stack, two
//! timers and a 64x32 monochrome display.  Every operation is specified by
//! a contract and proved: instruction decoding, the per-opcode state
//! transition, sprite drawing with XOR compositing and collision
//! detection, and timer advance.
//!
//! The host drives the machine by loading program bytes, calling `step`
//! once per instruction, polling the draw flags, and ticking the timers at
//! its own fixed cadence.

use vstd::prelude::*;

pub mod memory;
pub mod display;
pub mod opcode;
pub mod state;
pub mod exec;
pub mod machine;

verus! {

/// Width of the display in pixels.
pub const DISPLAY_WIDTH: u16 = 64;

/// Height of the display in pixels.
pub const DISPLAY_HEIGHT: u16 = 32;

/// Number of pixels in the display buffer.
pub const DISPLAY_SIZE: u16 = 2048;

/// Number of bytes in the address space.
pub const MEMORY_SIZE: u16 = 4096;

/// Number of general-purpose registers.
pub const NUM_REGISTERS: u8 = 16;

/// Depth of the call stack: a hard architectural limit.
pub const STACK_DEPTH: u8 = 16;

/// Address at which programs are loaded and execution starts.
pub const PROGRAM_START: u16 = 0x200;

/// A fatal condition: execution cannot safely continue past any of these,
/// so they surface as an explicit error result rather than being masked by
/// silent wraparound.
#[derive(Clone, Copy, Debug, PartialEq, Eq, Structural)]
pub enum Chip8Error {
    /// A memory access (fetch, BCD store, register block transfer or
    /// sprite read) reached past the 4096-byte address space.
    MemoryOutOfBounds,
    /// A subroutine call was attempted with all 16 stack levels in use.
    StackOverflow,
    /// A return was attempted with an empty call stack.
    StackUnderflow,
}

} // verus!
