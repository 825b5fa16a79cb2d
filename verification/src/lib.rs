use vstd::prelude::*;

pub mod chip;
pub mod fonts;

verus! {

/// Width of the display in pixels.
pub const CHIP8_WIDTH: usize = 64;

/// Height of the display in pixels.
pub const CHIP8_HEIGHT: usize = 32;

/// Total addressable memory in bytes.
pub const CHIP8_MEM: usize = 0x1000;

/// Base address at which a ROM is loaded; everything below is reserved
/// for the built-in font sprites.
pub const ROM_SIZE: usize = 0x200;

/// Size of one instruction in bytes.
pub const OPCODE_SIZE: u16 = 2;

/// Execution budget of one display frame, in microseconds (about 60 Hz).
pub const FRAME_TIME: isize = 16666;

/// Time cost charged to the budget per executed instruction, in
/// microseconds (about 540 instructions per second).
pub const OPCODE_TIME: isize = 1851;

} // verus!
