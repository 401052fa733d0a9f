//! A CHIP-8-style virtual-machine interpreter: an addressable memory image
//! with a bit-packed framebuffer region, sixteen 8-bit registers, a call
//! stack, two saturating timers, and a fetch/decode/dispatch engine whose
//! per-opcode state transitions are specified and verified.

pub mod constants;
pub mod emulator;
pub mod mem;
pub mod process;
