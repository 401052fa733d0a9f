//! Fixed layout of the machine's address space.

use vstd::prelude::*;

verus! {

/// Total size of the addressable memory image, in bytes.
pub const TOTAL_RAM: usize = 0x1000;

/// Offset at which a loaded program image begins.
pub const MEMORY_OFFSET: usize = 0x200;

/// First byte of the bit-packed framebuffer region, which extends to the end
/// of memory.
pub const DISPLAY_START: usize = 0xF00;

/// Bytes available for a loaded program image, between the load offset and
/// the framebuffer region.
pub const AVAILABLE_RAM: usize = DISPLAY_START - MEMORY_OFFSET;

/// Number of pixel bits in the framebuffer region.
pub const FRAMEBUFFER_BITS: usize = (TOTAL_RAM - DISPLAY_START) * 8;

/// Size of one instruction word, in bytes.
pub const INSTRUCTION_WIDTH: usize = 2;

/// Number of general-purpose registers.
pub const REGISTER_COUNT: usize = 16;

/// Index of the implicit carry/flags register.
pub const FLAGS_REGISTER: usize = 15;

/// Size of one font glyph, in bytes.
pub const GLYPH_SIZE: usize = 5;

} // verus!
