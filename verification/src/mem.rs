//! Memory image, register file, program image and call stack, all with
//! bounds-checked access.

use vstd::prelude::*;

use crate::constants;
use crate::emulator::ProgramCounter;

verus! {

/// Failure of a bounds-checked memory access, naming the offending address.
#[derive(Debug, Clone, Copy, PartialEq, Eq, Structural)]
pub enum RamError {
    InvalidAddress(usize),
}

/// The instruction word stored at address `a`: high byte first.
pub open spec fn word_at(mem: Seq<u8>, a: int) -> u16
    recommends
        0 <= a,
        a + 1 < mem.len(),
{
    (((mem[a] as u16) << 8) | (mem[a + 1] as u16)) as u16
}

/// Bit `pos` of a byte, counted from the least significant bit.
pub open spec fn bit_of(b: u8, pos: u8) -> bool
    recommends
        pos < 8,
{
    (b >> pos) & 1 == 1
}

/// Framebuffer bit `b`: the framebuffer is the bit-packed region at the top
/// of memory, one bit per pixel, least-significant bit first within a byte.
pub open spec fn fb_bit(mem: Seq<u8>, b: int) -> bool
    recommends
        0 <= b < constants::FRAMEBUFFER_BITS,
        mem.len() == constants::TOTAL_RAM,
{
    bit_of(mem[constants::DISPLAY_START + b / 8], (b % 8) as u8)
}

/// The memory image with its framebuffer region zeroed and everything else
/// untouched.
pub open spec fn cleared_fb(mem: Seq<u8>) -> Seq<u8> {
    Seq::new(
        mem.len(),
        |j: int|
            if constants::DISPLAY_START <= j {
                0u8
            } else {
                mem[j]
            },
    )
}

/// The fixed-size addressable memory image, including the bit-packed
/// framebuffer region at its top.
pub struct Ram {
    memory: Vec<u8>,
}

impl View for Ram {
    type V = Seq<u8>;

    closed spec fn view(&self) -> Seq<u8> {
        self.memory@
    }
}

impl Ram {
    pub open spec fn wf(&self) -> bool {
        self@.len() == constants::TOTAL_RAM
    }

    /// Build the memory image: the font table at address zero, the program
    /// image at the load offset, and zeroes everywhere else.
    pub fn load(rom: Rom, font: &[u8]) -> (r: Self)
        requires
            rom.wf(),
            font@.len() <= constants::MEMORY_OFFSET,
        ensures
            r.wf(),
            forall|i: int| 0 <= i < font@.len() ==> r@[i] == font@[i],
            forall|i: int| font@.len() <= i < constants::MEMORY_OFFSET ==> r@[i] == 0,
            forall|i: int|
                0 <= i < rom@.len() ==> r@[constants::MEMORY_OFFSET + i] == rom@[i],
            forall|i: int|
                constants::MEMORY_OFFSET + rom@.len() <= i < constants::TOTAL_RAM
                    ==> r@[i] == 0,
    {
        let mut memory: Vec<u8> = Vec::new();
        let mut i: usize = 0;
        while i < constants::TOTAL_RAM
            invariant
                i <= constants::TOTAL_RAM,
                memory@.len() == i,
                forall|j: int| 0 <= j < i ==> memory@[j] == 0,
            decreases constants::TOTAL_RAM - i,
        {
            memory.push(0);
            i += 1;
        }
        let mut k: usize = 0;
        while k < font.len()
            invariant
                k <= font@.len(),
                font@.len() <= constants::MEMORY_OFFSET,
                memory@.len() == constants::TOTAL_RAM,
                forall|j: int| 0 <= j < k ==> memory@[j] == font@[j],
                forall|j: int| k <= j < constants::TOTAL_RAM ==> memory@[j] == 0,
            decreases font@.len() - k,
        {
            memory[k] = font[k];
            k += 1;
        }
        let data = rom.data();
        let mut p: usize = 0;
        while p < data.len()
            invariant
                p <= data@.len(),
                data@ == rom@,
                rom.wf(),
                font@.len() <= constants::MEMORY_OFFSET,
                memory@.len() == constants::TOTAL_RAM,
                forall|j: int| 0 <= j < font@.len() ==> memory@[j] == font@[j],
                forall|j: int|
                    font@.len() <= j < constants::MEMORY_OFFSET ==> memory@[j] == 0,
                forall|j: int|
                    0 <= j < p ==> memory@[constants::MEMORY_OFFSET + j] == data@[j],
                forall|j: int|
                    constants::MEMORY_OFFSET + p <= j < constants::TOTAL_RAM
                        ==> memory@[j] == 0,
            decreases data@.len() - p,
        {
            memory[constants::MEMORY_OFFSET + p] = data[p];
            p += 1;
        }
        Ram { memory }
    }

    /// Fetch the two-byte instruction word at the program counter, high byte
    /// first, failing if either byte is out of range.
    pub fn op_code(&self, pc: &ProgramCounter) -> (r: Result<u16, RamError>)
        requires
            self.wf(),
        ensures
            pc@ + 1 < constants::TOTAL_RAM ==> r == Ok::<u16, RamError>(
                word_at(self@, pc@ as int),
            ),
            pc@ + 1 >= constants::TOTAL_RAM ==> r == Err::<u16, RamError>(
                RamError::InvalidAddress(
                    if pc@ >= constants::TOTAL_RAM {
                        pc@
                    } else {
                        (pc@ + 1) as usize
                    },
                ),
            ),
    {
        let pc_val = *pc.inner();
        if pc_val >= constants::TOTAL_RAM {
            return Err(RamError::InvalidAddress(pc_val));
        }
        if pc_val + 1 >= constants::TOTAL_RAM {
            return Err(RamError::InvalidAddress(pc_val + 1));
        }
        let high = self.memory[pc_val] as u16;
        let low = self.memory[pc_val + 1] as u16;
        Ok((high << 8) | low)
    }

    /// Zero exactly the reserved framebuffer region.
    pub fn reset_vram(&mut self)
        requires
            old(self).wf(),
        ensures
            final(self).wf(),
            forall|i: int|
                constants::DISPLAY_START <= i < constants::TOTAL_RAM
                    ==> final(self)@[i] == 0,
            forall|i: int|
                0 <= i < constants::DISPLAY_START ==> final(self)@[i] == old(self)@[i],
    {
        let mut a: usize = constants::DISPLAY_START;
        while a < constants::TOTAL_RAM
            invariant
                constants::DISPLAY_START <= a <= constants::TOTAL_RAM,
                self@.len() == constants::TOTAL_RAM,
                forall|i: int| constants::DISPLAY_START <= i < a ==> self@[i] == 0,
                forall|i: int|
                    0 <= i < constants::DISPLAY_START ==> self@[i] == old(self)@[i],
                forall|i: int| a <= i < constants::TOTAL_RAM ==> self@[i] == old(self)@[i],
            decreases constants::TOTAL_RAM - a,
        {
            self.memory[a] = 0;
            a += 1;
        }
    }

    /// Read one framebuffer pixel bit: the immutable bit-addressable view
    /// of the display region, for the external renderer.
    pub fn framebuffer_bit(&self, b: usize) -> (r: bool)
        requires
            self.wf(),
            b < constants::FRAMEBUFFER_BITS,
        ensures
            r == fb_bit(self@, b as int),
    {
        proof {
            vstd::arithmetic::div_mod::lemma_fundamental_div_mod(b as int, 8);
            vstd::arithmetic::div_mod::lemma_mod_bound(b as int, 8);
        }
        let byte = self.memory[constants::DISPLAY_START + b / 8];
        let pos = (b % 8) as u8;
        ((byte >> pos) & 1) == 1
    }

    /// Bounds-checked read of one byte.
    pub fn get(&self, index: usize) -> (r: Result<u8, RamError>)
        requires
            self.wf(),
        ensures
            index < constants::TOTAL_RAM ==> r == Ok::<u8, RamError>(self@[index as int]),
            index >= constants::TOTAL_RAM ==> r == Err::<u8, RamError>(
                RamError::InvalidAddress(index),
            ),
    {
        if index < constants::TOTAL_RAM {
            Ok(self.memory[index])
        } else {
            Err(RamError::InvalidAddress(index))
        }
    }

    /// Bounds-checked write of one byte.
    pub fn set(&mut self, index: usize, val: u8) -> (r: Result<(), RamError>)
        requires
            old(self).wf(),
        ensures
            final(self).wf(),
            index < constants::TOTAL_RAM ==> r == Ok::<(), RamError>(()) && final(self)@
                == old(self)@.update(index as int, val),
            index >= constants::TOTAL_RAM ==> r == Err::<(), RamError>(
                RamError::InvalidAddress(index),
            ) && final(self)@ == old(self)@,
    {
        if index < constants::TOTAL_RAM {
            self.memory[index] = val;
            Ok(())
        } else {
            Err(RamError::InvalidAddress(index))
        }
    }
}

/// Failure of a register access, naming the offending register index.
#[derive(Debug, Clone, Copy, PartialEq, Eq, Structural)]
pub enum RegisterError {
    InvalidAddress(u8),
}

/// The sixteen general-purpose 8-bit registers, addressed by a 4-bit index.
/// Register 15 is the implicit carry/flags register.
pub struct Register {
    registers: Vec<u8>,
}

impl View for Register {
    type V = Seq<u8>;

    closed spec fn view(&self) -> Seq<u8> {
        self.registers@
    }
}

impl Register {
    pub open spec fn wf(&self) -> bool {
        self@.len() == constants::REGISTER_COUNT
    }

    /// All sixteen registers, zeroed.
    pub fn new() -> (r: Self)
        ensures
            r.wf(),
            forall|i: int| 0 <= i < 16 ==> r@[i] == 0,
    {
        let mut registers: Vec<u8> = Vec::new();
        let mut i: usize = 0;
        while i < constants::REGISTER_COUNT
            invariant
                i <= constants::REGISTER_COUNT,
                registers@.len() == i,
                forall|j: int| 0 <= j < i ==> registers@[j] == 0,
            decreases constants::REGISTER_COUNT - i,
        {
            registers.push(0);
            i += 1;
        }
        Register { registers }
    }

    /// Read a register, failing if the index is not below 16.
    pub fn get(&self, key: u8) -> (r: Result<u8, RegisterError>)
        requires
            self.wf(),
        ensures
            key < 16 ==> r == Ok::<u8, RegisterError>(self@[key as int]),
            key >= 16 ==> r == Err::<u8, RegisterError>(RegisterError::InvalidAddress(key)),
    {
        if key < 16 {
            Ok(self.registers[key as usize])
        } else {
            Err(RegisterError::InvalidAddress(key))
        }
    }

    /// Write a register, failing if the index is not below 16.
    pub fn set(&mut self, key: u8, val: u8) -> (r: Result<(), RegisterError>)
        requires
            old(self).wf(),
        ensures
            final(self).wf(),
            key < 16 ==> r == Ok::<(), RegisterError>(()) && final(self)@
                == old(self)@.update(key as int, val),
            key >= 16 ==> r == Err::<(), RegisterError>(RegisterError::InvalidAddress(key))
                && final(self)@ == old(self)@,
    {
        if key < 16 {
            self.registers[key as usize] = val;
            Ok(())
        } else {
            Err(RegisterError::InvalidAddress(key))
        }
    }

    /// Copy register `y` into register `x`; the source is read first, so an
    /// invalid source index is reported before an invalid destination index.
    pub fn set_x_y(&mut self, x: u8, y: u8) -> (r: Result<(), RegisterError>)
        requires
            old(self).wf(),
        ensures
            final(self).wf(),
            x < 16 && y < 16 ==> r == Ok::<(), RegisterError>(()) && final(self)@
                == old(self)@.update(x as int, old(self)@[y as int]),
            y >= 16 ==> r == Err::<(), RegisterError>(RegisterError::InvalidAddress(y))
                && final(self)@ == old(self)@,
            y < 16 && x >= 16 ==> r == Err::<(), RegisterError>(
                RegisterError::InvalidAddress(x),
            ) && final(self)@ == old(self)@,
    {
        let y_val = self.get(y)?;
        self.set(x, y_val)
    }

    /// Whether registers `x` and `y` hold equal values.
    pub fn cmp_registers(&self, x: u8, y: u8) -> (r: Result<bool, RegisterError>)
        requires
            self.wf(),
        ensures
            x < 16 && y < 16 ==> r == Ok::<bool, RegisterError>(
                self@[x as int] == self@[y as int],
            ),
            x >= 16 ==> r == Err::<bool, RegisterError>(RegisterError::InvalidAddress(x)),
            x < 16 && y >= 16 ==> r == Err::<bool, RegisterError>(
                RegisterError::InvalidAddress(y),
            ),
    {
        let x_val = self.get(x)?;
        let y_val = self.get(y)?;
        Ok(x_val == y_val)
    }
}

/// Failure to load a program image larger than the available memory,
/// reporting both the offered length and the capacity.
#[derive(Debug, Clone, Copy, PartialEq, Eq, Structural)]
pub enum RomError {
    OutOfMemory { rom_size: usize, ram_size: usize },
}

/// A program image: a flat byte sequence that fits the memory available
/// past the load offset.
pub struct Rom {
    data: Vec<u8>,
}

impl View for Rom {
    type V = Seq<u8>;

    closed spec fn view(&self) -> Seq<u8> {
        self.data@
    }
}

impl Rom {
    pub open spec fn wf(&self) -> bool {
        self@.len() <= constants::AVAILABLE_RAM
    }

    /// Accept a raw byte sequence as the program image, rejecting one longer
    /// than the memory available past the load offset.
    pub fn load(data: Vec<u8>) -> (r: Result<Self, RomError>)
        ensures
            data@.len() <= constants::AVAILABLE_RAM ==> (r matches Ok(rom) && rom@ == data@
                && rom.wf()),
            data@.len() > constants::AVAILABLE_RAM ==> r == Err::<Self, RomError>(
                RomError::OutOfMemory {
                    rom_size: data@.len() as usize,
                    ram_size: constants::AVAILABLE_RAM,
                },
            ),
    {
        if data.len() > constants::AVAILABLE_RAM {
            Err(RomError::OutOfMemory {
                rom_size: data.len(),
                ram_size: constants::AVAILABLE_RAM,
            })
        } else {
            Ok(Rom { data })
        }
    }

    pub fn len(&self) -> (r: usize)
        ensures
            r == self@.len(),
    {
        self.data.len()
    }

    pub fn data(&self) -> (r: &Vec<u8>)
        ensures
            r@ == self@,
    {
        &self.data
    }
}

/// Return with an empty call stack.
#[derive(Debug, Clone, Copy, PartialEq, Eq, Structural)]
pub struct StackEmptyError;

/// The return-address stack used by subroutine call and return.
pub struct AddressStack(Vec<u16>);

impl View for AddressStack {
    type V = Seq<u16>;

    closed spec fn view(&self) -> Seq<u16> {
        self.0@
    }
}

impl Default for AddressStack {
    /// An empty call stack.
    fn default() -> (r: Self)
        ensures
            r@.len() == 0,
    {
        AddressStack(Vec::new())
    }
}

impl AddressStack {
    /// Pop the most recently pushed return address; popping an empty stack
    /// is a failure, not a silent zero.
    pub fn pop(&mut self) -> (r: Result<u16, StackEmptyError>)
        ensures
            old(self)@.len() > 0 ==> r == Ok::<u16, StackEmptyError>(old(self)@.last())
                && final(self)@ == old(self)@.drop_last(),
            old(self)@.len() == 0 ==> r == Err::<u16, StackEmptyError>(StackEmptyError)
                && final(self)@ == old(self)@,
    {
        match self.0.pop() {
            Some(val) => Ok(val),
            None => Err(StackEmptyError),
        }
    }

    /// Push a return address.
    pub fn push(&mut self, val: u16)
        ensures
            final(self)@ == old(self)@.push(val),
    {
        self.0.push(val);
    }
}

} // verus!
