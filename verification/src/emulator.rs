//! Architectural state of the machine: program counter, decoded instruction
//! fields, interpreter variant selection, keypad state, and the execution
//! engine that fetches, decodes and dispatches one instruction per step.

use vstd::prelude::*;

use crate::constants;
use crate::mem::cleared_fb;
use crate::mem::word_at;
use crate::mem::AddressStack;
use crate::mem::Ram;
use crate::mem::RamError;
use crate::mem::Register;
use crate::mem::Rom;
use crate::mem::StackEmptyError;
use crate::process;
use crate::process::advanced_pc;
use crate::process::draw_post;
use crate::process::loaded_registers;
use crate::process::shift_source;
use crate::process::stored_block;
use crate::process::ProcessingError;

verus! {

/// Selects between historically divergent opcode semantics.  The variant is
/// consulted by the shift, jump-with-offset and block-transfer operations.
#[derive(Debug, Clone, Copy, PartialEq, Eq, Structural)]
pub enum Interpreter {
    CosmacVIP,
    Chip48,
    SuperChip,
}

/// A cursor into memory.  Advancing and rewinding wrap modulo the memory
/// size; a jump may set any address, and an out-of-range address is caught
/// by the bounds-checked fetch.
#[derive(Debug, Clone, Copy, PartialEq, Eq, Structural)]
pub struct ProgramCounter(usize);

impl View for ProgramCounter {
    type V = usize;

    closed spec fn view(&self) -> usize {
        self.0
    }
}

impl ProgramCounter {
    pub fn new(address: usize) -> (pc: Self)
        ensures
            pc@ == address,
    {
        ProgramCounter(address)
    }

    pub fn inner(&self) -> (r: &usize)
        ensures
            *r == self@,
    {
        &self.0
    }

    /// Advance past one instruction, wrapping modulo the memory size.
    pub fn increment(&mut self)
        ensures
            final(self)@ == (old(self)@ + constants::INSTRUCTION_WIDTH) % (
            constants::TOTAL_RAM as int),
    {
        let base = self.0 % constants::TOTAL_RAM;
        proof {
            vstd::arithmetic::div_mod::lemma_add_mod_noop(
                old(self)@ as int,
                constants::INSTRUCTION_WIDTH as int,
                constants::TOTAL_RAM as int,
            );
            assert(constants::INSTRUCTION_WIDTH as int % (constants::TOTAL_RAM as int)
                == constants::INSTRUCTION_WIDTH as int);
        }
        self.0 = (base + constants::INSTRUCTION_WIDTH) % constants::TOTAL_RAM;
    }

    /// Rewind by exactly one instruction, wrapping modulo the memory size;
    /// used to re-execute a key-wait instruction on the next cycle.
    pub fn decrement(&mut self)
        ensures
            final(self)@ == (old(self)@ - constants::INSTRUCTION_WIDTH) % (
            constants::TOTAL_RAM as int),
    {
        let base = self.0 % constants::TOTAL_RAM;
        proof {
            vstd::arithmetic::div_mod::lemma_add_mod_noop(
                old(self)@ as int,
                constants::TOTAL_RAM - constants::INSTRUCTION_WIDTH,
                constants::TOTAL_RAM as int,
            );
            vstd::arithmetic::div_mod::lemma_mod_add_multiples_vanish(
                old(self)@ - constants::INSTRUCTION_WIDTH,
                constants::TOTAL_RAM as int,
            );
        }
        self.0 = (base + (constants::TOTAL_RAM - constants::INSTRUCTION_WIDTH))
            % constants::TOTAL_RAM;
    }

    /// Override the cursor with an absolute address.
    pub fn jump(&mut self, address: usize)
        ensures
            final(self)@ == address,
    {
        self.0 = address;
    }
}

/// The operand fields extracted from one 16-bit instruction word.
pub open spec fn spec_decode(op_code: u16) -> InstructionData {
    InstructionData {
        op_code,
        instruction: op_code & 0xF000,
        x: ((op_code & 0x0F00) >> 8) as u8,
        y: ((op_code & 0x00F0) >> 4) as u8,
        n: op_code & 0x000F,
        nn: (op_code & 0x00FF) as u8,
        nnn: op_code & 0x0FFF,
    }
}

/// One decoded instruction word: the family nibble, two register-index
/// operands, a 4-bit immediate, an 8-bit immediate and a 12-bit address.
#[derive(Debug, Clone, Copy, PartialEq, Eq, Structural)]
pub struct InstructionData {
    pub op_code: u16,
    pub instruction: u16,
    pub x: u8,
    pub y: u8,
    pub n: u16,
    pub nn: u8,
    pub nnn: u16,
}

impl InstructionData {
    /// Field extraction is a pure function of the instruction word: the same
    /// word always decodes to the same family, x, y, n, nn and nnn.
    pub fn decode(op_code: u16) -> (d: InstructionData)
        ensures
            d == spec_decode(op_code),
            d.x < 16,
            d.y < 16,
            d.n < 16,
            d.nnn < 0x1000,
    {
        proof {
            assert((op_code & 0x0F00) >> 8 < 16) by (bit_vector);
            assert((op_code & 0x00F0) >> 4 < 16) by (bit_vector);
            assert(op_code & 0x000F < 16) by (bit_vector);
            assert(op_code & 0x0FFF < 0x1000) by (bit_vector);
        }
        InstructionData {
            op_code,
            instruction: op_code & 0xF000,
            x: ((op_code & 0x0F00) >> 8) as u8,
            y: ((op_code & 0x00F0) >> 4) as u8,
            n: op_code & 0x000F,
            nn: (op_code & 0x00FF) as u8,
            nnn: op_code & 0x0FFF,
        }
    }
}

/// Decoding is deterministic: two decodings of the same word agree on every
/// field.
pub proof fn lemma_decode_deterministic(a: InstructionData, b: InstructionData, op_code: u16)
    requires
        a == spec_decode(op_code),
        b == spec_decode(op_code),
    ensures
        a == b,
{
}

/// Abstract 16-key state, supplied by the external keyboard collaborator:
/// which keys are currently held, and which key code, if any, was just
/// released.
pub struct KeyPad {
    held: Vec<bool>,
    released: Option<u8>,
}

impl KeyPad {
    /// Which keys are currently held, one entry per 4-bit key code.
    pub closed spec fn held_keys(&self) -> Seq<bool> {
        self.held@
    }

    /// The key code that was just released, if any.
    pub closed spec fn released_key(&self) -> Option<u8> {
        self.released
    }

    pub open spec fn wf(&self) -> bool {
        self.held_keys().len() == constants::REGISTER_COUNT
    }

    /// All keys up, no release pending.
    pub fn new() -> (k: KeyPad)
        ensures
            k.wf(),
            forall|i: int| 0 <= i < 16 ==> !k.held_keys()[i],
            k.released_key() is None,
    {
        let mut held: Vec<bool> = Vec::new();
        let mut i: usize = 0;
        while i < constants::REGISTER_COUNT
            invariant
                i <= constants::REGISTER_COUNT,
                held@.len() == i,
                forall|j: int| 0 <= j < i ==> !held@[j],
            decreases constants::REGISTER_COUNT - i,
        {
            held.push(false);
            i += 1;
        }
        KeyPad { held, released: None }
    }

    /// Record whether the named key is currently held.  A code outside the
    /// 16-key range is ignored.
    pub fn set_key(&mut self, key: u8, down: bool)
        requires
            old(self).wf(),
        ensures
            final(self).wf(),
            key < 16 ==> final(self).held_keys() == old(self).held_keys().update(
                key as int,
                down,
            ),
            key >= 16 ==> final(self).held_keys() == old(self).held_keys(),
            final(self).released_key() == old(self).released_key(),
    {
        if key < 16 {
            self.held[key as usize] = down;
        }
    }

    /// Record which key code, if any, was just released.
    pub fn set_released(&mut self, released: Option<u8>)
        ensures
            final(self).held_keys() == old(self).held_keys(),
            final(self).released_key() == released,
            old(self).wf() ==> final(self).wf(),
    {
        self.released = released;
    }

    /// The key code that was just released, if any.
    pub fn get_key_released(&self) -> (r: Option<u8>)
        ensures
            r == self.released_key(),
    {
        self.released
    }

    /// Whether the named 4-bit key code is currently held; a code outside
    /// the 16-key range is never held.
    pub fn is_key_pressed(&self, hex: u8) -> (r: bool)
        requires
            self.wf(),
        ensures
            r == (hex < 16 && self.held_keys()[hex as int]),
    {
        if hex < 16 {
            self.held[hex as usize]
        } else {
            false
        }
    }
}

/// Failure of one engine step, identifying the offending opcode or the
/// unreachable program-counter address.
#[derive(Debug, Clone, PartialEq, Eq, Structural)]
pub enum EmulatorError {
    OpError { source: ProcessingError, op_code: u16 },
    PCInvalid { pc: ProgramCounter, source: RamError },
    RenderingFailed { source: ProcessingError, op_code: u16 },
}

impl EmulatorError {
    /// Wrap an opcode failure, attributing a sprite-draw failure to
    /// rendering and every other failure to the opcode itself.
    pub fn from_processing_error(source: ProcessingError, op_code: u16) -> (r: EmulatorError)
        ensures
            op_code & 0xF000 == 0xD000 ==> r == (EmulatorError::RenderingFailed {
                source,
                op_code,
            }),
            op_code & 0xF000 != 0xD000 ==> r == (EmulatorError::OpError { source, op_code }),
    {
        if op_code & 0xF000 == 0xD000 {
            EmulatorError::RenderingFailed { source, op_code }
        } else {
            EmulatorError::OpError { source, op_code }
        }
    }
}

/// What one successful engine step reports to its caller: an unimplemented
/// opcode that was skipped, and the externally observable start-tone
/// transition of the sound timer.
#[derive(Debug, Clone, Copy, PartialEq, Eq, Structural)]
pub struct StepEvent {
    pub unknown_opcode: Option<u16>,
    pub start_tone: bool,
}

/// The mathematical state of the machine: every architectural component as
/// a plain value.
pub ghost struct EmuModel {
    pub interpreter: Interpreter,
    pub mem: Seq<u8>,
    pub pc: int,
    pub stack: Seq<u16>,
    pub regs: Seq<u8>,
    pub index: u16,
    pub delay: u8,
    pub sound: u8,
    pub held: Seq<bool>,
    pub released: Option<u8>,
    pub width: int,
    pub height: int,
}

/// A step that executed no instruction-specific effect.
pub open spec fn quiet_event() -> StepEvent {
    StepEvent { unknown_opcode: None, start_tone: false }
}

/// The effect of dispatching one decoded instruction on the post-fetch
/// state `pre` (the program counter already advanced past the instruction).
/// Mirrors the per-opcode contracts; an instruction matching no known
/// pattern changes nothing and is reported in the step event.
pub open spec fn exec_rel(
    pre: EmuModel,
    post: EmuModel,
    d: InstructionData,
    r: Result<StepEvent, EmulatorError>,
) -> bool {
    let x = d.x as int;
    let y = d.y as int;
    let vx = pre.regs[x];
    let vy = pre.regs[y];
    let flags = constants::FLAGS_REGISTER as int;
    if d.op_code == 0x0000 {
        post == pre && r == Ok::<StepEvent, EmulatorError>(quiet_event())
    } else if d.op_code == 0x00E0 {
        post == EmuModel { mem: cleared_fb(pre.mem), ..pre } && r == Ok::<
            StepEvent,
            EmulatorError,
        >(quiet_event())
    } else if d.op_code == 0x00EE {
        if pre.stack.len() > 0 {
            post == EmuModel {
                pc: pre.stack.last() as int,
                stack: pre.stack.drop_last(),
                ..pre
            } && r == Ok::<StepEvent, EmulatorError>(quiet_event())
        } else {
            post == pre && r == Err::<StepEvent, EmulatorError>(
                EmulatorError::OpError {
                    source: ProcessingError::JumpOutOfBounds { source: StackEmptyError },
                    op_code: d.op_code,
                },
            )
        }
    } else if d.instruction == 0x1000 {
        post == EmuModel { pc: d.nnn as int, ..pre } && r == Ok::<StepEvent, EmulatorError>(
            quiet_event(),
        )
    } else if d.instruction == 0x2000 {
        post == EmuModel {
            stack: pre.stack.push(pre.pc as u16),
            pc: d.nnn as int,
            ..pre
        } && r == Ok::<StepEvent, EmulatorError>(quiet_event())
    } else if d.instruction == 0x3000 {
        post == EmuModel {
            pc: if vx == d.nn {
                advanced_pc(pre.pc as usize)
            } else {
                pre.pc
            },
            ..pre
        } && r == Ok::<StepEvent, EmulatorError>(quiet_event())
    } else if d.instruction == 0x4000 {
        post == EmuModel {
            pc: if vx != d.nn {
                advanced_pc(pre.pc as usize)
            } else {
                pre.pc
            },
            ..pre
        } && r == Ok::<StepEvent, EmulatorError>(quiet_event())
    } else if d.instruction == 0x5000 {
        post == EmuModel {
            pc: if vx == vy {
                advanced_pc(pre.pc as usize)
            } else {
                pre.pc
            },
            ..pre
        } && r == Ok::<StepEvent, EmulatorError>(quiet_event())
    } else if d.instruction == 0x6000 {
        post == EmuModel { regs: pre.regs.update(x, d.nn), ..pre } && r == Ok::<
            StepEvent,
            EmulatorError,
        >(quiet_event())
    } else if d.instruction == 0x7000 {
        post == EmuModel { regs: pre.regs.update(x, ((vx + d.nn) % 256) as u8), ..pre } && r
            == Ok::<StepEvent, EmulatorError>(quiet_event())
    } else if d.instruction == 0x8000 && d.n == 0x0 {
        post == EmuModel { regs: pre.regs.update(x, vy), ..pre } && r == Ok::<
            StepEvent,
            EmulatorError,
        >(quiet_event())
    } else if d.instruction == 0x8000 && d.n == 0x1 {
        post == EmuModel { regs: pre.regs.update(x, vx | vy), ..pre } && r == Ok::<
            StepEvent,
            EmulatorError,
        >(quiet_event())
    } else if d.instruction == 0x8000 && d.n == 0x2 {
        post == EmuModel { regs: pre.regs.update(x, vx & vy), ..pre } && r == Ok::<
            StepEvent,
            EmulatorError,
        >(quiet_event())
    } else if d.instruction == 0x8000 && d.n == 0x3 {
        post == EmuModel { regs: pre.regs.update(x, vx ^ vy), ..pre } && r == Ok::<
            StepEvent,
            EmulatorError,
        >(quiet_event())
    } else if d.instruction == 0x8000 && d.n == 0x4 {
        post == EmuModel {
            regs: pre.regs.update(x, ((vx + vy) % 256) as u8).update(
                flags,
                if vx + vy > 255 {
                    1u8
                } else {
                    0u8
                },
            ),
            ..pre
        } && r == Ok::<StepEvent, EmulatorError>(quiet_event())
    } else if d.instruction == 0x8000 && d.n == 0x5 {
        post == EmuModel {
            regs: pre.regs.update(x, ((vx - vy) % 256) as u8).update(
                flags,
                if vx >= vy {
                    1u8
                } else {
                    0u8
                },
            ),
            ..pre
        } && r == Ok::<StepEvent, EmulatorError>(quiet_event())
    } else if d.instruction == 0x8000 && d.n == 0x6 {
        let src = shift_source(pre.interpreter, pre.regs, x, y);
        post == EmuModel {
            regs: pre.regs.update(x, (src / 2) as u8).update(flags, (src % 2) as u8),
            ..pre
        } && r == Ok::<StepEvent, EmulatorError>(quiet_event())
    } else if d.instruction == 0x8000 && d.n == 0x7 {
        post == EmuModel {
            regs: pre.regs.update(x, ((vy - vx) % 256) as u8).update(
                flags,
                if vy >= vx {
                    1u8
                } else {
                    0u8
                },
            ),
            ..pre
        } && r == Ok::<StepEvent, EmulatorError>(quiet_event())
    } else if d.instruction == 0x8000 && d.n == 0xE {
        let src = shift_source(pre.interpreter, pre.regs, x, y);
        post == EmuModel {
            regs: pre.regs.update(x, ((src * 2) % 256) as u8).update(
                flags,
                (src / 128) as u8,
            ),
            ..pre
        } && r == Ok::<StepEvent, EmulatorError>(quiet_event())
    } else if d.instruction == 0x9000 {
        post == EmuModel {
            pc: if vx != vy {
                advanced_pc(pre.pc as usize)
            } else {
                pre.pc
            },
            ..pre
        } && r == Ok::<StepEvent, EmulatorError>(quiet_event())
    } else if d.instruction == 0xA000 {
        post == EmuModel { index: d.nnn, ..pre } && r == Ok::<StepEvent, EmulatorError>(
            quiet_event(),
        )
    } else if d.instruction == 0xB000 {
        let offset = if pre.interpreter == Interpreter::CosmacVIP {
            pre.regs[0]
        } else {
            vx
        };
        post == EmuModel { pc: d.nnn + offset, ..pre } && r == Ok::<
            StepEvent,
            EmulatorError,
        >(quiet_event())
    } else if d.instruction == 0xC000 {
        &&& exists|b: u8| post.regs == pre.regs.update(x, b & d.nn)
        &&& post == EmuModel { regs: post.regs, ..pre }
        &&& r == Ok::<StepEvent, EmulatorError>(quiet_event())
    } else if d.instruction == 0xD000 {
        let ok = d.n == 0 || pre.index + d.n <= constants::TOTAL_RAM;
        let draw_err = ProcessingError::AddressOutOfBounds {
            source: RamError::InvalidAddress(
                if pre.index >= constants::TOTAL_RAM {
                    pre.index as usize
                } else {
                    constants::TOTAL_RAM
                },
            ),
        };
        let op_res: Result<(), ProcessingError> = if ok {
            Ok(())
        } else {
            Err(draw_err)
        };
        &&& draw_post(
            pre.mem,
            pre.regs,
            post.mem,
            post.regs,
            pre.index,
            pre.width,
            pre.height,
            x,
            y,
            d.n as int,
            op_res,
        )
        &&& post == EmuModel { mem: post.mem, regs: post.regs, ..pre }
        &&& r == (if ok {
            Ok::<StepEvent, EmulatorError>(quiet_event())
        } else {
            Err(
                EmulatorError::RenderingFailed { source: draw_err, op_code: d.op_code },
            )
        })
    } else if d.instruction == 0xE000 && d.op_code & 0xF0FF == 0xE09E {
        let pressed = vx < 16 && pre.held[vx as int];
        post == EmuModel {
            pc: if pressed {
                advanced_pc(pre.pc as usize)
            } else {
                pre.pc
            },
            ..pre
        } && r == Ok::<StepEvent, EmulatorError>(quiet_event())
    } else if d.instruction == 0xE000 && d.op_code & 0xF0FF == 0xE0A1 {
        let pressed = vx < 16 && pre.held[vx as int];
        post == EmuModel {
            pc: if !pressed {
                advanced_pc(pre.pc as usize)
            } else {
                pre.pc
            },
            ..pre
        } && r == Ok::<StepEvent, EmulatorError>(quiet_event())
    } else if d.instruction == 0xF000 && d.op_code & 0xF0FF == 0xF007 {
        post == EmuModel { regs: pre.regs.update(x, pre.delay), ..pre } && r == Ok::<
            StepEvent,
            EmulatorError,
        >(quiet_event())
    } else if d.instruction == 0xF000 && d.op_code & 0xF0FF == 0xF015 {
        post == EmuModel { delay: vx, ..pre } && r == Ok::<StepEvent, EmulatorError>(
            quiet_event(),
        )
    } else if d.instruction == 0xF000 && d.nn == 0x1E {
        post == EmuModel { index: ((pre.index + vx) % 0x10000) as u16, ..pre } && r == Ok::<
            StepEvent,
            EmulatorError,
        >(quiet_event())
    } else if d.instruction == 0xF000 && d.op_code & 0xF0FF == 0xF00A {
        match pre.released {
            Some(key) => post == EmuModel { regs: pre.regs.update(x, key), ..pre } && r
                == Ok::<StepEvent, EmulatorError>(quiet_event()),
            None => post == EmuModel {
                pc: (pre.pc - constants::INSTRUCTION_WIDTH) % (constants::TOTAL_RAM as int),
                ..pre
            } && r == Ok::<StepEvent, EmulatorError>(quiet_event()),
        }
    } else if d.instruction == 0xF000 && d.op_code & 0xF0FF == 0xF018 {
        post == EmuModel { sound: vx, ..pre } && r == Ok::<StepEvent, EmulatorError>(
            StepEvent { unknown_opcode: None, start_tone: pre.sound == 0 && vx != 0 },
        )
    } else if d.instruction == 0xF000 && d.op_code & 0xF0FF == 0xF029 {
        post == EmuModel { index: (constants::GLYPH_SIZE * vx) as u16, ..pre } && r == Ok::<
            StepEvent,
            EmulatorError,
        >(quiet_event())
    } else if d.instruction == 0xF000 && d.op_code & 0xF0FF == 0xF033 {
        let ok = pre.index + 2 < constants::TOTAL_RAM;
        &&& post == EmuModel {
            mem: if ok {
                pre.mem.update(pre.index + 2, (vx % 10) as u8).update(
                    pre.index + 1,
                    ((vx / 10) % 10) as u8,
                ).update(pre.index as int, (vx / 100) as u8)
            } else {
                pre.mem
            },
            ..pre
        }
        &&& r == (if ok {
            Ok::<StepEvent, EmulatorError>(quiet_event())
        } else {
            Err(
                EmulatorError::OpError {
                    source: ProcessingError::AddressOutOfBounds {
                        source: RamError::InvalidAddress((pre.index + 2) as usize),
                    },
                    op_code: d.op_code,
                },
            )
        })
    } else if d.instruction == 0xF000 && d.op_code & 0xF0FF == 0xF055 {
        let ok = pre.index + d.x < constants::TOTAL_RAM;
        &&& post == EmuModel {
            mem: stored_block(pre.mem, pre.regs, pre.index as int, x),
            index: if ok && pre.interpreter == Interpreter::CosmacVIP {
                ((pre.index + d.x + 1) % 0x10000) as u16
            } else {
                pre.index
            },
            ..pre
        }
        &&& r == (if ok {
            Ok::<StepEvent, EmulatorError>(quiet_event())
        } else {
            Err(
                EmulatorError::OpError {
                    source: ProcessingError::AddressOutOfBounds {
                        source: RamError::InvalidAddress(
                            if pre.index >= constants::TOTAL_RAM {
                                pre.index as usize
                            } else {
                                constants::TOTAL_RAM
                            },
                        ),
                    },
                    op_code: d.op_code,
                },
            )
        })
    } else if d.instruction == 0xF000 && d.op_code & 0xF0FF == 0xF065 {
        let ok = pre.index + d.x < constants::TOTAL_RAM;
        &&& post == EmuModel {
            regs: loaded_registers(pre.regs, pre.mem, pre.index as int, x),
            index: if ok && pre.interpreter == Interpreter::CosmacVIP {
                ((pre.index + d.x + 1) % 0x10000) as u16
            } else {
                pre.index
            },
            ..pre
        }
        &&& r == (if ok {
            Ok::<StepEvent, EmulatorError>(quiet_event())
        } else {
            Err(
                EmulatorError::OpError {
                    source: ProcessingError::AddressOutOfBounds {
                        source: RamError::InvalidAddress(
                            if pre.index >= constants::TOTAL_RAM {
                                pre.index as usize
                            } else {
                                constants::TOTAL_RAM
                            },
                        ),
                    },
                    op_code: d.op_code,
                },
            )
        })
    } else {
        post == pre && r == Ok::<StepEvent, EmulatorError>(
            StepEvent { unknown_opcode: Some(d.op_code), start_tone: false },
        )
    }
}

/// One full fetch/decode/dispatch cycle.  A fetch outside memory aborts the
/// step with a typed error and changes nothing; otherwise the program
/// counter advances past the fetched word and the decoded instruction takes
/// effect as `exec_rel` describes.
pub open spec fn step_rel(
    pre: EmuModel,
    post: EmuModel,
    r: Result<StepEvent, EmulatorError>,
) -> bool {
    if pre.pc + 1 >= constants::TOTAL_RAM {
        &&& post == pre
        &&& r matches Err(e) && e matches EmulatorError::PCInvalid { pc, source } && pc@
            == pre.pc && source == RamError::InvalidAddress(
            if pre.pc >= constants::TOTAL_RAM {
                pre.pc as usize
            } else {
                (pre.pc + 1) as usize
            },
        )
    } else {
        let word = word_at(pre.mem, pre.pc);
        let fetched = EmuModel { pc: advanced_pc(pre.pc as usize), ..pre };
        exec_rel(fetched, post, spec_decode(word), r)
    }
}

/// Stack round-trip: a subroutine call followed by a return restores the
/// program counter to exactly the instruction after the call, and leaves
/// the call stack as it was, whatever the call's target address and
/// whatever the machine did to the program counter while fetching the
/// return.  `pre` and `mid2` are the post-fetch states in which the call
/// and the return execute.
pub proof fn lemma_call_return_round_trip(
    pre: EmuModel,
    mid: EmuModel,
    mid2: EmuModel,
    post: EmuModel,
    d_call: InstructionData,
    d_ret: InstructionData,
)
    requires
        0 <= pre.pc < 0x10000,
        d_call.instruction == 0x2000,
        d_call.op_code != 0x0000,
        d_call.op_code != 0x00E0,
        d_call.op_code != 0x00EE,
        exec_rel(pre, mid, d_call, Ok(quiet_event())),
        mid2 == (EmuModel { pc: mid2.pc, ..mid }),
        d_ret.op_code == 0x00EE,
        exec_rel(mid2, post, d_ret, Ok(quiet_event())),
    ensures
        post.pc == pre.pc,
        post.stack == pre.stack,
{
    assert(mid.stack == pre.stack.push(pre.pc as u16));
    assert(mid2.stack.last() == pre.pc as u16);
    assert(post.stack =~= pre.stack);
}

/// The built-in font table: sixteen hexadecimal digit glyphs of five bytes
/// each, loaded at the base of memory.
pub open spec fn spec_font() -> Seq<u8> {
    seq![
        0xF0u8, 0x90, 0x90, 0x90, 0xF0, 0x20, 0x60, 0x20, 0x20, 0x70, 0xF0, 0x10, 0xF0,
        0x80, 0xF0, 0xF0, 0x10, 0xF0, 0x10, 0xF0, 0x90, 0x90, 0xF0, 0x10, 0x10, 0xF0,
        0x80, 0xF0, 0x10, 0xF0, 0xF0, 0x80, 0xF0, 0x90, 0xF0, 0xF0, 0x10, 0x20, 0x40,
        0x40, 0xF0, 0x90, 0xF0, 0x90, 0xF0, 0xF0, 0x90, 0xF0, 0x10, 0xF0, 0xF0, 0x90,
        0xF0, 0x90, 0x90, 0xE0, 0x90, 0xE0, 0x90, 0xE0, 0xF0, 0x80, 0x80, 0x80, 0xF0,
        0xE0, 0x90, 0x90, 0x90, 0xE0, 0xF0, 0x80, 0xF0, 0x80, 0xF0, 0xF0, 0x80, 0xF0,
        0x80, 0x80,
    ]
}

/// The font table as bytes.
fn font() -> (v: Vec<u8>)
    ensures
        v@ == spec_font(),
{
    let mut v: Vec<u8> = Vec::new();
    v.push(0xF0); v.push(0x90); v.push(0x90); v.push(0x90); v.push(0xF0);
    v.push(0x20); v.push(0x60); v.push(0x20); v.push(0x20); v.push(0x70);
    v.push(0xF0); v.push(0x10); v.push(0xF0); v.push(0x80); v.push(0xF0);
    v.push(0xF0); v.push(0x10); v.push(0xF0); v.push(0x10); v.push(0xF0);
    v.push(0x90); v.push(0x90); v.push(0xF0); v.push(0x10); v.push(0x10);
    v.push(0xF0); v.push(0x80); v.push(0xF0); v.push(0x10); v.push(0xF0);
    v.push(0xF0); v.push(0x80); v.push(0xF0); v.push(0x90); v.push(0xF0);
    v.push(0xF0); v.push(0x10); v.push(0x20); v.push(0x40); v.push(0x40);
    v.push(0xF0); v.push(0x90); v.push(0xF0); v.push(0x90); v.push(0xF0);
    v.push(0xF0); v.push(0x90); v.push(0xF0); v.push(0x10); v.push(0xF0);
    v.push(0xF0); v.push(0x90); v.push(0xF0); v.push(0x90); v.push(0x90);
    v.push(0xE0); v.push(0x90); v.push(0xE0); v.push(0x90); v.push(0xE0);
    v.push(0xF0); v.push(0x80); v.push(0x80); v.push(0x80); v.push(0xF0);
    v.push(0xE0); v.push(0x90); v.push(0x90); v.push(0x90); v.push(0xE0);
    v.push(0xF0); v.push(0x80); v.push(0xF0); v.push(0x80); v.push(0xF0);
    v.push(0xF0); v.push(0x80); v.push(0xF0); v.push(0x80); v.push(0x80);
    proof {
        assert(v@ =~= spec_font());
    }
    v
}

/// The execution engine: the architectural components and the interpreter
/// variant, stepped one instruction at a time by an external scheduler.
pub struct Emulator {
    interpreter: Interpreter,
    memory: Ram,
    pc: ProgramCounter,
    stack: AddressStack,
    register: Register,
    index_register: u16,
    delay_timer: u8,
    sound_timer: u8,
    keypad: KeyPad,
    window_size: (usize, usize),
}

impl View for Emulator {
    type V = EmuModel;

    closed spec fn view(&self) -> EmuModel {
        EmuModel {
            interpreter: self.interpreter,
            mem: self.memory@,
            pc: self.pc@ as int,
            stack: self.stack@,
            regs: self.register@,
            index: self.index_register,
            delay: self.delay_timer,
            sound: self.sound_timer,
            held: self.keypad.held_keys(),
            released: self.keypad.released_key(),
            width: self.window_size.0 as int,
            height: self.window_size.1 as int,
        }
    }
}

impl Emulator {
    pub open spec fn wf(&self) -> bool {
        &&& self@.mem.len() == constants::TOTAL_RAM
        &&& self@.regs.len() == constants::REGISTER_COUNT
        &&& self@.held.len() == constants::REGISTER_COUNT
        &&& 0 < self@.width
        &&& 0 < self@.height
        &&& self@.width * self@.height <= constants::FRAMEBUFFER_BITS
    }

    /// A fresh session: the font table and the program image laid out in
    /// memory, the program counter at the load offset, and everything else
    /// zeroed.  The display dimensions must fit the bit-packed framebuffer
    /// region.
    pub fn start(rom: Rom, window_size: (usize, usize)) -> (e: Self)
        requires
            rom.wf(),
            0 < window_size.0,
            0 < window_size.1,
            window_size.0 * window_size.1 <= constants::FRAMEBUFFER_BITS,
        ensures
            e.wf(),
            e@.interpreter == Interpreter::SuperChip,
            e@.pc == constants::MEMORY_OFFSET,
            e@.stack.len() == 0,
            forall|i: int| 0 <= i < 16 ==> e@.regs[i] == 0,
            e@.index == 0,
            e@.delay == 0,
            e@.sound == 0,
            forall|i: int| 0 <= i < 16 ==> !e@.held[i],
            e@.released is None,
            e@.width == window_size.0,
            e@.height == window_size.1,
            forall|i: int| 0 <= i < spec_font().len() ==> e@.mem[i] == spec_font()[i],
            forall|i: int|
                spec_font().len() <= i < constants::MEMORY_OFFSET ==> e@.mem[i] == 0,
            forall|i: int|
                0 <= i < rom@.len() ==> e@.mem[constants::MEMORY_OFFSET + i] == rom@[i],
            forall|i: int|
                constants::MEMORY_OFFSET + rom@.len() <= i < constants::TOTAL_RAM
                    ==> e@.mem[i] == 0,
    {
        let glyphs = font();
        let memory = Ram::load(rom, glyphs.as_slice());
        Emulator {
            interpreter: Interpreter::SuperChip,
            memory,
            pc: ProgramCounter::new(constants::MEMORY_OFFSET),
            stack: AddressStack::default(),
            register: Register::new(),
            index_register: 0,
            delay_timer: 0,
            sound_timer: 0,
            keypad: KeyPad::new(),
            window_size,
        }
    }

    /// Perform exactly one fetch/decode/dispatch cycle.
    pub fn run(&mut self) -> (r: Result<StepEvent, EmulatorError>)
        requires
            old(self).wf(),
        ensures
            final(self).wf(),
            step_rel(old(self)@, final(self)@, r),
    {
        let quiet = StepEvent { unknown_opcode: None, start_tone: false };
        let op_code = match self.memory.op_code(&self.pc) {
            Ok(w) => w,
            Err(e) => {
                let snapshot = self.pc.clone();
                return Err(EmulatorError::PCInvalid { pc: snapshot, source: e });
            },
        };
        self.pc.increment();
        proof {
            vstd::arithmetic::div_mod::lemma_mod_bound(
                old(self)@.pc + constants::INSTRUCTION_WIDTH,
                constants::TOTAL_RAM as int,
            );
        }
        let d = InstructionData::decode(op_code);
        let ghost fetched = EmuModel { pc: advanced_pc(old(self)@.pc as usize), ..old(self)@ };
        proof {
            assert(self@ == fetched);
        }
        if op_code == 0x0000 {
            Ok(quiet)
        } else if op_code == 0x00E0 {
            self.memory.reset_vram();
            proof {
                assert(self.memory@ =~= cleared_fb(fetched.mem));
            }
            Ok(quiet)
        } else if op_code == 0x00EE {
            proof {
                assert(0x00EEu16 & 0xF000 != 0xD000) by (bit_vector);
            }
            match process::op_00EE(&mut self.pc, &mut self.stack) {
                Ok(()) => Ok(quiet),
                Err(e) => Err(EmulatorError::from_processing_error(e, op_code)),
            }
        } else if d.instruction == 0x1000 {
            process::op_1NNN(&mut self.pc, d.nnn);
            Ok(quiet)
        } else if d.instruction == 0x2000 {
            proof {
                vstd::arithmetic::div_mod::lemma_small_mod(
                    fetched.pc as nat,
                    0x10000nat,
                );
            }
            process::op_2NNN(&mut self.stack, &mut self.pc, d.nnn);
            Ok(quiet)
        } else if d.instruction == 0x3000 {
            match process::op_3XNN(&self.register, d.x, d.nn, &mut self.pc) {
                Ok(()) => Ok(quiet),
                Err(e) => Err(EmulatorError::from_processing_error(e, op_code)),
            }
        } else if d.instruction == 0x4000 {
            match process::op_4XNN(&self.register, d.x, d.nn, &mut self.pc) {
                Ok(()) => Ok(quiet),
                Err(e) => Err(EmulatorError::from_processing_error(e, op_code)),
            }
        } else if d.instruction == 0x5000 {
            match process::op_5XNN(&self.register, d.x, d.y, &mut self.pc) {
                Ok(()) => Ok(quiet),
                Err(e) => Err(EmulatorError::from_processing_error(e, op_code)),
            }
        } else if d.instruction == 0x6000 {
            match process::op_6XNN(&mut self.register, d.x, d.nn) {
                Ok(()) => Ok(quiet),
                Err(e) => Err(EmulatorError::from_processing_error(e, op_code)),
            }
        } else if d.instruction == 0x7000 {
            match process::op_7XNN(&mut self.register, d.x, d.nn) {
                Ok(()) => Ok(quiet),
                Err(e) => Err(EmulatorError::from_processing_error(e, op_code)),
            }
        } else if d.instruction == 0x8000 && d.n == 0x0 {
            match process::op_8XY0(&mut self.register, d.x, d.y) {
                Ok(()) => Ok(quiet),
                Err(e) => Err(EmulatorError::from_processing_error(e, op_code)),
            }
        } else if d.instruction == 0x8000 && d.n == 0x1 {
            match process::op_8XY1(&mut self.register, d.x, d.y) {
                Ok(()) => Ok(quiet),
                Err(e) => Err(EmulatorError::from_processing_error(e, op_code)),
            }
        } else if d.instruction == 0x8000 && d.n == 0x2 {
            match process::op_8XY2(&mut self.register, d.x, d.y) {
                Ok(()) => Ok(quiet),
                Err(e) => Err(EmulatorError::from_processing_error(e, op_code)),
            }
        } else if d.instruction == 0x8000 && d.n == 0x3 {
            match process::op_8XY3(&mut self.register, d.x, d.y) {
                Ok(()) => Ok(quiet),
                Err(e) => Err(EmulatorError::from_processing_error(e, op_code)),
            }
        } else if d.instruction == 0x8000 && d.n == 0x4 {
            match process::op_8XY4(&mut self.register, d.x, d.y) {
                Ok(()) => Ok(quiet),
                Err(e) => Err(EmulatorError::from_processing_error(e, op_code)),
            }
        } else if d.instruction == 0x8000 && d.n == 0x5 {
            match process::op_8XY5(&mut self.register, d.x, d.y) {
                Ok(()) => Ok(quiet),
                Err(e) => Err(EmulatorError::from_processing_error(e, op_code)),
            }
        } else if d.instruction == 0x8000 && d.n == 0x6 {
            match process::op_8XY6(&self.interpreter, &mut self.register, d.x, d.y) {
                Ok(()) => Ok(quiet),
                Err(e) => Err(EmulatorError::from_processing_error(e, op_code)),
            }
        } else if d.instruction == 0x8000 && d.n == 0x7 {
            match process::op_8XY7(&mut self.register, d.x, d.y) {
                Ok(()) => Ok(quiet),
                Err(e) => Err(EmulatorError::from_processing_error(e, op_code)),
            }
        } else if d.instruction == 0x8000 && d.n == 0xE {
            match process::op_8XYE(&self.interpreter, &mut self.register, d.x, d.y) {
                Ok(()) => Ok(quiet),
                Err(e) => Err(EmulatorError::from_processing_error(e, op_code)),
            }
        } else if d.instruction == 0x9000 {
            match process::op_9XY0(&self.register, d.x, d.y, &mut self.pc) {
                Ok(()) => Ok(quiet),
                Err(e) => Err(EmulatorError::from_processing_error(e, op_code)),
            }
        } else if d.instruction == 0xA000 {
            process::op_ANNN(&mut self.index_register, d.nnn);
            Ok(quiet)
        } else if d.instruction == 0xB000 {
            match process::op_BNNN(
                &self.interpreter,
                &self.register,
                &mut self.pc,
                d.x,
                d.nnn,
            ) {
                Ok(()) => Ok(quiet),
                Err(e) => Err(EmulatorError::from_processing_error(e, op_code)),
            }
        } else if d.instruction == 0xC000 {
            match process::op_CXNN(&mut self.register, d.x, d.nn) {
                Ok(()) => Ok(quiet),
                Err(e) => Err(EmulatorError::from_processing_error(e, op_code)),
            }
        } else if d.instruction == 0xD000 {
            match process::DXYN(
                &mut self.memory,
                &mut self.register,
                self.index_register,
                &self.window_size,
                d,
            ) {
                Ok(()) => Ok(quiet),
                Err(e) => Err(EmulatorError::from_processing_error(e, op_code)),
            }
        } else if d.instruction == 0xE000 && op_code & 0xF0FF == 0xE09E {
            match process::op_EX9E(&self.register, &self.keypad, &mut self.pc, d.x) {
                Ok(()) => Ok(quiet),
                Err(e) => Err(EmulatorError::from_processing_error(e, op_code)),
            }
        } else if d.instruction == 0xE000 && op_code & 0xF0FF == 0xE0A1 {
            match process::op_EXA1(&self.register, &self.keypad, &mut self.pc, d.x) {
                Ok(()) => Ok(quiet),
                Err(e) => Err(EmulatorError::from_processing_error(e, op_code)),
            }
        } else if d.instruction == 0xF000 && op_code & 0xF0FF == 0xF007 {
            match process::op_FX07(&mut self.register, d.x, &self.delay_timer) {
                Ok(()) => Ok(quiet),
                Err(e) => Err(EmulatorError::from_processing_error(e, op_code)),
            }
        } else if d.instruction == 0xF000 && op_code & 0xF0FF == 0xF015 {
            match process::op_FX15(&mut self.register, d.x, &mut self.delay_timer) {
                Ok(()) => Ok(quiet),
                Err(e) => Err(EmulatorError::from_processing_error(e, op_code)),
            }
        } else if d.instruction == 0xF000 && d.nn == 0x1E {
            match process::op_FX1E(&self.register, d.x, &mut self.index_register) {
                Ok(()) => Ok(quiet),
                Err(e) => Err(EmulatorError::from_processing_error(e, op_code)),
            }
        } else if d.instruction == 0xF000 && op_code & 0xF0FF == 0xF00A {
            match process::op_FX0A(&mut self.register, &mut self.pc, &self.keypad, d.x) {
                Ok(()) => Ok(quiet),
                Err(e) => Err(EmulatorError::from_processing_error(e, op_code)),
            }
        } else if d.instruction == 0xF000 && op_code & 0xF0FF == 0xF018 {
            match process::op_FX18(&mut self.register, d.x, &mut self.sound_timer) {
                Ok(start_tone) => Ok(StepEvent { unknown_opcode: None, start_tone }),
                Err(e) => Err(EmulatorError::from_processing_error(e, op_code)),
            }
        } else if d.instruction == 0xF000 && op_code & 0xF0FF == 0xF029 {
            match process::op_FX29(&self.register, &mut self.index_register, d.x) {
                Ok(()) => Ok(quiet),
                Err(e) => Err(EmulatorError::from_processing_error(e, op_code)),
            }
        } else if d.instruction == 0xF000 && op_code & 0xF0FF == 0xF033 {
            match process::op_FX33(&self.register, &mut self.memory, d.x, self.index_register) {
                Ok(()) => Ok(quiet),
                Err(e) => Err(EmulatorError::from_processing_error(e, op_code)),
            }
        } else if d.instruction == 0xF000 && op_code & 0xF0FF == 0xF055 {
            match process::op_FX55(
                &self.interpreter,
                &self.register,
                &mut self.memory,
                &mut self.index_register,
                d.x,
            ) {
                Ok(()) => Ok(quiet),
                Err(e) => Err(EmulatorError::from_processing_error(e, op_code)),
            }
        } else if d.instruction == 0xF000 && op_code & 0xF0FF == 0xF065 {
            match process::op_FX65(
                &self.interpreter,
                &mut self.register,
                &self.memory,
                &mut self.index_register,
                d.x,
            ) {
                Ok(()) => Ok(quiet),
                Err(e) => Err(EmulatorError::from_processing_error(e, op_code)),
            }
        } else {
            Ok(StepEvent { unknown_opcode: Some(op_code), start_tone: false })
        }
    }

    /// Decrement the delay timer once, saturating at zero; called by the
    /// external scheduler on its fixed cadence.
    pub fn tick_delay(&mut self)
        ensures
            final(self)@ == (EmuModel {
                delay: if old(self)@.delay > 0 {
                    (old(self)@.delay - 1) as u8
                } else {
                    0u8
                },
                ..old(self)@
            }),
            old(self).wf() ==> final(self).wf(),
    {
        if self.delay_timer > 0 {
            self.delay_timer = self.delay_timer - 1;
        }
    }

    /// Decrement the sound timer once, saturating at zero, and report
    /// whether the external audio collaborator should stop any tone: the
    /// timer had already reached zero.
    pub fn beep(&mut self) -> (stop: bool)
        ensures
            final(self)@ == (EmuModel {
                sound: if old(self)@.sound > 0 {
                    (old(self)@.sound - 1) as u8
                } else {
                    0u8
                },
                ..old(self)@
            }),
            stop == (old(self)@.sound == 0),
            old(self).wf() ==> final(self).wf(),
    {
        if self.sound_timer > 0 {
            self.sound_timer = self.sound_timer - 1;
            false
        } else {
            true
        }
    }

    /// Select the interpreter variant whose quirk semantics the engine
    /// follows for the shift, jump-with-offset and block-transfer opcodes.
    pub fn set_interpreter(&mut self, interpreter: Interpreter)
        ensures
            final(self)@ == (EmuModel { interpreter, ..old(self)@ }),
            old(self).wf() ==> final(self).wf(),
    {
        self.interpreter = interpreter;
    }

    /// Hand the engine the keypad state that the external keyboard
    /// collaborator observed for this cycle.
    pub fn set_keypad(&mut self, keypad: KeyPad)
        requires
            keypad.wf(),
        ensures
            final(self)@ == (EmuModel {
                held: keypad.held_keys(),
                released: keypad.released_key(),
                ..old(self)@
            }),
            old(self).wf() ==> final(self).wf(),
    {
        self.keypad = keypad;
    }

    /// The current program counter address.
    pub fn program_counter(&self) -> (r: usize)
        ensures
            r == self@.pc,
    {
        *self.pc.inner()
    }

    /// The current value of the index register.
    pub fn index_value(&self) -> (r: u16)
        ensures
            r == self@.index,
    {
        self.index_register
    }

    /// The current value of the delay timer.
    pub fn delay_value(&self) -> (r: u8)
        ensures
            r == self@.delay,
    {
        self.delay_timer
    }

    /// The current value of the sound timer.
    pub fn sound_value(&self) -> (r: u8)
        ensures
            r == self@.sound,
    {
        self.sound_timer
    }

    /// The current value of one register.
    pub fn register_value(&self, x: u8) -> (r: Result<u8, crate::mem::RegisterError>)
        requires
            self.wf(),
        ensures
            x < 16 ==> r == Ok::<u8, crate::mem::RegisterError>(self@.regs[x as int]),
            x >= 16 ==> r is Err,
    {
        self.register.get(x)
    }

    /// Bounds-checked read of one memory byte.
    pub fn memory_value(&self, addr: usize) -> (r: Result<u8, RamError>)
        requires
            self.wf(),
        ensures
            addr < constants::TOTAL_RAM ==> r == Ok::<u8, RamError>(self@.mem[addr as int]),
            addr >= constants::TOTAL_RAM ==> r is Err,
    {
        self.memory.get(addr)
    }

    /// Read one display pixel: the framebuffer is authoritative for the
    /// external renderer.
    pub fn pixel(&self, x: usize, y: usize) -> (r: bool)
        requires
            self.wf(),
            x < self@.width,
            y < self@.height,
        ensures
            r == crate::mem::fb_bit(self@.mem, y * self@.width + x),
    {
        proof {
            assert(y * self@.width + x < self@.width * self@.height) by (nonlinear_arith)
                requires
                    0 <= x < self@.width,
                    0 <= y < self@.height,
            ;
        }
        self.memory.framebuffer_bit(y * self.window_size.0 + x)
    }
}

} // verus!
