#![allow(non_snake_case)]
//! Per-opcode state transitions.  Each handler mutates the architectural
//! components it names and reports a typed failure for an invalid register
//! index, an out-of-range address, or a return on an empty stack.

use vstd::prelude::*;

use crate::constants;
use crate::emulator::Interpreter;
use crate::emulator::KeyPad;
use crate::emulator::ProgramCounter;
use crate::emulator::InstructionData;
use crate::mem::bit_of;
use crate::mem::fb_bit;
use crate::mem::AddressStack;
use crate::mem::Ram;
use crate::mem::RamError;
use crate::mem::Register;
use crate::mem::RegisterError;
use crate::mem::StackEmptyError;

verus! {

/// Failure of one opcode's execution.
#[derive(Debug, Clone, Copy, PartialEq, Eq, Structural)]
pub enum ProcessingError {
    RegisterError { source: RegisterError },
    JumpOutOfBounds { source: StackEmptyError },
    AddressOutOfBounds { source: RamError },
}

/// The program counter advanced past one instruction, wrapping modulo the
/// memory size.
pub open spec fn advanced_pc(pc: usize) -> int {
    (pc + constants::INSTRUCTION_WIDTH) % (constants::TOTAL_RAM as int)
}

/// Read a register, wrapping an invalid index into an opcode failure.
fn get_reg(register: &Register, key: u8) -> (r: Result<u8, ProcessingError>)
    requires
        register.wf(),
    ensures
        key < 16 ==> r == Ok::<u8, ProcessingError>(register@[key as int]),
        key >= 16 ==> r == Err::<u8, ProcessingError>(
            ProcessingError::RegisterError { source: RegisterError::InvalidAddress(key) },
        ),
{
    match register.get(key) {
        Ok(v) => Ok(v),
        Err(e) => Err(ProcessingError::RegisterError { source: e }),
    }
}

/// Write a register, wrapping an invalid index into an opcode failure.
fn set_reg(register: &mut Register, key: u8, val: u8) -> (r: Result<(), ProcessingError>)
    requires
        old(register).wf(),
    ensures
        final(register).wf(),
        key < 16 ==> r == Ok::<(), ProcessingError>(()) && final(register)@
            == old(register)@.update(key as int, val),
        key >= 16 ==> r == Err::<(), ProcessingError>(
            ProcessingError::RegisterError { source: RegisterError::InvalidAddress(key) },
        ) && final(register)@ == old(register)@,
{
    match register.set(key, val) {
        Ok(()) => Ok(()),
        Err(e) => Err(ProcessingError::RegisterError { source: e }),
    }
}

/// Return from a subroutine: pop a return address and jump to it, failing
/// if the call stack is empty.
pub fn op_00EE(pc: &mut ProgramCounter, stack: &mut AddressStack) -> (r: Result<
    (),
    ProcessingError,
>)
    ensures
        old(stack)@.len() > 0 ==> r == Ok::<(), ProcessingError>(()) && final(pc)@
            == old(stack)@.last() && final(stack)@ == old(stack)@.drop_last(),
        old(stack)@.len() == 0 ==> r == Err::<(), ProcessingError>(
            ProcessingError::JumpOutOfBounds { source: StackEmptyError },
        ) && final(pc)@ == old(pc)@ && final(stack)@ == old(stack)@,
{
    match stack.pop() {
        Ok(addr) => {
            pc.jump(addr as usize);
            Ok(())
        },
        Err(e) => Err(ProcessingError::JumpOutOfBounds { source: e }),
    }
}

/// Unconditional jump to an absolute address.
pub fn op_1NNN(pc: &mut ProgramCounter, nnn: u16)
    ensures
        final(pc)@ == nnn,
{
    pc.jump(nnn as usize);
}

/// Call a subroutine: push the address of the next instruction, then jump.
pub fn op_2NNN(stack: &mut AddressStack, pc: &mut ProgramCounter, nnn: u16)
    requires
        old(pc)@ < 0x10000,
    ensures
        final(stack)@ == old(stack)@.push(old(pc)@ as u16),
        final(pc)@ == nnn,
{
    let ret = *pc.inner();
    stack.push(ret as u16);
    pc.jump(nnn as usize);
}

/// Skip the next instruction if register `x` equals the immediate.
pub fn op_3XNN(register: &Register, x: u8, nn: u8, pc: &mut ProgramCounter) -> (r: Result<
    (),
    ProcessingError,
>)
    requires
        register.wf(),
    ensures
        x < 16 ==> r == Ok::<(), ProcessingError>(()) && final(pc)@ == (
        if register@[x as int] == nn {
            advanced_pc(old(pc)@)
        } else {
            old(pc)@ as int
        }),
        x >= 16 ==> r == Err::<(), ProcessingError>(
            ProcessingError::RegisterError { source: RegisterError::InvalidAddress(x) },
        ) && final(pc)@ == old(pc)@,
{
    let vx = get_reg(register, x)?;
    if vx == nn {
        pc.increment();
    }
    Ok(())
}

/// Skip the next instruction if register `x` differs from the immediate.
pub fn op_4XNN(register: &Register, x: u8, nn: u8, pc: &mut ProgramCounter) -> (r: Result<
    (),
    ProcessingError,
>)
    requires
        register.wf(),
    ensures
        x < 16 ==> r == Ok::<(), ProcessingError>(()) && final(pc)@ == (
        if register@[x as int] != nn {
            advanced_pc(old(pc)@)
        } else {
            old(pc)@ as int
        }),
        x >= 16 ==> r == Err::<(), ProcessingError>(
            ProcessingError::RegisterError { source: RegisterError::InvalidAddress(x) },
        ) && final(pc)@ == old(pc)@,
{
    let vx = get_reg(register, x)?;
    if vx != nn {
        pc.increment();
    }
    Ok(())
}

/// Skip the next instruction if registers `x` and `y` hold equal values.
pub fn op_5XNN(register: &Register, x: u8, y: u8, pc: &mut ProgramCounter) -> (r: Result<
    (),
    ProcessingError,
>)
    requires
        register.wf(),
    ensures
        x < 16 && y < 16 ==> r == Ok::<(), ProcessingError>(()) && final(pc)@ == (
        if register@[x as int] == register@[y as int] {
            advanced_pc(old(pc)@)
        } else {
            old(pc)@ as int
        }),
        x >= 16 ==> r == Err::<(), ProcessingError>(
            ProcessingError::RegisterError { source: RegisterError::InvalidAddress(x) },
        ) && final(pc)@ == old(pc)@,
        x < 16 && y >= 16 ==> r == Err::<(), ProcessingError>(
            ProcessingError::RegisterError { source: RegisterError::InvalidAddress(y) },
        ) && final(pc)@ == old(pc)@,
{
    let equal = match register.cmp_registers(x, y) {
        Ok(b) => b,
        Err(e) => {
            return Err(ProcessingError::RegisterError { source: e });
        },
    };
    if equal {
        pc.increment();
    }
    Ok(())
}

/// Load an immediate into register `x`.
pub fn op_6XNN(register: &mut Register, x: u8, nn: u8) -> (r: Result<(), ProcessingError>)
    requires
        old(register).wf(),
    ensures
        final(register).wf(),
        x < 16 ==> r == Ok::<(), ProcessingError>(()) && final(register)@
            == old(register)@.update(x as int, nn),
        x >= 16 ==> r == Err::<(), ProcessingError>(
            ProcessingError::RegisterError { source: RegisterError::InvalidAddress(x) },
        ) && final(register)@ == old(register)@,
{
    set_reg(register, x, nn)
}

/// Add an immediate into register `x`, wrapping on 8 bits; the flags
/// register is not touched.
pub fn op_7XNN(register: &mut Register, x: u8, nn: u8) -> (r: Result<(), ProcessingError>)
    requires
        old(register).wf(),
    ensures
        final(register).wf(),
        x < 16 ==> r == Ok::<(), ProcessingError>(()) && final(register)@
            == old(register)@.update(
            x as int,
            ((old(register)@[x as int] + nn) % 256) as u8,
        ),
        x >= 16 ==> r == Err::<(), ProcessingError>(
            ProcessingError::RegisterError { source: RegisterError::InvalidAddress(x) },
        ) && final(register)@ == old(register)@,
{
    let vx = get_reg(register, x)?;
    let sum = (vx as u16 + nn as u16) % 256;
    set_reg(register, x, sum as u8)
}

/// Copy register `y` into register `x`.
pub fn op_8XY0(register: &mut Register, x: u8, y: u8) -> (r: Result<(), ProcessingError>)
    requires
        old(register).wf(),
    ensures
        final(register).wf(),
        x < 16 && y < 16 ==> r == Ok::<(), ProcessingError>(()) && final(register)@
            == old(register)@.update(x as int, old(register)@[y as int]),
        y >= 16 ==> r == Err::<(), ProcessingError>(
            ProcessingError::RegisterError { source: RegisterError::InvalidAddress(y) },
        ) && final(register)@ == old(register)@,
        y < 16 && x >= 16 ==> r == Err::<(), ProcessingError>(
            ProcessingError::RegisterError { source: RegisterError::InvalidAddress(x) },
        ) && final(register)@ == old(register)@,
{
    match register.set_x_y(x, y) {
        Ok(()) => Ok(()),
        Err(e) => Err(ProcessingError::RegisterError { source: e }),
    }
}

/// Bitwise OR of register `y` into register `x`.
pub fn op_8XY1(register: &mut Register, x: u8, y: u8) -> (r: Result<(), ProcessingError>)
    requires
        old(register).wf(),
    ensures
        final(register).wf(),
        x < 16 && y < 16 ==> r == Ok::<(), ProcessingError>(()) && final(register)@
            == old(register)@.update(
            x as int,
            old(register)@[x as int] | old(register)@[y as int],
        ),
        x >= 16 ==> r == Err::<(), ProcessingError>(
            ProcessingError::RegisterError { source: RegisterError::InvalidAddress(x) },
        ) && final(register)@ == old(register)@,
        x < 16 && y >= 16 ==> r == Err::<(), ProcessingError>(
            ProcessingError::RegisterError { source: RegisterError::InvalidAddress(y) },
        ) && final(register)@ == old(register)@,
{
    let vx = get_reg(register, x)?;
    let vy = get_reg(register, y)?;
    set_reg(register, x, vx | vy)
}

/// Bitwise AND of register `y` into register `x`.
pub fn op_8XY2(register: &mut Register, x: u8, y: u8) -> (r: Result<(), ProcessingError>)
    requires
        old(register).wf(),
    ensures
        final(register).wf(),
        x < 16 && y < 16 ==> r == Ok::<(), ProcessingError>(()) && final(register)@
            == old(register)@.update(
            x as int,
            old(register)@[x as int] & old(register)@[y as int],
        ),
        x >= 16 ==> r == Err::<(), ProcessingError>(
            ProcessingError::RegisterError { source: RegisterError::InvalidAddress(x) },
        ) && final(register)@ == old(register)@,
        x < 16 && y >= 16 ==> r == Err::<(), ProcessingError>(
            ProcessingError::RegisterError { source: RegisterError::InvalidAddress(y) },
        ) && final(register)@ == old(register)@,
{
    let vx = get_reg(register, x)?;
    let vy = get_reg(register, y)?;
    set_reg(register, x, vx & vy)
}

/// Bitwise XOR of register `y` into register `x`.
pub fn op_8XY3(register: &mut Register, x: u8, y: u8) -> (r: Result<(), ProcessingError>)
    requires
        old(register).wf(),
    ensures
        final(register).wf(),
        x < 16 && y < 16 ==> r == Ok::<(), ProcessingError>(()) && final(register)@
            == old(register)@.update(
            x as int,
            old(register)@[x as int] ^ old(register)@[y as int],
        ),
        x >= 16 ==> r == Err::<(), ProcessingError>(
            ProcessingError::RegisterError { source: RegisterError::InvalidAddress(x) },
        ) && final(register)@ == old(register)@,
        x < 16 && y >= 16 ==> r == Err::<(), ProcessingError>(
            ProcessingError::RegisterError { source: RegisterError::InvalidAddress(y) },
        ) && final(register)@ == old(register)@,
{
    let vx = get_reg(register, x)?;
    let vy = get_reg(register, y)?;
    set_reg(register, x, vx ^ vy)
}

/// Add register `y` into register `x` with carry: the data register holds
/// the sum modulo 256, and the flags register is 1 exactly when the
/// unsigned sum exceeds 255.
pub fn op_8XY4(register: &mut Register, x: u8, y: u8) -> (r: Result<(), ProcessingError>)
    requires
        old(register).wf(),
    ensures
        final(register).wf(),
        x < 16 && y < 16 ==> r == Ok::<(), ProcessingError>(()) && final(register)@
            == old(register)@.update(
            x as int,
            ((old(register)@[x as int] + old(register)@[y as int]) % 256) as u8,
        ).update(
            constants::FLAGS_REGISTER as int,
            if old(register)@[x as int] + old(register)@[y as int] > 255 {
                1u8
            } else {
                0u8
            },
        ),
        x >= 16 ==> r == Err::<(), ProcessingError>(
            ProcessingError::RegisterError { source: RegisterError::InvalidAddress(x) },
        ) && final(register)@ == old(register)@,
        x < 16 && y >= 16 ==> r == Err::<(), ProcessingError>(
            ProcessingError::RegisterError { source: RegisterError::InvalidAddress(y) },
        ) && final(register)@ == old(register)@,
{
    let vx = get_reg(register, x)?;
    let vy = get_reg(register, y)?;
    let sum = vx as u16 + vy as u16;
    let val = (sum % 256) as u8;
    let overflow: u8 = if sum > 255 {
        1
    } else {
        0
    };
    set_reg(register, x, val)?;
    set_reg(register, constants::FLAGS_REGISTER as u8, overflow)
}

/// Subtract register `y` from register `x`: the data register holds the
/// difference modulo 256, and the flags register is 1 exactly when no
/// borrow occurred, that is, when the minuend `x` is at least `y`.
pub fn op_8XY5(register: &mut Register, x: u8, y: u8) -> (r: Result<(), ProcessingError>)
    requires
        old(register).wf(),
    ensures
        final(register).wf(),
        x < 16 && y < 16 ==> r == Ok::<(), ProcessingError>(()) && final(register)@
            == old(register)@.update(
            x as int,
            ((old(register)@[x as int] - old(register)@[y as int]) % 256) as u8,
        ).update(
            constants::FLAGS_REGISTER as int,
            if old(register)@[x as int] >= old(register)@[y as int] {
                1u8
            } else {
                0u8
            },
        ),
        x >= 16 ==> r == Err::<(), ProcessingError>(
            ProcessingError::RegisterError { source: RegisterError::InvalidAddress(x) },
        ) && final(register)@ == old(register)@,
        x < 16 && y >= 16 ==> r == Err::<(), ProcessingError>(
            ProcessingError::RegisterError { source: RegisterError::InvalidAddress(y) },
        ) && final(register)@ == old(register)@,
{
    let vx = get_reg(register, x)?;
    let vy = get_reg(register, y)?;
    let val: u8 = if vx >= vy {
        vx - vy
    } else {
        ((256 + vx as u16 - vy as u16) % 256) as u8
    };
    let no_borrow: u8 = if vx >= vy {
        1
    } else {
        0
    };
    proof {
        let a = old(register)@[x as int] as int;
        let b = old(register)@[y as int] as int;
        if a < b {
            vstd::arithmetic::div_mod::lemma_mod_add_multiples_vanish(a - b, 256);
            vstd::arithmetic::div_mod::lemma_small_mod((256 + a - b) as nat, 256nat);
        } else {
            vstd::arithmetic::div_mod::lemma_small_mod((a - b) as nat, 256nat);
        }
    }
    set_reg(register, x, val)?;
    set_reg(register, constants::FLAGS_REGISTER as u8, no_borrow)
}

/// Subtract register `x` from register `y` into `x`: the flags register is
/// 1 exactly when no borrow occurred, that is, when the minuend `y` is at
/// least `x`.
pub fn op_8XY7(register: &mut Register, x: u8, y: u8) -> (r: Result<(), ProcessingError>)
    requires
        old(register).wf(),
    ensures
        final(register).wf(),
        x < 16 && y < 16 ==> r == Ok::<(), ProcessingError>(()) && final(register)@
            == old(register)@.update(
            x as int,
            ((old(register)@[y as int] - old(register)@[x as int]) % 256) as u8,
        ).update(
            constants::FLAGS_REGISTER as int,
            if old(register)@[y as int] >= old(register)@[x as int] {
                1u8
            } else {
                0u8
            },
        ),
        x >= 16 ==> r == Err::<(), ProcessingError>(
            ProcessingError::RegisterError { source: RegisterError::InvalidAddress(x) },
        ) && final(register)@ == old(register)@,
        x < 16 && y >= 16 ==> r == Err::<(), ProcessingError>(
            ProcessingError::RegisterError { source: RegisterError::InvalidAddress(y) },
        ) && final(register)@ == old(register)@,
{
    let vx = get_reg(register, x)?;
    let vy = get_reg(register, y)?;
    let val: u8 = if vy >= vx {
        vy - vx
    } else {
        ((256 + vy as u16 - vx as u16) % 256) as u8
    };
    let no_borrow: u8 = if vy >= vx {
        1
    } else {
        0
    };
    proof {
        let a = old(register)@[y as int] as int;
        let b = old(register)@[x as int] as int;
        if a < b {
            vstd::arithmetic::div_mod::lemma_mod_add_multiples_vanish(a - b, 256);
            vstd::arithmetic::div_mod::lemma_small_mod((256 + a - b) as nat, 256nat);
        } else {
            vstd::arithmetic::div_mod::lemma_small_mod((a - b) as nat, 256nat);
        }
    }
    set_reg(register, x, val)?;
    set_reg(register, constants::FLAGS_REGISTER as u8, no_borrow)
}

/// Logical shift right by one.  The variant decides the source: one
/// interpreter first copies register `y` into `x`, the others shift `x` in
/// place.  The flags register receives the bit shifted out.
pub fn op_8XY6(interpreter: &Interpreter, register: &mut Register, x: u8, y: u8) -> (r:
    Result<(), ProcessingError>)
    requires
        old(register).wf(),
    ensures
        final(register).wf(),
        x < 16 && (y < 16 || *interpreter != Interpreter::CosmacVIP) ==> r == Ok::<
            (),
            ProcessingError,
        >(()) && final(register)@ == old(register)@.update(
            x as int,
            (shift_source(*interpreter, old(register)@, x as int, y as int) / 2) as u8,
        ).update(
            constants::FLAGS_REGISTER as int,
            (shift_source(*interpreter, old(register)@, x as int, y as int) % 2) as u8,
        ),
        *interpreter == Interpreter::CosmacVIP && y >= 16 ==> r == Err::<
            (),
            ProcessingError,
        >(ProcessingError::RegisterError { source: RegisterError::InvalidAddress(y) })
            && final(register)@ == old(register)@,
        x >= 16 && (*interpreter != Interpreter::CosmacVIP || y < 16) ==> r == Err::<
            (),
            ProcessingError,
        >(ProcessingError::RegisterError { source: RegisterError::InvalidAddress(x) })
            && final(register)@ == old(register)@,
{
    let src = if let Interpreter::CosmacVIP = interpreter {
        get_reg(register, y)?
    } else {
        get_reg(register, x)?
    };
    let lsb = src % 2;
    let shifted = src / 2;
    set_reg(register, x, shifted)?;
    set_reg(register, constants::FLAGS_REGISTER as u8, lsb)
}

/// Logical shift left by one.  The variant decides the source: one
/// interpreter first copies register `y` into `x`, the others shift `x` in
/// place.  The flags register receives the bit shifted out.
pub fn op_8XYE(interpreter: &Interpreter, register: &mut Register, x: u8, y: u8) -> (r:
    Result<(), ProcessingError>)
    requires
        old(register).wf(),
    ensures
        final(register).wf(),
        x < 16 && (y < 16 || *interpreter != Interpreter::CosmacVIP) ==> r == Ok::<
            (),
            ProcessingError,
        >(()) && final(register)@ == old(register)@.update(
            x as int,
            ((shift_source(*interpreter, old(register)@, x as int, y as int) * 2) % 256) as u8,
        ).update(
            constants::FLAGS_REGISTER as int,
            (shift_source(*interpreter, old(register)@, x as int, y as int) / 128) as u8,
        ),
        *interpreter == Interpreter::CosmacVIP && y >= 16 ==> r == Err::<
            (),
            ProcessingError,
        >(ProcessingError::RegisterError { source: RegisterError::InvalidAddress(y) })
            && final(register)@ == old(register)@,
        x >= 16 && (*interpreter != Interpreter::CosmacVIP || y < 16) ==> r == Err::<
            (),
            ProcessingError,
        >(ProcessingError::RegisterError { source: RegisterError::InvalidAddress(x) })
            && final(register)@ == old(register)@,
{
    let src = if let Interpreter::CosmacVIP = interpreter {
        get_reg(register, y)?
    } else {
        get_reg(register, x)?
    };
    let msb = src / 128;
    let shifted = ((src as u16 * 2) % 256) as u8;
    set_reg(register, x, shifted)?;
    set_reg(register, constants::FLAGS_REGISTER as u8, msb)
}

/// The register value that a shift operates on: the quirk variant takes it
/// from register `y`, the others from register `x`.
pub open spec fn shift_source(interpreter: Interpreter, regs: Seq<u8>, x: int, y: int) -> u8 {
    if interpreter == Interpreter::CosmacVIP {
        regs[y]
    } else {
        regs[x]
    }
}

/// Skip the next instruction if registers `x` and `y` hold different
/// values.
pub fn op_9XY0(register: &Register, x: u8, y: u8, pc: &mut ProgramCounter) -> (r: Result<
    (),
    ProcessingError,
>)
    requires
        register.wf(),
    ensures
        x < 16 && y < 16 ==> r == Ok::<(), ProcessingError>(()) && final(pc)@ == (
        if register@[x as int] != register@[y as int] {
            advanced_pc(old(pc)@)
        } else {
            old(pc)@ as int
        }),
        x >= 16 ==> r == Err::<(), ProcessingError>(
            ProcessingError::RegisterError { source: RegisterError::InvalidAddress(x) },
        ) && final(pc)@ == old(pc)@,
        x < 16 && y >= 16 ==> r == Err::<(), ProcessingError>(
            ProcessingError::RegisterError { source: RegisterError::InvalidAddress(y) },
        ) && final(pc)@ == old(pc)@,
{
    let equal = match register.cmp_registers(x, y) {
        Ok(b) => b,
        Err(e) => {
            return Err(ProcessingError::RegisterError { source: e });
        },
    };
    if !equal {
        pc.increment();
    }
    Ok(())
}

/// Load an absolute address into the index register.
pub fn op_ANNN(index_register: &mut u16, nnn: u16)
    ensures
        *final(index_register) == nnn,
{
    *index_register = nnn;
}

/// Jump with register offset.  The quirk variants add register `x` to the
/// address; the oldest variant adds register 0.
pub fn op_BNNN(
    interpreter: &Interpreter,
    register: &Register,
    pc: &mut ProgramCounter,
    x: u8,
    nnn: u16,
) -> (r: Result<(), ProcessingError>)
    requires
        register.wf(),
        nnn < 0x1000,
    ensures
        *interpreter == Interpreter::CosmacVIP ==> r == Ok::<(), ProcessingError>(())
            && final(pc)@ == nnn + register@[0],
        *interpreter != Interpreter::CosmacVIP && x < 16 ==> r == Ok::<(), ProcessingError>(
            (),
        ) && final(pc)@ == nnn + register@[x as int],
        *interpreter != Interpreter::CosmacVIP && x >= 16 ==> r == Err::<
            (),
            ProcessingError,
        >(ProcessingError::RegisterError { source: RegisterError::InvalidAddress(x) })
            && final(pc)@ == old(pc)@,
{
    match interpreter {
        Interpreter::CosmacVIP => {
            let v0 = get_reg(register, 0)?;
            pc.jump(nnn as usize + v0 as usize);
        },
        Interpreter::Chip48 | Interpreter::SuperChip => {
            let vx = get_reg(register, x)?;
            pc.jump(nnn as usize + vx as usize);
        },
    }
    Ok(())
}

/// Read the delay timer into register `x`.
pub fn op_FX07(register: &mut Register, x: u8, delay_timer: &u8) -> (r: Result<
    (),
    ProcessingError,
>)
    requires
        old(register).wf(),
    ensures
        final(register).wf(),
        x < 16 ==> r == Ok::<(), ProcessingError>(()) && final(register)@
            == old(register)@.update(x as int, *delay_timer),
        x >= 16 ==> r == Err::<(), ProcessingError>(
            ProcessingError::RegisterError { source: RegisterError::InvalidAddress(x) },
        ) && final(register)@ == old(register)@,
{
    set_reg(register, x, *delay_timer)
}

/// Set the delay timer from register `x`.
pub fn op_FX15(register: &mut Register, x: u8, delay_timer: &mut u8) -> (r: Result<
    (),
    ProcessingError,
>)
    requires
        old(register).wf(),
    ensures
        final(register).wf(),
        final(register)@ == old(register)@,
        x < 16 ==> r == Ok::<(), ProcessingError>(()) && *final(delay_timer)
            == old(register)@[x as int],
        x >= 16 ==> r == Err::<(), ProcessingError>(
            ProcessingError::RegisterError { source: RegisterError::InvalidAddress(x) },
        ) && *final(delay_timer) == *old(delay_timer),
{
    let vx = get_reg(register, x)?;
    *delay_timer = vx;
    Ok(())
}

/// Set the sound timer from register `x`, reporting the externally
/// observable start-tone transition: the timer went from zero to nonzero.
pub fn op_FX18(register: &mut Register, x: u8, sound_timer: &mut u8) -> (r: Result<
    bool,
    ProcessingError,
>)
    requires
        old(register).wf(),
    ensures
        final(register).wf(),
        final(register)@ == old(register)@,
        x < 16 ==> r == Ok::<bool, ProcessingError>(
            *old(sound_timer) == 0 && old(register)@[x as int] != 0,
        ) && *final(sound_timer) == old(register)@[x as int],
        x >= 16 ==> r == Err::<bool, ProcessingError>(
            ProcessingError::RegisterError { source: RegisterError::InvalidAddress(x) },
        ) && *final(sound_timer) == *old(sound_timer),
{
    let vx = get_reg(register, x)?;
    let start_tone = *sound_timer == 0 && vx != 0;
    *sound_timer = vx;
    Ok(start_tone)
}

/// Add register `x` into the index register, wrapping on 16 bits.
pub fn op_FX1E(register: &Register, x: u8, index_register: &mut u16) -> (r: Result<
    (),
    ProcessingError,
>)
    requires
        register.wf(),
    ensures
        x < 16 ==> r == Ok::<(), ProcessingError>(()) && *final(index_register) == (
        *old(index_register) + register@[x as int]) % 0x10000,
        x >= 16 ==> r == Err::<(), ProcessingError>(
            ProcessingError::RegisterError { source: RegisterError::InvalidAddress(x) },
        ) && *final(index_register) == *old(index_register),
{
    let vx = get_reg(register, x)?;
    let sum = (*index_register as u32 + vx as u32) % 0x10000;
    *index_register = sum as u16;
    Ok(())
}

/// Relies on rand::random: one freshly drawn byte.  Nothing is promised of
/// its value; callers state what holds of every outcome.
#[verifier::external_body]
fn random_byte() -> u8 {
    rand::random::<u8>()
}

/// Load a platform-random byte, masked by the immediate, into register `x`.
/// Whatever byte the platform draws, every bit outside the mask is zero.
pub fn op_CXNN(register: &mut Register, x: u8, nn: u8) -> (r: Result<(), ProcessingError>)
    requires
        old(register).wf(),
    ensures
        final(register).wf(),
        x < 16 ==> r == Ok::<(), ProcessingError>(()) && (exists|b: u8|
            final(register)@ == old(register)@.update(x as int, b & nn)),
        x < 16 ==> (final(register)@[x as int] & nn) == final(register)@[x as int],
        x >= 16 ==> r == Err::<(), ProcessingError>(
            ProcessingError::RegisterError { source: RegisterError::InvalidAddress(x) },
        ) && final(register)@ == old(register)@,
{
    let b = random_byte();
    let masked = b & nn;
    proof {
        assert((b & nn) & nn == b & nn) by (bit_vector);
    }
    let r = set_reg(register, x, masked);
    proof {
        if x < 16 {
            assert(register@ == old(register)@.update(x as int, b & nn));
        }
    }
    r
}

/// Skip the next instruction if the key named by register `x` is currently
/// held.
pub fn op_EX9E(register: &Register, keypad: &KeyPad, pc: &mut ProgramCounter, x: u8) -> (r:
    Result<(), ProcessingError>)
    requires
        register.wf(),
        keypad.wf(),
    ensures
        x < 16 ==> r == Ok::<(), ProcessingError>(()) && final(pc)@ == (
        if register@[x as int] < 16 && keypad.held_keys()[register@[x as int] as int] {
            advanced_pc(old(pc)@)
        } else {
            old(pc)@ as int
        }),
        x >= 16 ==> r == Err::<(), ProcessingError>(
            ProcessingError::RegisterError { source: RegisterError::InvalidAddress(x) },
        ) && final(pc)@ == old(pc)@,
{
    let vx = get_reg(register, x)?;
    if keypad.is_key_pressed(vx) {
        pc.increment();
    }
    Ok(())
}

/// Skip the next instruction if the key named by register `x` is not
/// currently held.
pub fn op_EXA1(register: &Register, keypad: &KeyPad, pc: &mut ProgramCounter, x: u8) -> (r:
    Result<(), ProcessingError>)
    requires
        register.wf(),
        keypad.wf(),
    ensures
        x < 16 ==> r == Ok::<(), ProcessingError>(()) && final(pc)@ == (
        if !(register@[x as int] < 16 && keypad.held_keys()[register@[x as int] as int]) {
            advanced_pc(old(pc)@)
        } else {
            old(pc)@ as int
        }),
        x >= 16 ==> r == Err::<(), ProcessingError>(
            ProcessingError::RegisterError { source: RegisterError::InvalidAddress(x) },
        ) && final(pc)@ == old(pc)@,
{
    let vx = get_reg(register, x)?;
    if !keypad.is_key_pressed(vx) {
        pc.increment();
    }
    Ok(())
}

/// Wait for a key release, cooperatively: if a release event is available,
/// store its code in register `x` and proceed; otherwise rewind the program
/// counter by one instruction so the same instruction re-executes on the
/// next cycle.
pub fn op_FX0A(register: &mut Register, pc: &mut ProgramCounter, keypad: &KeyPad, x: u8) -> (r:
    Result<(), ProcessingError>)
    requires
        old(register).wf(),
    ensures
        final(register).wf(),
        keypad.released_key() matches Some(key) ==> ({
            &&& x < 16 ==> r == Ok::<(), ProcessingError>(()) && final(register)@
                == old(register)@.update(x as int, key) && final(pc)@ == old(pc)@
            &&& x >= 16 ==> r == Err::<(), ProcessingError>(
                ProcessingError::RegisterError {
                    source: RegisterError::InvalidAddress(x),
                },
            ) && final(register)@ == old(register)@ && final(pc)@ == old(pc)@
        }),
        keypad.released_key() is None ==> r == Ok::<(), ProcessingError>(())
            && final(register)@ == old(register)@ && final(pc)@ == (old(pc)@
            - constants::INSTRUCTION_WIDTH) % (constants::TOTAL_RAM as int),
{
    match keypad.get_key_released() {
        Some(key_hex) => set_reg(register, x, key_hex),
        None => {
            pc.decrement();
            Ok(())
        },
    }
}

/// Point the index register at the font glyph for the value of register
/// `x`: glyphs are five bytes each, at the base of memory.
pub fn op_FX29(register: &Register, index_register: &mut u16, x: u8) -> (r: Result<
    (),
    ProcessingError,
>)
    requires
        register.wf(),
    ensures
        x < 16 ==> r == Ok::<(), ProcessingError>(()) && *final(index_register)
            == constants::GLYPH_SIZE * register@[x as int],
        x >= 16 ==> r == Err::<(), ProcessingError>(
            ProcessingError::RegisterError { source: RegisterError::InvalidAddress(x) },
        ) && *final(index_register) == *old(index_register),
{
    let font_char = get_reg(register, x)?;
    *index_register = font_char as u16 * constants::GLYPH_SIZE as u16;
    Ok(())
}

/// Write the three decimal digits of register `x` into memory at the index
/// register, most-significant digit first.  The highest address is written
/// first, so an out-of-range index leaves memory untouched.
pub fn op_FX33(register: &Register, memory: &mut Ram, x: u8, index_register: u16) -> (r:
    Result<(), ProcessingError>)
    requires
        register.wf(),
        old(memory).wf(),
    ensures
        final(memory).wf(),
        x < 16 && index_register + 2 < constants::TOTAL_RAM ==> r == Ok::<
            (),
            ProcessingError,
        >(()) && final(memory)@ == old(memory)@.update(
            index_register + 2,
            (register@[x as int] % 10) as u8,
        ).update(index_register + 1, ((register@[x as int] / 10) % 10) as u8).update(
            index_register as int,
            (register@[x as int] / 100) as u8,
        ),
        x >= 16 ==> r == Err::<(), ProcessingError>(
            ProcessingError::RegisterError { source: RegisterError::InvalidAddress(x) },
        ) && final(memory)@ == old(memory)@,
        x < 16 && index_register + 2 >= constants::TOTAL_RAM ==> r == Err::<
            (),
            ProcessingError,
        >(
            ProcessingError::AddressOutOfBounds {
                source: RamError::InvalidAddress((index_register + 2) as usize),
            },
        ) && final(memory)@ == old(memory)@,
{
    let val = get_reg(register, x)?;
    let base = index_register as usize;
    let ones = val % 10;
    let tens = (val / 10) % 10;
    let hundreds = val / 100;
    match memory.set(base + 2, ones) {
        Ok(()) => {},
        Err(e) => {
            return Err(ProcessingError::AddressOutOfBounds { source: e });
        },
    }
    match memory.set(base + 1, tens) {
        Ok(()) => {},
        Err(e) => {
            return Err(ProcessingError::AddressOutOfBounds { source: e });
        },
    }
    match memory.set(base, hundreds) {
        Ok(()) => {},
        Err(e) => {
            return Err(ProcessingError::AddressOutOfBounds { source: e });
        },
    }
    Ok(())
}

/// The framebuffer bit index painted by sprite row `r`, bit `xi`: bit `xi`
/// of a row byte maps to column `sx + 7 - xi`, so the most significant bit
/// lands leftmost.
pub open spec fn pixel_index(sx: int, sy: int, w: int, r: int, xi: int) -> int {
    (sy + r) * w + (sx + 7 - xi)
}

/// Whether sprite row `r`, bit `xi` paints a pixel: the bit is set in the
/// row byte, the row maps inside the display height, and the column inside
/// the display width.  Rows and columns beyond the bounds are clipped, not
/// wrapped.
pub open spec fn sprite_pixel_visible(
    mem: Seq<u8>,
    index: int,
    sx: int,
    sy: int,
    w: int,
    h: int,
    r: int,
    xi: int,
) -> bool {
    &&& 0 <= r
    &&& 0 <= xi < 8
    &&& sy + r < h
    &&& sx + 7 - xi < w
    &&& bit_of(mem[index + r], xi as u8)
}

/// Whether some sprite pixel strictly before position (`r_lim`, `xi_lim`)
/// in drawing order paints framebuffer bit `b`.  With `r_lim` the sprite
/// height and `xi_lim` zero, this is the set of bits the whole draw flips.
pub open spec fn flips_before(
    mem: Seq<u8>,
    index: int,
    sx: int,
    sy: int,
    w: int,
    h: int,
    r_lim: int,
    xi_lim: int,
    b: int,
) -> bool {
    exists|r: int, xi: int|
        (r < r_lim || (r == r_lim && xi < xi_lim)) && sprite_pixel_visible(
            mem,
            index,
            sx,
            sy,
            w,
            h,
            r,
            xi,
        ) && pixel_index(sx, sy, w, r, xi) == b
}

/// Whether some sprite pixel strictly before position (`r_lim`, `xi_lim`)
/// lands on a framebuffer bit that is set in `mem`: the collision/erasure
/// condition that the flags register reports.
pub open spec fn collides_before(
    mem: Seq<u8>,
    index: int,
    sx: int,
    sy: int,
    w: int,
    h: int,
    r_lim: int,
    xi_lim: int,
) -> bool {
    exists|r: int, xi: int|
        (r < r_lim || (r == r_lim && xi < xi_lim)) && sprite_pixel_visible(
            mem,
            index,
            sx,
            sy,
            w,
            h,
            r,
            xi,
        ) && fb_bit(mem, pixel_index(sx, sy, w, r, xi))
}

/// The contract of one sprite draw, relating memory and registers before
/// and after.  Unconditionally: nothing outside the framebuffer region
/// changes, no framebuffer bit beyond the display area changes, and only
/// the flags register changes, to 0 or 1.  When the sprite source lies
/// outside the framebuffer region, the draw is exact: a framebuffer bit
/// changes exactly when some visible sprite pixel paints it, and the flags
/// register reports exactly whether some painted bit was set before.
pub open spec fn draw_post(
    mem0: Seq<u8>,
    regs0: Seq<u8>,
    mem1: Seq<u8>,
    regs1: Seq<u8>,
    index: u16,
    w: int,
    h: int,
    x: int,
    y: int,
    n: int,
    res: Result<(), ProcessingError>,
) -> bool {
    let sx = (regs0[x] as int) % w;
    let sy = (regs0[y] as int) % h;
    &&& mem1.len() == mem0.len()
    &&& forall|j: int| 0 <= j < constants::DISPLAY_START ==> mem1[j] == mem0[j]
    &&& forall|b: int|
        w * h <= b < constants::FRAMEBUFFER_BITS ==> fb_bit(mem1, b) == fb_bit(mem0, b)
    &&& regs1.len() == regs0.len()
    &&& forall|k: int|
        0 <= k < 16 && k != constants::FLAGS_REGISTER ==> regs1[k] == regs0[k]
    &&& (regs1[constants::FLAGS_REGISTER as int] == 0 || regs1[
        constants::FLAGS_REGISTER as int
    ] == 1)
    &&& (res is Ok <==> (n == 0 || index + n <= constants::TOTAL_RAM))
    &&& (res matches Err(e) ==> e == ProcessingError::AddressOutOfBounds {
        source: RamError::InvalidAddress(
            if index >= constants::TOTAL_RAM {
                index as usize
            } else {
                constants::TOTAL_RAM
            },
        ),
    } && regs1 == regs0.update(constants::FLAGS_REGISTER as int, 0u8))
    &&& (index + n <= constants::DISPLAY_START ==> ({
        &&& forall|b: int|
            0 <= b < constants::FRAMEBUFFER_BITS ==> ((fb_bit(mem1, b) != fb_bit(mem0, b))
                == flips_before(mem0, index as int, sx, sy, w, h, n, 0, b))
        &&& regs1 == regs0.update(
            constants::FLAGS_REGISTER as int,
            if collides_before(mem0, index as int, sx, sy, w, h, n, 0) {
                1u8
            } else {
                0u8
            },
        )
    }))
}

/// Flipping one bit of a byte flips exactly that bit.
proof fn lemma_xor_bit(b: u8, p: u8, q: u8)
    by (bit_vector)
    requires
        p < 8,
        q < 8,
    ensures
        bit_of(b ^ (1u8 << p), p) == !bit_of(b, p),
        p != q ==> bit_of(b ^ (1u8 << p), q) == bit_of(b, q),
{
}

/// A visible sprite pixel always paints a bit inside the display area.
proof fn lemma_pixel_index_range(sx: int, sy: int, w: int, h: int, r: int, xi: int)
    by (nonlinear_arith)
    requires
        0 < w,
        0 <= sx,
        0 <= sy,
        0 <= r,
        0 <= xi < 8,
        sy + r < h,
        sx + 7 - xi < w,
    ensures
        0 <= pixel_index(sx, sy, w, r, xi) < w * h,
{
}

/// Distinct sprite pixels paint distinct framebuffer bits: the row decides
/// the display row and the bit position decides the display column.
proof fn lemma_pixel_index_injective(
    sx: int,
    sy: int,
    w: int,
    r1: int,
    xi1: int,
    r2: int,
    xi2: int,
)
    by (nonlinear_arith)
    requires
        0 < w,
        0 <= sx,
        0 <= r1,
        0 <= r2,
        0 <= xi1 < 8,
        0 <= xi2 < 8,
        sx + 7 - xi1 < w,
        sx + 7 - xi2 < w,
        pixel_index(sx, sy, w, r1, xi1) == pixel_index(sx, sy, w, r2, xi2),
    ensures
        r1 == r2,
        xi1 == xi2,
{
}

/// XOR-ing one framebuffer bit's mask into its byte flips exactly that
/// framebuffer bit and no other.
proof fn lemma_fb_xor_one_bit(mem: Seq<u8>, b: int, b2: int)
    requires
        mem.len() == constants::TOTAL_RAM,
        0 <= b < constants::FRAMEBUFFER_BITS,
        0 <= b2 < constants::FRAMEBUFFER_BITS,
    ensures
        ({
            let j = constants::DISPLAY_START + b / 8;
            let m2 = mem.update(j, mem[j] ^ (1u8 << ((b % 8) as u8)));
            fb_bit(m2, b2) == if b2 == b {
                !fb_bit(mem, b2)
            } else {
                fb_bit(mem, b2)
            }
        }),
{
    vstd::arithmetic::div_mod::lemma_fundamental_div_mod(b, 8);
    vstd::arithmetic::div_mod::lemma_mod_bound(b, 8);
    vstd::arithmetic::div_mod::lemma_fundamental_div_mod(b2, 8);
    vstd::arithmetic::div_mod::lemma_mod_bound(b2, 8);
    let j = constants::DISPLAY_START + b / 8;
    lemma_xor_bit(mem[j], (b % 8) as u8, (b2 % 8) as u8);
}

/// Advancing the drawing-order cutoff from the end of one sprite row to the
/// start of the next names the same set of pixels.
proof fn lemma_cutoff_roll(
    mem: Seq<u8>,
    index: int,
    sx: int,
    sy: int,
    w: int,
    h: int,
    row: int,
    b: int,
)
    ensures
        flips_before(mem, index, sx, sy, w, h, row, 8, b) == flips_before(
            mem,
            index,
            sx,
            sy,
            w,
            h,
            row + 1,
            0,
            b,
        ),
        collides_before(mem, index, sx, sy, w, h, row, 8) == collides_before(
            mem,
            index,
            sx,
            sy,
            w,
            h,
            row + 1,
            0,
        ),
{
    if flips_before(mem, index, sx, sy, w, h, row, 8, b) {
        let (r, xi) = choose|r: int, xi: int|
            (r < row || (r == row && xi < 8)) && sprite_pixel_visible(
                mem,
                index,
                sx,
                sy,
                w,
                h,
                r,
                xi,
            ) && pixel_index(sx, sy, w, r, xi) == b;
        assert((r < row + 1 || (r == row + 1 && xi < 0)) && sprite_pixel_visible(
            mem,
            index,
            sx,
            sy,
            w,
            h,
            r,
            xi,
        ) && pixel_index(sx, sy, w, r, xi) == b);
    }
    if flips_before(mem, index, sx, sy, w, h, row + 1, 0, b) {
        let (r, xi) = choose|r: int, xi: int|
            (r < row + 1 || (r == row + 1 && xi < 0)) && sprite_pixel_visible(
                mem,
                index,
                sx,
                sy,
                w,
                h,
                r,
                xi,
            ) && pixel_index(sx, sy, w, r, xi) == b;
        assert((r < row || (r == row && xi < 8)) && sprite_pixel_visible(
            mem,
            index,
            sx,
            sy,
            w,
            h,
            r,
            xi,
        ) && pixel_index(sx, sy, w, r, xi) == b);
    }
    if collides_before(mem, index, sx, sy, w, h, row, 8) {
        let (r, xi) = choose|r: int, xi: int|
            (r < row || (r == row && xi < 8)) && sprite_pixel_visible(
                mem,
                index,
                sx,
                sy,
                w,
                h,
                r,
                xi,
            ) && fb_bit(mem, pixel_index(sx, sy, w, r, xi));
        assert((r < row + 1 || (r == row + 1 && xi < 0)) && sprite_pixel_visible(
            mem,
            index,
            sx,
            sy,
            w,
            h,
            r,
            xi,
        ) && fb_bit(mem, pixel_index(sx, sy, w, r, xi)));
    }
    if collides_before(mem, index, sx, sy, w, h, row + 1, 0) {
        let (r, xi) = choose|r: int, xi: int|
            (r < row + 1 || (r == row + 1 && xi < 0)) && sprite_pixel_visible(
                mem,
                index,
                sx,
                sy,
                w,
                h,
                r,
                xi,
            ) && fb_bit(mem, pixel_index(sx, sy, w, r, xi));
        assert((r < row || (r == row && xi < 8)) && sprite_pixel_visible(
            mem,
            index,
            sx,
            sy,
            w,
            h,
            r,
            xi,
        ) && fb_bit(mem, pixel_index(sx, sy, w, r, xi)));
    }
}

/// A clipped or clear sprite bit leaves the set of painted pixels as it
/// was when the cutoff advances past it.
proof fn lemma_cutoff_advance_invisible(
    mem: Seq<u8>,
    index: int,
    sx: int,
    sy: int,
    w: int,
    h: int,
    row: int,
    xi: int,
)
    requires
        !sprite_pixel_visible(mem, index, sx, sy, w, h, row, xi),
    ensures
        forall|b: int|
            flips_before(mem, index, sx, sy, w, h, row, xi + 1, b) == flips_before(
                mem,
                index,
                sx,
                sy,
                w,
                h,
                row,
                xi,
                b,
            ),
        collides_before(mem, index, sx, sy, w, h, row, xi + 1) == collides_before(
            mem,
            index,
            sx,
            sy,
            w,
            h,
            row,
            xi,
        ),
{
    assert forall|b: int|
        flips_before(mem, index, sx, sy, w, h, row, xi + 1, b) == flips_before(
            mem,
            index,
            sx,
            sy,
            w,
            h,
            row,
            xi,
            b,
        ) by {
        if flips_before(mem, index, sx, sy, w, h, row, xi + 1, b) {
            let (r, xj) = choose|r: int, xj: int|
                (r < row || (r == row && xj < xi + 1)) && sprite_pixel_visible(
                    mem,
                    index,
                    sx,
                    sy,
                    w,
                    h,
                    r,
                    xj,
                ) && pixel_index(sx, sy, w, r, xj) == b;
            assert((r < row || (r == row && xj < xi)) && sprite_pixel_visible(
                mem,
                index,
                sx,
                sy,
                w,
                h,
                r,
                xj,
            ) && pixel_index(sx, sy, w, r, xj) == b);
        }
        if flips_before(mem, index, sx, sy, w, h, row, xi, b) {
            let (r, xj) = choose|r: int, xj: int|
                (r < row || (r == row && xj < xi)) && sprite_pixel_visible(
                    mem,
                    index,
                    sx,
                    sy,
                    w,
                    h,
                    r,
                    xj,
                ) && pixel_index(sx, sy, w, r, xj) == b;
            assert((r < row || (r == row && xj < xi + 1)) && sprite_pixel_visible(
                mem,
                index,
                sx,
                sy,
                w,
                h,
                r,
                xj,
            ) && pixel_index(sx, sy, w, r, xj) == b);
        }
    };
    if collides_before(mem, index, sx, sy, w, h, row, xi + 1) {
        let (r, xj) = choose|r: int, xj: int|
            (r < row || (r == row && xj < xi + 1)) && sprite_pixel_visible(
                mem,
                index,
                sx,
                sy,
                w,
                h,
                r,
                xj,
            ) && fb_bit(mem, pixel_index(sx, sy, w, r, xj));
        assert((r < row || (r == row && xj < xi)) && sprite_pixel_visible(
            mem,
            index,
            sx,
            sy,
            w,
            h,
            r,
            xj,
        ) && fb_bit(mem, pixel_index(sx, sy, w, r, xj)));
    }
    if collides_before(mem, index, sx, sy, w, h, row, xi) {
        let (r, xj) = choose|r: int, xj: int|
            (r < row || (r == row && xj < xi)) && sprite_pixel_visible(
                mem,
                index,
                sx,
                sy,
                w,
                h,
                r,
                xj,
            ) && fb_bit(mem, pixel_index(sx, sy, w, r, xj));
        assert((r < row || (r == row && xj < xi + 1)) && sprite_pixel_visible(
            mem,
            index,
            sx,
            sy,
            w,
            h,
            r,
            xj,
        ) && fb_bit(mem, pixel_index(sx, sy, w, r, xj)));
    }
}

/// A sprite row that maps below the display height paints nothing: the
/// cutoff advances past the whole row without change.
proof fn lemma_cutoff_advance_clipped_row(
    mem: Seq<u8>,
    index: int,
    sx: int,
    sy: int,
    w: int,
    h: int,
    row: int,
)
    requires
        !(sy + row < h),
    ensures
        forall|b: int|
            flips_before(mem, index, sx, sy, w, h, row + 1, 0, b) == flips_before(
                mem,
                index,
                sx,
                sy,
                w,
                h,
                row,
                0,
                b,
            ),
        collides_before(mem, index, sx, sy, w, h, row + 1, 0) == collides_before(
            mem,
            index,
            sx,
            sy,
            w,
            h,
            row,
            0,
        ),
{
    assert forall|b: int|
        flips_before(mem, index, sx, sy, w, h, row + 1, 0, b) == flips_before(
            mem,
            index,
            sx,
            sy,
            w,
            h,
            row,
            0,
            b,
        ) by {
        if flips_before(mem, index, sx, sy, w, h, row + 1, 0, b) {
            let (r, xj) = choose|r: int, xj: int|
                (r < row + 1 || (r == row + 1 && xj < 0)) && sprite_pixel_visible(
                    mem,
                    index,
                    sx,
                    sy,
                    w,
                    h,
                    r,
                    xj,
                ) && pixel_index(sx, sy, w, r, xj) == b;
            assert(r != row);
            assert((r < row || (r == row && xj < 0)) && sprite_pixel_visible(
                mem,
                index,
                sx,
                sy,
                w,
                h,
                r,
                xj,
            ) && pixel_index(sx, sy, w, r, xj) == b);
        }
        if flips_before(mem, index, sx, sy, w, h, row, 0, b) {
            let (r, xj) = choose|r: int, xj: int|
                (r < row || (r == row && xj < 0)) && sprite_pixel_visible(
                    mem,
                    index,
                    sx,
                    sy,
                    w,
                    h,
                    r,
                    xj,
                ) && pixel_index(sx, sy, w, r, xj) == b;
            assert((r < row + 1 || (r == row + 1 && xj < 0)) && sprite_pixel_visible(
                mem,
                index,
                sx,
                sy,
                w,
                h,
                r,
                xj,
            ) && pixel_index(sx, sy, w, r, xj) == b);
        }
    };
    if collides_before(mem, index, sx, sy, w, h, row + 1, 0) {
        let (r, xj) = choose|r: int, xj: int|
            (r < row + 1 || (r == row + 1 && xj < 0)) && sprite_pixel_visible(
                mem,
                index,
                sx,
                sy,
                w,
                h,
                r,
                xj,
            ) && fb_bit(mem, pixel_index(sx, sy, w, r, xj));
        assert(r != row);
        assert((r < row || (r == row && xj < 0)) && sprite_pixel_visible(
            mem,
            index,
            sx,
            sy,
            w,
            h,
            r,
            xj,
        ) && fb_bit(mem, pixel_index(sx, sy, w, r, xj)));
    }
    if collides_before(mem, index, sx, sy, w, h, row, 0) {
        let (r, xj) = choose|r: int, xj: int|
            (r < row || (r == row && xj < 0)) && sprite_pixel_visible(
                mem,
                index,
                sx,
                sy,
                w,
                h,
                r,
                xj,
            ) && fb_bit(mem, pixel_index(sx, sy, w, r, xj));
        assert((r < row + 1 || (r == row + 1 && xj < 0)) && sprite_pixel_visible(
            mem,
            index,
            sx,
            sy,
            w,
            h,
            r,
            xj,
        ) && fb_bit(mem, pixel_index(sx, sy, w, r, xj)));
    }
}

/// Advancing the cutoff past a visible sprite pixel adds exactly that
/// pixel's framebuffer bit, a bit no earlier pixel painted.
proof fn lemma_cutoff_advance_visible(
    mem: Seq<u8>,
    index: int,
    sx: int,
    sy: int,
    w: int,
    h: int,
    row: int,
    xi: int,
    b_idx: int,
)
    requires
        0 < w,
        0 <= sx,
        sprite_pixel_visible(mem, index, sx, sy, w, h, row, xi),
        pixel_index(sx, sy, w, row, xi) == b_idx,
    ensures
        forall|b: int|
            flips_before(mem, index, sx, sy, w, h, row, xi + 1, b) == (flips_before(
                mem,
                index,
                sx,
                sy,
                w,
                h,
                row,
                xi,
                b,
            ) || b == b_idx),
        collides_before(mem, index, sx, sy, w, h, row, xi + 1) == (collides_before(
            mem,
            index,
            sx,
            sy,
            w,
            h,
            row,
            xi,
        ) || fb_bit(mem, b_idx)),
        !flips_before(mem, index, sx, sy, w, h, row, xi, b_idx),
{
    if flips_before(mem, index, sx, sy, w, h, row, xi, b_idx) {
        let (r, xj) = choose|r: int, xj: int|
            (r < row || (r == row && xj < xi)) && sprite_pixel_visible(
                mem,
                index,
                sx,
                sy,
                w,
                h,
                r,
                xj,
            ) && pixel_index(sx, sy, w, r, xj) == b_idx;
        lemma_pixel_index_injective(sx, sy, w, r, xj, row, xi);
        assert(false);
    }
    assert forall|b: int|
        flips_before(mem, index, sx, sy, w, h, row, xi + 1, b) == (flips_before(
            mem,
            index,
            sx,
            sy,
            w,
            h,
            row,
            xi,
            b,
        ) || b == b_idx) by {
        if flips_before(mem, index, sx, sy, w, h, row, xi + 1, b) {
            let (r, xj) = choose|r: int, xj: int|
                (r < row || (r == row && xj < xi + 1)) && sprite_pixel_visible(
                    mem,
                    index,
                    sx,
                    sy,
                    w,
                    h,
                    r,
                    xj,
                ) && pixel_index(sx, sy, w, r, xj) == b;
            if r == row && xj == xi {
                assert(b == b_idx);
            } else {
                assert((r < row || (r == row && xj < xi)) && sprite_pixel_visible(
                    mem,
                    index,
                    sx,
                    sy,
                    w,
                    h,
                    r,
                    xj,
                ) && pixel_index(sx, sy, w, r, xj) == b);
            }
        }
        if flips_before(mem, index, sx, sy, w, h, row, xi, b) {
            let (r, xj) = choose|r: int, xj: int|
                (r < row || (r == row && xj < xi)) && sprite_pixel_visible(
                    mem,
                    index,
                    sx,
                    sy,
                    w,
                    h,
                    r,
                    xj,
                ) && pixel_index(sx, sy, w, r, xj) == b;
            assert((r < row || (r == row && xj < xi + 1)) && sprite_pixel_visible(
                mem,
                index,
                sx,
                sy,
                w,
                h,
                r,
                xj,
            ) && pixel_index(sx, sy, w, r, xj) == b);
        }
        if b == b_idx {
            assert((row < row || (row == row && xi < xi + 1)) && sprite_pixel_visible(
                mem,
                index,
                sx,
                sy,
                w,
                h,
                row,
                xi,
            ) && pixel_index(sx, sy, w, row, xi) == b);
        }
    };
    if collides_before(mem, index, sx, sy, w, h, row, xi + 1) {
        let (r, xj) = choose|r: int, xj: int|
            (r < row || (r == row && xj < xi + 1)) && sprite_pixel_visible(
                mem,
                index,
                sx,
                sy,
                w,
                h,
                r,
                xj,
            ) && fb_bit(mem, pixel_index(sx, sy, w, r, xj));
        if r == row && xj == xi {
            assert(fb_bit(mem, b_idx));
        } else {
            assert((r < row || (r == row && xj < xi)) && sprite_pixel_visible(
                mem,
                index,
                sx,
                sy,
                w,
                h,
                r,
                xj,
            ) && fb_bit(mem, pixel_index(sx, sy, w, r, xj)));
        }
    }
    if collides_before(mem, index, sx, sy, w, h, row, xi) {
        let (r, xj) = choose|r: int, xj: int|
            (r < row || (r == row && xj < xi)) && sprite_pixel_visible(
                mem,
                index,
                sx,
                sy,
                w,
                h,
                r,
                xj,
            ) && fb_bit(mem, pixel_index(sx, sy, w, r, xj));
        assert((r < row || (r == row && xj < xi + 1)) && sprite_pixel_visible(
            mem,
            index,
            sx,
            sy,
            w,
            h,
            r,
            xj,
        ) && fb_bit(mem, pixel_index(sx, sy, w, r, xj)));
    }
    if fb_bit(mem, b_idx) {
        assert((row < row || (row == row && xi < xi + 1)) && sprite_pixel_visible(
            mem,
            index,
            sx,
            sy,
            w,
            h,
            row,
            xi,
        ) && fb_bit(mem, pixel_index(sx, sy, w, row, xi)));
    }
}

/// Two bytes that agree on all eight bits are equal.
proof fn lemma_u8_bit_ext(a: u8, b: u8)
    by (bit_vector)
    requires
        bit_of(a, 0) == bit_of(b, 0),
        bit_of(a, 1) == bit_of(b, 1),
        bit_of(a, 2) == bit_of(b, 2),
        bit_of(a, 3) == bit_of(b, 3),
        bit_of(a, 4) == bit_of(b, 4),
        bit_of(a, 5) == bit_of(b, 5),
        bit_of(a, 6) == bit_of(b, 6),
        bit_of(a, 7) == bit_of(b, 7),
    ensures
        a == b,
{
}

/// Clipping: every framebuffer bit that a draw flips lies inside the
/// display area.  Together with the draw contract, which leaves memory
/// outside the framebuffer region and framebuffer bits beyond the display
/// area untouched, a partially out-of-bounds sprite only ever mutates
/// in-bounds bits.
pub proof fn lemma_draw_clipping(
    mem: Seq<u8>,
    index: int,
    sx: int,
    sy: int,
    w: int,
    h: int,
    n: int,
    b: int,
)
    requires
        0 < w,
        0 <= sx,
        0 <= sy,
        flips_before(mem, index, sx, sy, w, h, n, 0, b),
    ensures
        0 <= b < w * h,
{
    let (r, xi) = choose|r: int, xi: int|
        (r < n || (r == n && xi < 0)) && sprite_pixel_visible(mem, index, sx, sy, w, h, r, xi)
            && pixel_index(sx, sy, w, r, xi) == b;
    lemma_pixel_index_range(sx, sy, w, h, r, xi);
}

/// Draw idempotence under double XOR: drawing the identical sprite at the
/// identical location twice in succession restores the framebuffer to its
/// pre-draw state, and the second draw reports a collision exactly when
/// some painted pixel was clear before the first draw.  The sprite source
/// lies outside the framebuffer region, so the second draw reads the same
/// sprite rows; the coordinate registers are not the flags register, so the
/// first draw leaves the origin unchanged.
pub proof fn lemma_draw_double_xor(
    mem0: Seq<u8>,
    regs0: Seq<u8>,
    mem1: Seq<u8>,
    regs1: Seq<u8>,
    mem2: Seq<u8>,
    regs2: Seq<u8>,
    index: u16,
    w: int,
    h: int,
    x: int,
    y: int,
    n: int,
)
    requires
        regs0.len() == 16,
        0 <= x < 16,
        0 <= y < 16,
        x != constants::FLAGS_REGISTER,
        y != constants::FLAGS_REGISTER,
        0 < w,
        0 < h,
        w * h <= constants::FRAMEBUFFER_BITS,
        mem0.len() == constants::TOTAL_RAM,
        0 <= n,
        index + n <= constants::DISPLAY_START,
        draw_post(mem0, regs0, mem1, regs1, index, w, h, x, y, n, Ok(())),
        draw_post(mem1, regs1, mem2, regs2, index, w, h, x, y, n, Ok(())),
    ensures
        mem2 == mem0,
        regs2[constants::FLAGS_REGISTER as int] == (if (exists|r: int, xi: int|
            r < n && sprite_pixel_visible(mem0, index as int, sx_of(regs0, x, w), sy_of(
                regs0,
                y,
                h,
            ), w, h, r, xi) && !fb_bit(
                mem0,
                pixel_index(sx_of(regs0, x, w), sy_of(regs0, y, h), w, r, xi),
            )) {
            1u8
        } else {
            0u8
        }),
{
    let sx = sx_of(regs0, x, w);
    let sy = sy_of(regs0, y, h);
    assert(regs1[x] == regs0[x]);
    assert(regs1[y] == regs0[y]);
    // the first draw does not touch the sprite source, so both draws read
    // the same sprite rows and flip the same set of bits
    assert forall|b: int|
        flips_before(mem1, index as int, sx, sy, w, h, n, 0, b) == flips_before(
            mem0,
            index as int,
            sx,
            sy,
            w,
            h,
            n,
            0,
            b,
        ) by {
        if flips_before(mem1, index as int, sx, sy, w, h, n, 0, b) {
            let (r, xi) = choose|r: int, xi: int|
                (r < n || (r == n && xi < 0)) && sprite_pixel_visible(
                    mem1,
                    index as int,
                    sx,
                    sy,
                    w,
                    h,
                    r,
                    xi,
                ) && pixel_index(sx, sy, w, r, xi) == b;
            assert(mem1[index + r] == mem0[index + r]);
            assert((r < n || (r == n && xi < 0)) && sprite_pixel_visible(
                mem0,
                index as int,
                sx,
                sy,
                w,
                h,
                r,
                xi,
            ) && pixel_index(sx, sy, w, r, xi) == b);
        }
        if flips_before(mem0, index as int, sx, sy, w, h, n, 0, b) {
            let (r, xi) = choose|r: int, xi: int|
                (r < n || (r == n && xi < 0)) && sprite_pixel_visible(
                    mem0,
                    index as int,
                    sx,
                    sy,
                    w,
                    h,
                    r,
                    xi,
                ) && pixel_index(sx, sy, w, r, xi) == b;
            assert(mem1[index + r] == mem0[index + r]);
            assert((r < n || (r == n && xi < 0)) && sprite_pixel_visible(
                mem1,
                index as int,
                sx,
                sy,
                w,
                h,
                r,
                xi,
            ) && pixel_index(sx, sy, w, r, xi) == b);
        }
    };
    // flipping a bit twice restores it
    assert forall|b: int| 0 <= b < constants::FRAMEBUFFER_BITS implies fb_bit(mem2, b)
        == fb_bit(mem0, b) by {
        assert((fb_bit(mem1, b) != fb_bit(mem0, b)) == flips_before(
            mem0,
            index as int,
            sx,
            sy,
            w,
            h,
            n,
            0,
            b,
        ));
        assert((fb_bit(mem2, b) != fb_bit(mem1, b)) == flips_before(
            mem1,
            index as int,
            sx,
            sy,
            w,
            h,
            n,
            0,
            b,
        ));
    };
    // equal bits make equal bytes
    assert forall|j: int| 0 <= j < constants::TOTAL_RAM implies mem2[j] == mem0[j] by {
        if j >= constants::DISPLAY_START {
            let base = (j - constants::DISPLAY_START) * 8;
            assert forall|p: u8| p < 8 implies bit_of(mem2[j], p) == bit_of(mem0[j], p) by {
                let b = base + p;
                vstd::arithmetic::div_mod::lemma_fundamental_div_mod_converse(
                    b,
                    8,
                    j - constants::DISPLAY_START,
                    p as int,
                );
                assert(fb_bit(mem2, b) == fb_bit(mem0, b));
            };
            assert(bit_of(mem2[j], 0) == bit_of(mem0[j], 0));
            assert(bit_of(mem2[j], 1) == bit_of(mem0[j], 1));
            assert(bit_of(mem2[j], 2) == bit_of(mem0[j], 2));
            assert(bit_of(mem2[j], 3) == bit_of(mem0[j], 3));
            assert(bit_of(mem2[j], 4) == bit_of(mem0[j], 4));
            assert(bit_of(mem2[j], 5) == bit_of(mem0[j], 5));
            assert(bit_of(mem2[j], 6) == bit_of(mem0[j], 6));
            assert(bit_of(mem2[j], 7) == bit_of(mem0[j], 7));
            lemma_u8_bit_ext(mem2[j], mem0[j]);
        }
    };
    assert(mem2 =~= mem0);
    // the second draw's collision flag: a painted pixel was clear before
    // the first draw exactly when the first draw left it set
    if collides_before(mem1, index as int, sx, sy, w, h, n, 0) {
        let (r, xi) = choose|r: int, xi: int|
            (r < n || (r == n && xi < 0)) && sprite_pixel_visible(
                mem1,
                index as int,
                sx,
                sy,
                w,
                h,
                r,
                xi,
            ) && fb_bit(mem1, pixel_index(sx, sy, w, r, xi));
        assert(mem1[index + r] == mem0[index + r]);
        let b = pixel_index(sx, sy, w, r, xi);
        lemma_pixel_index_range(sx, sy, w, h, r, xi);
        assert((r < n || (r == n && xi < 0)) && sprite_pixel_visible(
            mem0,
            index as int,
            sx,
            sy,
            w,
            h,
            r,
            xi,
        ) && pixel_index(sx, sy, w, r, xi) == b);
        assert(flips_before(mem0, index as int, sx, sy, w, h, n, 0, b));
        assert(fb_bit(mem1, b) != fb_bit(mem0, b));
        assert(r < n && sprite_pixel_visible(mem0, index as int, sx, sy, w, h, r, xi)
            && !fb_bit(mem0, pixel_index(sx, sy, w, r, xi)));
    }
    if exists|r: int, xi: int|
        r < n && sprite_pixel_visible(mem0, index as int, sx, sy, w, h, r, xi) && !fb_bit(
            mem0,
            pixel_index(sx, sy, w, r, xi),
        ) {
        let (r, xi) = choose|r: int, xi: int|
            r < n && sprite_pixel_visible(mem0, index as int, sx, sy, w, h, r, xi)
                && !fb_bit(mem0, pixel_index(sx, sy, w, r, xi));
        assert(mem1[index + r] == mem0[index + r]);
        let b = pixel_index(sx, sy, w, r, xi);
        lemma_pixel_index_range(sx, sy, w, h, r, xi);
        assert((r < n || (r == n && xi < 0)) && sprite_pixel_visible(
            mem0,
            index as int,
            sx,
            sy,
            w,
            h,
            r,
            xi,
        ) && pixel_index(sx, sy, w, r, xi) == b);
        assert(flips_before(mem0, index as int, sx, sy, w, h, n, 0, b));
        assert(fb_bit(mem1, b) != fb_bit(mem0, b));
        assert((r < n || (r == n && xi < 0)) && sprite_pixel_visible(
            mem1,
            index as int,
            sx,
            sy,
            w,
            h,
            r,
            xi,
        ) && fb_bit(mem1, pixel_index(sx, sy, w, r, xi)));
        assert(collides_before(mem1, index as int, sx, sy, w, h, n, 0));
    }
}

/// The horizontal draw origin: register `x` taken modulo the display width.
pub open spec fn sx_of(regs: Seq<u8>, x: int, w: int) -> int {
    (regs[x] as int) % w
}

/// The vertical draw origin: register `y` taken modulo the display height.
pub open spec fn sy_of(regs: Seq<u8>, y: int, h: int) -> int {
    (regs[y] as int) % h
}

/// Memory after a block store: registers 0 through `x` written at
/// consecutive addresses from `base`; every other byte untouched.
pub open spec fn stored_block(mem: Seq<u8>, regs: Seq<u8>, base: int, x: int) -> Seq<u8> {
    Seq::new(
        mem.len(),
        |a: int|
            if base <= a <= base + x {
                regs[a - base]
            } else {
                mem[a]
            },
    )
}

/// Registers after a block load: registers 0 through `x` read from
/// consecutive in-range addresses from `base`; every other register
/// untouched.
pub open spec fn loaded_registers(regs: Seq<u8>, mem: Seq<u8>, base: int, x: int) -> Seq<u8> {
    Seq::new(
        regs.len(),
        |k: int|
            if 0 <= k <= x && base + k < mem.len() {
                mem[base + k]
            } else {
                regs[k]
            },
    )
}

/// Store registers 0 through `x` into memory starting at the index
/// register.  The quirk variant leaves the index register incremented by
/// the count of registers transferred, wrapping on 16 bits; the others
/// leave it unchanged.
pub fn op_FX55(
    interpreter: &Interpreter,
    register: &Register,
    memory: &mut Ram,
    index_register: &mut u16,
    x: u8,
) -> (r: Result<(), ProcessingError>)
    requires
        register.wf(),
        old(memory).wf(),
        x < 16,
    ensures
        final(memory).wf(),
        final(memory)@ == stored_block(
            old(memory)@,
            register@,
            *old(index_register) as int,
            x as int,
        ),
        *old(index_register) + x < constants::TOTAL_RAM ==> r == Ok::<(), ProcessingError>(
            (),
        ),
        *old(index_register) + x >= constants::TOTAL_RAM ==> r == Err::<
            (),
            ProcessingError,
        >(
            ProcessingError::AddressOutOfBounds {
                source: RamError::InvalidAddress(
                    if *old(index_register) >= constants::TOTAL_RAM {
                        *old(index_register) as usize
                    } else {
                        constants::TOTAL_RAM
                    },
                ),
            },
        ),
        r is Ok && *interpreter == Interpreter::CosmacVIP ==> *final(index_register) == (
        *old(index_register) + x + 1) % 0x10000,
        r is Ok && *interpreter != Interpreter::CosmacVIP ==> *final(index_register)
            == *old(index_register),
        r is Err ==> *final(index_register) == *old(index_register),
{
    let base = *index_register as usize;
    let mut i: usize = 0;
    while i <= x as usize
        invariant
            register.wf(),
            memory.wf(),
            old(memory).wf(),
            x < 16,
            i <= x + 1,
            base == *old(index_register),
            *index_register == *old(index_register),
            base + i <= constants::TOTAL_RAM || i == 0,
            forall|a: int|
                base <= a < base + i ==> a < constants::TOTAL_RAM && memory@[a]
                    == register@[a - base],
            forall|a: int|
                0 <= a < constants::TOTAL_RAM && !(base <= a < base + i) ==> memory@[a]
                    == old(memory)@[a],
        decreases x + 1 - i,
    {
        let v = match register.get(i as u8) {
            Ok(v) => v,
            Err(_) => {
                proof {
                    assert(false);
                }
                0
            },
        };
        match memory.set(base + i, v) {
            Ok(()) => {},
            Err(e) => {
                proof {
                    assert(memory@ =~= stored_block(
                        old(memory)@,
                        register@,
                        base as int,
                        x as int,
                    ));
                }
                return Err(ProcessingError::AddressOutOfBounds { source: e });
            },
        }
        i += 1;
    }
    proof {
        assert(memory@ =~= stored_block(old(memory)@, register@, base as int, x as int));
    }
    if let Interpreter::CosmacVIP = interpreter {
        let stepped = (*index_register as u32 + x as u32 + 1) % 0x10000;
        *index_register = stepped as u16;
    }
    Ok(())
}

/// Load registers 0 through `x` from memory starting at the index register.
/// The quirk variant leaves the index register incremented by the count of
/// registers transferred, wrapping on 16 bits; the others leave it
/// unchanged.
pub fn op_FX65(
    interpreter: &Interpreter,
    register: &mut Register,
    memory: &Ram,
    index_register: &mut u16,
    x: u8,
) -> (r: Result<(), ProcessingError>)
    requires
        old(register).wf(),
        memory.wf(),
        x < 16,
    ensures
        final(register).wf(),
        final(register)@ == loaded_registers(
            old(register)@,
            memory@,
            *old(index_register) as int,
            x as int,
        ),
        *old(index_register) + x < constants::TOTAL_RAM ==> r == Ok::<(), ProcessingError>(
            (),
        ),
        *old(index_register) + x >= constants::TOTAL_RAM ==> r == Err::<
            (),
            ProcessingError,
        >(
            ProcessingError::AddressOutOfBounds {
                source: RamError::InvalidAddress(
                    if *old(index_register) >= constants::TOTAL_RAM {
                        *old(index_register) as usize
                    } else {
                        constants::TOTAL_RAM
                    },
                ),
            },
        ),
        r is Ok && *interpreter == Interpreter::CosmacVIP ==> *final(index_register) == (
        *old(index_register) + x + 1) % 0x10000,
        r is Ok && *interpreter != Interpreter::CosmacVIP ==> *final(index_register)
            == *old(index_register),
        r is Err ==> *final(index_register) == *old(index_register),
{
    let base = *index_register as usize;
    let mut i: usize = 0;
    while i <= x as usize
        invariant
            register.wf(),
            old(register).wf(),
            memory.wf(),
            x < 16,
            i <= x + 1,
            base == *old(index_register),
            *index_register == *old(index_register),
            forall|k: int|
                0 <= k < i ==> base + k < constants::TOTAL_RAM && register@[k]
                    == memory@[base + k],
            forall|k: int| i <= k < 16 ==> register@[k] == old(register)@[k],
        decreases x + 1 - i,
    {
        let v = match memory.get(base + i) {
            Ok(v) => v,
            Err(e) => {
                proof {
                    if i > 0 {
                        assert(register@[i - 1] == memory@[base + (i - 1)]);
                    }
                    assert(register@ =~= loaded_registers(
                        old(register)@,
                        memory@,
                        base as int,
                        x as int,
                    ));
                }
                return Err(ProcessingError::AddressOutOfBounds { source: e });
            },
        };
        match register.set(i as u8, v) {
            Ok(()) => {},
            Err(_) => {
                proof {
                    assert(false);
                }
            },
        }
        i += 1;
    }
    proof {
        assert(register@[x as int] == memory@[base + x]);
        assert(register@ =~= loaded_registers(
            old(register)@,
            memory@,
            base as int,
            x as int,
        ));
    }
    if let Interpreter::CosmacVIP = interpreter {
        let stepped = (*index_register as u32 + x as u32 + 1) % 0x10000;
        *index_register = stepped as u16;
    }
    Ok(())
}

/// Draw a sprite of `n` rows, read from memory at the index register, at
/// the origin named by registers `x` and `y` taken modulo the display
/// dimensions.  Each set sprite bit that maps inside the display is XOR-ed
/// into the framebuffer; the flags register reports whether any bit went
/// from set to clear.
#[verifier::rlimit(80)]
pub fn DXYN(
    memory: &mut Ram,
    register: &mut Register,
    index_register: u16,
    window_size: &(usize, usize),
    instruction: InstructionData,
) -> (r: Result<(), ProcessingError>)
    requires
        old(memory).wf(),
        old(register).wf(),
        instruction.x < 16,
        instruction.y < 16,
        0 < window_size.0,
        0 < window_size.1,
        window_size.0 * window_size.1 <= constants::FRAMEBUFFER_BITS,
    ensures
        final(memory).wf(),
        final(register).wf(),
        draw_post(
            old(memory)@,
            old(register)@,
            final(memory)@,
            final(register)@,
            index_register,
            window_size.0 as int,
            window_size.1 as int,
            instruction.x as int,
            instruction.y as int,
            instruction.n as int,
            r,
        ),
{
    let w = window_size.0;
    let h = window_size.1;
    let vx = get_reg(register, instruction.x)?;
    let vy = get_reg(register, instruction.y)?;
    let start_x = vx as usize % w;
    let start_y = vy as usize % h;
    set_reg(register, constants::FLAGS_REGISTER as u8, 0)?;
    let n_rows = instruction.n as usize;
    let ghost sx = (old(register)@[instruction.x as int] as int) % (w as int);
    let ghost sy = (old(register)@[instruction.y as int] as int) % (h as int);
    proof {
        assert(h <= w * h && w <= w * h) by (nonlinear_arith)
            requires
                1 <= w,
                1 <= h,
        ;
    }
    let mut collided = false;
    let mut row: usize = 0;
    while row < n_rows
        invariant
            memory.wf(),
            register.wf(),
            old(memory).wf(),
            old(register).wf(),
            instruction.x < 16,
            instruction.y < 16,
            0 < w,
            0 < h,
            w == window_size.0,
            h == window_size.1,
            w * h <= constants::FRAMEBUFFER_BITS,
            w <= constants::FRAMEBUFFER_BITS,
            h <= constants::FRAMEBUFFER_BITS,
            sx == (old(register)@[instruction.x as int] as int) % (w as int),
            sy == (old(register)@[instruction.y as int] as int) % (h as int),
            0 <= sx < w,
            0 <= sy < h,
            start_x == sx,
            start_y == sy,
            n_rows == instruction.n,
            row <= n_rows,
            row > 0 ==> index_register + row <= constants::TOTAL_RAM,
            register@ == old(register)@.update(constants::FLAGS_REGISTER as int, 0u8),
            forall|j: int|
                0 <= j < constants::DISPLAY_START ==> memory@[j] == old(memory)@[j],
            forall|b: int|
                w * h <= b < constants::FRAMEBUFFER_BITS ==> fb_bit(memory@, b) == fb_bit(
                    old(memory)@,
                    b,
                ),
            index_register + instruction.n <= constants::DISPLAY_START ==> ({
                &&& forall|b: int|
                    0 <= b < constants::FRAMEBUFFER_BITS ==> ((fb_bit(memory@, b) != fb_bit(
                        old(memory)@,
                        b,
                    )) == flips_before(
                        old(memory)@,
                        index_register as int,
                        sx,
                        sy,
                        w as int,
                        h as int,
                        row as int,
                        0,
                        b,
                    ))
                &&& collided == collides_before(
                    old(memory)@,
                    index_register as int,
                    sx,
                    sy,
                    w as int,
                    h as int,
                    row as int,
                    0,
                )
            }),
        decreases n_rows - row,
    {
        let addr = index_register as usize + row;
        let sprite = match memory.get(addr) {
            Ok(s) => s,
            Err(e) => {
                return Err(ProcessingError::AddressOutOfBounds { source: e });
            },
        };
        let screen_y = start_y + row;
        if screen_y < h {
            let mut xi: usize = 0;
            while xi < 8
                invariant
                    memory.wf(),
                    register.wf(),
                    old(memory).wf(),
                    old(register).wf(),
                    instruction.x < 16,
                    instruction.y < 16,
                    0 < w,
                    0 < h,
                    w == window_size.0,
                    h == window_size.1,
                    w * h <= constants::FRAMEBUFFER_BITS,
                    w <= constants::FRAMEBUFFER_BITS,
                    h <= constants::FRAMEBUFFER_BITS,
                    sx == (old(register)@[instruction.x as int] as int) % (w as int),
                    sy == (old(register)@[instruction.y as int] as int) % (h as int),
                    0 <= sx < w,
                    0 <= sy < h,
                    start_x == sx,
                    start_y == sy,
                    n_rows == instruction.n,
                    row < n_rows,
                    xi <= 8,
                    screen_y == sy + row,
                    screen_y < h,
                    index_register + row < constants::TOTAL_RAM,
                    register@ == old(register)@.update(constants::FLAGS_REGISTER as int, 0u8),
                    forall|j: int|
                        0 <= j < constants::DISPLAY_START ==> memory@[j] == old(memory)@[j],
                    forall|b: int|
                        w * h <= b < constants::FRAMEBUFFER_BITS ==> fb_bit(memory@, b)
                            == fb_bit(old(memory)@, b),
                    index_register + instruction.n <= constants::DISPLAY_START ==> sprite
                        == old(memory)@[index_register + row],
                    index_register + instruction.n <= constants::DISPLAY_START ==> ({
                        &&& forall|b: int|
                            0 <= b < constants::FRAMEBUFFER_BITS ==> ((fb_bit(memory@, b)
                                != fb_bit(old(memory)@, b)) == flips_before(
                                old(memory)@,
                                index_register as int,
                                sx,
                                sy,
                                w as int,
                                h as int,
                                row as int,
                                xi as int,
                                b,
                            ))
                        &&& collided == collides_before(
                            old(memory)@,
                            index_register as int,
                            sx,
                            sy,
                            w as int,
                            h as int,
                            row as int,
                            xi as int,
                        )
                    }),
                decreases 8 - xi,
            {
                let col = 7 - xi;
                let screen_x = start_x + col;
                let bit = (sprite >> (xi as u8)) & 1;
                if screen_x < w && bit == 1 {
                    proof {
                        lemma_pixel_index_range(
                            sx,
                            sy,
                            w as int,
                            h as int,
                            row as int,
                            xi as int,
                        );
                    }
                    let b_idx = screen_y * w + screen_x;
                    proof {
                        assert(b_idx == pixel_index(sx, sy, w as int, row as int, xi as int));
                        vstd::arithmetic::div_mod::lemma_fundamental_div_mod(b_idx as int, 8);
                        vstd::arithmetic::div_mod::lemma_mod_bound(b_idx as int, 8);
                    }
                    let byte_idx = constants::DISPLAY_START + b_idx / 8;
                    let bit_pos = (b_idx % 8) as u8;
                    let db = match memory.get(byte_idx) {
                        Ok(v) => v,
                        Err(_) => {
                            proof {
                                assert(false);
                            }
                            0
                        },
                    };
                    if (db >> bit_pos) & 1 == 1 {
                        collided = true;
                    }
                    let ghost prev = memory@;
                    let ghost prev_collided = collided;
                    match memory.set(byte_idx, db ^ (1u8 << bit_pos)) {
                        Ok(()) => {},
                        Err(_) => {
                            proof {
                                assert(false);
                            }
                        },
                    }
                    proof {
                        assert forall|b2: int|
                            0 <= b2 < constants::FRAMEBUFFER_BITS implies fb_bit(memory@, b2)
                            == (if b2 == b_idx {
                            !fb_bit(prev, b2)
                        } else {
                            fb_bit(prev, b2)
                        }) by {
                            lemma_fb_xor_one_bit(prev, b_idx as int, b2);
                        };
                        assert(fb_bit(prev, b_idx as int) == bit_of(db, bit_pos));
                        if index_register + instruction.n <= constants::DISPLAY_START {
                            assert(sprite_pixel_visible(
                                old(memory)@,
                                index_register as int,
                                sx,
                                sy,
                                w as int,
                                h as int,
                                row as int,
                                xi as int,
                            ));
                            lemma_cutoff_advance_visible(
                                old(memory)@,
                                index_register as int,
                                sx,
                                sy,
                                w as int,
                                h as int,
                                row as int,
                                xi as int,
                                b_idx as int,
                            );
                            assert(fb_bit(prev, b_idx as int) == fb_bit(
                                old(memory)@,
                                b_idx as int,
                            ));
                            assert(collided == (prev_collided || fb_bit(
                                old(memory)@,
                                b_idx as int,
                            )));
                        }
                    }
                } else {
                    proof {
                        if index_register + instruction.n <= constants::DISPLAY_START {
                            assert(!sprite_pixel_visible(
                                old(memory)@,
                                index_register as int,
                                sx,
                                sy,
                                w as int,
                                h as int,
                                row as int,
                                xi as int,
                            ));
                            lemma_cutoff_advance_invisible(
                                old(memory)@,
                                index_register as int,
                                sx,
                                sy,
                                w as int,
                                h as int,
                                row as int,
                                xi as int,
                            );
                        }
                    }
                }
                xi += 1;
            }
            proof {
                if index_register + instruction.n <= constants::DISPLAY_START {
                    assert forall|b: int|
                        0 <= b < constants::FRAMEBUFFER_BITS implies ((fb_bit(memory@, b)
                        != fb_bit(old(memory)@, b)) == flips_before(
                        old(memory)@,
                        index_register as int,
                        sx,
                        sy,
                        w as int,
                        h as int,
                        row as int + 1,
                        0,
                        b,
                    )) by {
                        lemma_cutoff_roll(
                            old(memory)@,
                            index_register as int,
                            sx,
                            sy,
                            w as int,
                            h as int,
                            row as int,
                            b,
                        );
                    };
                    lemma_cutoff_roll(
                        old(memory)@,
                        index_register as int,
                        sx,
                        sy,
                        w as int,
                        h as int,
                        row as int,
                        0,
                    );
                }
            }
        } else {
            proof {
                if index_register + instruction.n <= constants::DISPLAY_START {
                    lemma_cutoff_advance_clipped_row(
                        old(memory)@,
                        index_register as int,
                        sx,
                        sy,
                        w as int,
                        h as int,
                        row as int,
                    );
                }
            }
        }
        row += 1;
    }
    let flag: u8 = if collided {
        1
    } else {
        0
    };
    let res = set_reg(register, constants::FLAGS_REGISTER as u8, flag);
    proof {
        assert(register@ =~= old(register)@.update(constants::FLAGS_REGISTER as int, flag));
    }
    res
}

} // verus!
