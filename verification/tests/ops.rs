//! Per-opcode handlers driven directly on the architectural components.

use chip8rs::emulator::Interpreter;
use chip8rs::emulator::ProgramCounter;
use chip8rs::mem::AddressStack;
use chip8rs::mem::Ram;
use chip8rs::mem::Register;
use chip8rs::mem::RegisterError;
use chip8rs::mem::Rom;
use chip8rs::process;

fn empty_ram() -> Ram {
    Ram::load(Rom::load(Vec::new()).unwrap(), &[])
}

fn reg_with(values: &[(u8, u8)]) -> Register {
    let mut reg = Register::new();
    for &(x, v) in values {
        reg.set(x, v).unwrap();
    }
    reg
}

#[test]
fn add_with_carry_wraps_and_sets_flag() {
    // V0 = 0xFE, V1 = 0x02: sum wraps to 0x00 and the flags register is 1
    let mut reg = reg_with(&[(0, 0xFE), (1, 0x02)]);
    process::op_8XY4(&mut reg, 0, 1).unwrap();
    assert_eq!(reg.get(0).unwrap(), 0x00);
    assert_eq!(reg.get(15).unwrap(), 1);
}

#[test]
fn add_without_carry_clears_flag() {
    let mut reg = reg_with(&[(2, 10), (3, 20), (15, 1)]);
    process::op_8XY4(&mut reg, 2, 3).unwrap();
    assert_eq!(reg.get(2).unwrap(), 30);
    assert_eq!(reg.get(15).unwrap(), 0);
}

#[test]
fn subtract_flag_is_one_iff_no_borrow() {
    let mut reg = reg_with(&[(0, 5), (1, 3)]);
    process::op_8XY5(&mut reg, 0, 1).unwrap();
    assert_eq!(reg.get(0).unwrap(), 2);
    assert_eq!(reg.get(15).unwrap(), 1);

    let mut reg = reg_with(&[(0, 3), (1, 5)]);
    process::op_8XY5(&mut reg, 0, 1).unwrap();
    assert_eq!(reg.get(0).unwrap(), 254);
    assert_eq!(reg.get(15).unwrap(), 0);

    // equal operands: no borrow occurred
    let mut reg = reg_with(&[(0, 7), (1, 7)]);
    process::op_8XY5(&mut reg, 0, 1).unwrap();
    assert_eq!(reg.get(0).unwrap(), 0);
    assert_eq!(reg.get(15).unwrap(), 1);
}

#[test]
fn subtract_reversed_flag_is_one_iff_no_borrow() {
    let mut reg = reg_with(&[(0, 3), (1, 5)]);
    process::op_8XY7(&mut reg, 0, 1).unwrap();
    assert_eq!(reg.get(0).unwrap(), 2);
    assert_eq!(reg.get(15).unwrap(), 1);

    let mut reg = reg_with(&[(0, 5), (1, 3)]);
    process::op_8XY7(&mut reg, 0, 1).unwrap();
    assert_eq!(reg.get(0).unwrap(), 254);
    assert_eq!(reg.get(15).unwrap(), 0);
}

#[test]
fn bcd_decomposition_writes_digits_most_significant_first() {
    // register value 234 writes bytes 2, 3, 4 at index, index+1, index+2
    let mut ram = empty_ram();
    let reg = reg_with(&[(3, 234)]);
    process::op_FX33(&reg, &mut ram, 3, 0x300).unwrap();
    assert_eq!(ram.get(0x300).unwrap(), 2);
    assert_eq!(ram.get(0x301).unwrap(), 3);
    assert_eq!(ram.get(0x302).unwrap(), 4);
}

#[test]
fn bcd_out_of_range_index_leaves_memory_untouched() {
    let mut ram = empty_ram();
    let reg = reg_with(&[(0, 7)]);
    assert!(process::op_FX33(&reg, &mut ram, 0, 0xFFE).is_err());
    assert_eq!(ram.get(0xFFE).unwrap(), 0);
    assert_eq!(ram.get(0xFFF).unwrap(), 0);
}

#[test]
fn immediate_add_wraps_without_touching_flags() {
    let mut reg = reg_with(&[(4, 0xFF), (15, 9)]);
    process::op_7XNN(&mut reg, 4, 2).unwrap();
    assert_eq!(reg.get(4).unwrap(), 1);
    assert_eq!(reg.get(15).unwrap(), 9);
}

#[test]
fn bitwise_ops() {
    let mut reg = reg_with(&[(0, 0b1100), (1, 0b1010)]);
    process::op_8XY1(&mut reg, 0, 1).unwrap();
    assert_eq!(reg.get(0).unwrap(), 0b1110);

    let mut reg = reg_with(&[(0, 0b1100), (1, 0b1010)]);
    process::op_8XY2(&mut reg, 0, 1).unwrap();
    assert_eq!(reg.get(0).unwrap(), 0b1000);

    let mut reg = reg_with(&[(0, 0b1100), (1, 0b1010)]);
    process::op_8XY3(&mut reg, 0, 1).unwrap();
    assert_eq!(reg.get(0).unwrap(), 0b0110);
}

#[test]
fn shift_right_variants() {
    // the quirk variant copies register y into x before shifting
    let mut reg = reg_with(&[(0, 0xFF), (1, 0x05)]);
    process::op_8XY6(&Interpreter::CosmacVIP, &mut reg, 0, 1).unwrap();
    assert_eq!(reg.get(0).unwrap(), 2);
    assert_eq!(reg.get(15).unwrap(), 1);

    // the others shift x in place and never read y
    let mut reg = reg_with(&[(0, 0x04), (1, 0x05)]);
    process::op_8XY6(&Interpreter::SuperChip, &mut reg, 0, 1).unwrap();
    assert_eq!(reg.get(0).unwrap(), 2);
    assert_eq!(reg.get(15).unwrap(), 0);
}

#[test]
fn shift_left_variants() {
    let mut reg = reg_with(&[(0, 0x01), (1, 0x81)]);
    process::op_8XYE(&Interpreter::CosmacVIP, &mut reg, 0, 1).unwrap();
    assert_eq!(reg.get(0).unwrap(), 0x02);
    assert_eq!(reg.get(15).unwrap(), 1);

    let mut reg = reg_with(&[(0, 0x81), (1, 0x01)]);
    process::op_8XYE(&Interpreter::Chip48, &mut reg, 0, 1).unwrap();
    assert_eq!(reg.get(0).unwrap(), 0x02);
    assert_eq!(reg.get(15).unwrap(), 1);
}

#[test]
fn block_store_and_index_policy() {
    // store V0..=V2; the quirk variant advances the index by the count
    let mut ram = empty_ram();
    let reg = reg_with(&[(0, 11), (1, 22), (2, 33)]);
    let mut index: u16 = 0x400;
    process::op_FX55(&Interpreter::SuperChip, &reg, &mut ram, &mut index, 2).unwrap();
    assert_eq!(index, 0x400);
    assert_eq!(ram.get(0x400).unwrap(), 11);
    assert_eq!(ram.get(0x401).unwrap(), 22);
    assert_eq!(ram.get(0x402).unwrap(), 33);
    assert_eq!(ram.get(0x403).unwrap(), 0);

    let mut index: u16 = 0x500;
    process::op_FX55(&Interpreter::CosmacVIP, &reg, &mut ram, &mut index, 2).unwrap();
    assert_eq!(index, 0x503);
}

#[test]
fn block_load_and_index_policy() {
    let mut ram = empty_ram();
    ram.set(0x400, 7).unwrap();
    ram.set(0x401, 8).unwrap();
    let mut reg = reg_with(&[(2, 99), (3, 44)]);
    let mut index: u16 = 0x400;
    process::op_FX65(&Interpreter::SuperChip, &mut reg, &ram, &mut index, 1).unwrap();
    assert_eq!(reg.get(0).unwrap(), 7);
    assert_eq!(reg.get(1).unwrap(), 8);
    assert_eq!(reg.get(2).unwrap(), 99);
    assert_eq!(index, 0x400);

    let mut index: u16 = 0x400;
    process::op_FX65(&Interpreter::CosmacVIP, &mut reg, &ram, &mut index, 1).unwrap();
    assert_eq!(index, 0x402);
}

#[test]
fn block_store_out_of_range_reports_address() {
    let mut ram = empty_ram();
    let reg = reg_with(&[(0, 1), (1, 2), (2, 3), (3, 4)]);
    let mut index: u16 = 0xFFE;
    let err = process::op_FX55(&Interpreter::SuperChip, &reg, &mut ram, &mut index, 3);
    assert!(err.is_err());
    assert_eq!(index, 0xFFE);
    // the in-range prefix was written before the failure was detected
    assert_eq!(ram.get(0xFFE).unwrap(), 1);
    assert_eq!(ram.get(0xFFF).unwrap(), 2);
}

#[test]
fn font_glyph_address_is_five_times_value() {
    let reg = reg_with(&[(0, 0xA)]);
    let mut index: u16 = 0;
    process::op_FX29(&reg, &mut index, 0).unwrap();
    assert_eq!(index, 50);
}

#[test]
fn add_to_index_wraps_on_16_bits() {
    let reg = reg_with(&[(0, 2)]);
    let mut index: u16 = 0xFFFF;
    process::op_FX1E(&reg, 0, &mut index).unwrap();
    assert_eq!(index, 1);
}

#[test]
fn jump_with_offset_variants() {
    let reg = reg_with(&[(0, 0x10), (5, 0x20)]);
    let mut pc = ProgramCounter::new(0);
    process::op_BNNN(&Interpreter::CosmacVIP, &reg, &mut pc, 5, 0x300).unwrap();
    assert_eq!(*pc.inner(), 0x310);

    let mut pc = ProgramCounter::new(0);
    process::op_BNNN(&Interpreter::SuperChip, &reg, &mut pc, 5, 0x300).unwrap();
    assert_eq!(*pc.inner(), 0x320);
}

#[test]
fn call_and_return_via_stack() {
    let mut stack = AddressStack::default();
    let mut pc = ProgramCounter::new(0x202);
    process::op_2NNN(&mut stack, &mut pc, 0x400);
    assert_eq!(*pc.inner(), 0x400);
    process::op_00EE(&mut pc, &mut stack).unwrap();
    assert_eq!(*pc.inner(), 0x202);
    // the stack is balanced again: another return fails
    assert!(process::op_00EE(&mut pc, &mut stack).is_err());
}

#[test]
fn register_index_out_of_range_is_reported() {
    let mut reg = Register::new();
    assert_eq!(reg.get(16), Err(RegisterError::InvalidAddress(16)));
    assert_eq!(reg.set(255, 1), Err(RegisterError::InvalidAddress(255)));
    assert!(reg.set_x_y(0, 16).is_err());
    assert!(reg.cmp_registers(16, 0).is_err());
    let err = process::op_6XNN(&mut reg, 16, 5);
    assert!(err.is_err());
}

#[test]
fn register_copy_and_compare() {
    let mut reg = reg_with(&[(1, 9)]);
    reg.set_x_y(0, 1).unwrap();
    assert_eq!(reg.get(0).unwrap(), 9);
    assert!(reg.cmp_registers(0, 1).unwrap());
    reg.set(1, 8).unwrap();
    assert!(!reg.cmp_registers(0, 1).unwrap());
}

#[test]
fn program_counter_wraps_modulo_memory_size() {
    let mut pc = ProgramCounter::new(0xFFE);
    pc.increment();
    assert_eq!(*pc.inner(), 0);
    pc.decrement();
    assert_eq!(*pc.inner(), 0xFFE);
    let mut pc = ProgramCounter::new(0);
    pc.decrement();
    assert_eq!(*pc.inner(), 0xFFE);
}

#[test]
fn timer_ops_on_components() {
    let mut reg = reg_with(&[(6, 42)]);
    let mut delay: u8 = 0;
    process::op_FX15(&mut reg, 6, &mut delay).unwrap();
    assert_eq!(delay, 42);
    process::op_FX07(&mut reg, 7, &delay).unwrap();
    assert_eq!(reg.get(7).unwrap(), 42);

    let mut sound: u8 = 0;
    let started = process::op_FX18(&mut reg, 6, &mut sound).unwrap();
    assert!(started);
    assert_eq!(sound, 42);
    // already running: no new start-tone transition
    let started = process::op_FX18(&mut reg, 6, &mut sound).unwrap();
    assert!(!started);
}
