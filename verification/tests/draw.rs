//! Sprite compositing, decoding, and the framebuffer view.

use chip8rs::emulator::InstructionData;
use chip8rs::emulator::ProgramCounter;
use chip8rs::mem::Ram;
use chip8rs::mem::Register;
use chip8rs::mem::Rom;
use chip8rs::process;

const DISPLAY: (usize, usize) = (64, 32);

fn empty_ram() -> Ram {
    Ram::load(Rom::load(Vec::new()).unwrap(), &[])
}

fn pixel(ram: &Ram, x: usize, y: usize) -> bool {
    ram.framebuffer_bit(y * 64 + x)
}

#[test]
fn decode_extracts_every_field() {
    let d = InstructionData::decode(0xABCD);
    assert_eq!(d.op_code, 0xABCD);
    assert_eq!(d.instruction, 0xA000);
    assert_eq!(d.x, 0xB);
    assert_eq!(d.y, 0xC);
    assert_eq!(d.n, 0xD);
    assert_eq!(d.nn, 0xCD);
    assert_eq!(d.nnn, 0xBCD);
}

#[test]
fn fetch_is_high_byte_first() {
    let mut ram = empty_ram();
    ram.set(0x200, 0x12).unwrap();
    ram.set(0x201, 0x34).unwrap();
    let pc = ProgramCounter::new(0x200);
    assert_eq!(ram.op_code(&pc).unwrap(), 0x1234);
    let bad = ProgramCounter::new(0xFFF);
    assert!(ram.op_code(&bad).is_err());
}

#[test]
fn draw_paints_sprite_bits_msb_leftmost() {
    let mut ram = empty_ram();
    ram.set(0x300, 0b1010_0001).unwrap();
    let mut reg = Register::new();
    // origin (0, 0), one row
    process::DXYN(&mut ram, &mut reg, 0x300, &DISPLAY, InstructionData::decode(0xD011))
        .unwrap();
    assert!(pixel(&ram, 0, 0));
    assert!(!pixel(&ram, 1, 0));
    assert!(pixel(&ram, 2, 0));
    assert!(!pixel(&ram, 3, 0));
    assert!(pixel(&ram, 7, 0));
    assert!(!pixel(&ram, 8, 0));
    assert!(!pixel(&ram, 0, 1));
    // nothing painted: no collision
    assert_eq!(reg.get(15).unwrap(), 0);
}

#[test]
fn draw_origin_is_taken_modulo_display_size() {
    let mut ram = empty_ram();
    ram.set(0x300, 0b1000_0000).unwrap();
    let mut reg = Register::new();
    reg.set(0, 64).unwrap();
    reg.set(1, 32).unwrap();
    process::DXYN(&mut ram, &mut reg, 0x300, &DISPLAY, InstructionData::decode(0xD011))
        .unwrap();
    assert!(pixel(&ram, 0, 0));
}

#[test]
fn double_draw_restores_framebuffer_and_reports_collision() {
    let mut ram = empty_ram();
    ram.set(0x300, 0xFF).unwrap();
    ram.set(0x301, 0x81).unwrap();
    let mut reg = Register::new();
    reg.set(0, 5).unwrap();
    reg.set(1, 6).unwrap();
    let d = InstructionData::decode(0xD012);
    process::DXYN(&mut ram, &mut reg, 0x300, &DISPLAY, d).unwrap();
    assert_eq!(reg.get(15).unwrap(), 0);
    assert!(pixel(&ram, 5, 6));
    assert!(pixel(&ram, 12, 7));
    process::DXYN(&mut ram, &mut reg, 0x300, &DISPLAY, d).unwrap();
    // the flags register reports the erasure, and every pixel is back
    assert_eq!(reg.get(15).unwrap(), 1);
    for y in 0..32 {
        for x in 0..64 {
            assert!(!pixel(&ram, x, y));
        }
    }
}

#[test]
fn draw_clips_at_right_and_bottom_edges() {
    let mut ram = empty_ram();
    ram.set(0x300, 0xFF).unwrap();
    ram.set(0x301, 0xFF).unwrap();
    ram.set(0x302, 0xFF).unwrap();
    let mut reg = Register::new();
    reg.set(0, 60).unwrap();
    reg.set(1, 30).unwrap();
    process::DXYN(&mut ram, &mut reg, 0x300, &DISPLAY, InstructionData::decode(0xD013))
        .unwrap();
    // the in-bounds quarter of the sprite is painted
    for y in 30..32 {
        for x in 60..64 {
            assert!(pixel(&ram, x, y));
        }
    }
    // clipped columns do not wrap to the left edge
    for y in 30..32 {
        for x in 0..4 {
            assert!(!pixel(&ram, x, y));
        }
    }
    // clipped rows do not wrap to the top
    for x in 60..64 {
        assert!(!pixel(&ram, x, 0));
    }
    // all other pixels are untouched
    for y in 0..30 {
        for x in 0..64 {
            assert!(!pixel(&ram, x, y));
        }
    }
}

#[test]
fn overlapping_draws_set_collision_only_on_erasure() {
    let mut ram = empty_ram();
    ram.set(0x300, 0b1100_0000).unwrap();
    ram.set(0x310, 0b0110_0000).unwrap();
    let mut reg = Register::new();
    let d = InstructionData::decode(0xD011);
    process::DXYN(&mut ram, &mut reg, 0x300, &DISPLAY, d).unwrap();
    assert_eq!(reg.get(15).unwrap(), 0);
    process::DXYN(&mut ram, &mut reg, 0x310, &DISPLAY, d).unwrap();
    // the shared column was erased
    assert_eq!(reg.get(15).unwrap(), 1);
    assert!(pixel(&ram, 0, 0));
    assert!(!pixel(&ram, 1, 0));
    assert!(pixel(&ram, 2, 0));
}

#[test]
fn reset_vram_clears_only_the_framebuffer_region() {
    let mut ram = empty_ram();
    ram.set(0x300, 0x55).unwrap();
    ram.set(0xF00, 0xAA).unwrap();
    ram.set(0xFFF, 0xAA).unwrap();
    ram.reset_vram();
    assert_eq!(ram.get(0x300).unwrap(), 0x55);
    assert_eq!(ram.get(0xF00).unwrap(), 0);
    assert_eq!(ram.get(0xFFF).unwrap(), 0);
}

#[test]
fn memory_access_is_bounds_checked() {
    let mut ram = empty_ram();
    assert!(ram.get(0x1000).is_err());
    assert!(ram.set(0x1000, 1).is_err());
    assert_eq!(ram.get(0xFFF).unwrap(), 0);
}
