//! Whole-machine scenarios driven through `Emulator::run`.

use chip8rs::emulator::Emulator;
use chip8rs::emulator::EmulatorError;
use chip8rs::emulator::KeyPad;
use chip8rs::mem::Rom;

fn machine(program: Vec<u8>) -> Emulator {
    let rom = Rom::load(program).unwrap();
    Emulator::start(rom, (64, 32))
}

#[test]
fn jump_sets_pc_and_nothing_else() {
    // first instruction jumps to 0x210; after one step the program counter
    // is exactly 0x210 and no other state is mutated
    let mut emu = machine(vec![0x12, 0x10]);
    let event = emu.run().unwrap();
    assert_eq!(event.unknown_opcode, None);
    assert!(!event.start_tone);
    assert_eq!(emu.program_counter(), 0x210);
    for x in 0..16u8 {
        assert_eq!(emu.register_value(x).unwrap(), 0);
    }
    assert_eq!(emu.index_value(), 0);
    assert_eq!(emu.delay_value(), 0);
    assert_eq!(emu.sound_value(), 0);
    for y in 0..32 {
        for x in 0..64 {
            assert!(!emu.pixel(x, y));
        }
    }
}

#[test]
fn fresh_machine_layout() {
    let emu = machine(vec![0xAB, 0xCD]);
    // font table at the base of memory
    assert_eq!(emu.memory_value(0).unwrap(), 0xF0);
    assert_eq!(emu.memory_value(4).unwrap(), 0xF0);
    assert_eq!(emu.memory_value(79).unwrap(), 0x80);
    // zero fill between font and program
    assert_eq!(emu.memory_value(80).unwrap(), 0);
    assert_eq!(emu.memory_value(0x1FF).unwrap(), 0);
    // program at the load offset
    assert_eq!(emu.memory_value(0x200).unwrap(), 0xAB);
    assert_eq!(emu.memory_value(0x201).unwrap(), 0xCD);
    assert_eq!(emu.memory_value(0x202).unwrap(), 0);
    assert_eq!(emu.program_counter(), 0x200);
}

#[test]
fn call_then_return_restores_pc() {
    // 0x200: call 0x204; 0x202: no-op; 0x204: return
    let mut emu = machine(vec![0x22, 0x04, 0x00, 0x00, 0x00, 0xEE]);
    emu.run().unwrap();
    assert_eq!(emu.program_counter(), 0x204);
    emu.run().unwrap();
    // back at the instruction after the call
    assert_eq!(emu.program_counter(), 0x202);
}

#[test]
fn return_on_empty_stack_is_typed_failure() {
    let mut emu = machine(vec![0x00, 0xEE]);
    let err = emu.run().unwrap_err();
    assert!(matches!(err, EmulatorError::OpError { op_code: 0x00EE, .. }));
}

#[test]
fn fetch_past_end_of_memory_is_typed_failure() {
    // jump to the last byte of memory: the second fetch byte is out of range
    let mut emu = machine(vec![0x1F, 0xFF]);
    emu.run().unwrap();
    assert_eq!(emu.program_counter(), 0xFFF);
    let err = emu.run().unwrap_err();
    assert!(matches!(err, EmulatorError::PCInvalid { .. }));
}

#[test]
fn draw_from_out_of_range_sprite_address_is_rendering_failure() {
    // point the index register at the last byte, then draw five rows
    let mut emu = machine(vec![0xAF, 0xFF, 0xD0, 0x15]);
    emu.run().unwrap();
    assert_eq!(emu.index_value(), 0xFFF);
    let err = emu.run().unwrap_err();
    assert!(matches!(err, EmulatorError::RenderingFailed { op_code: 0xD015, .. }));
}

#[test]
fn unknown_opcode_is_reported_and_skipped() {
    let mut emu = machine(vec![0x01, 0x23, 0x60, 0x07]);
    let event = emu.run().unwrap();
    assert_eq!(event.unknown_opcode, Some(0x0123));
    // execution proceeds to the next instruction
    let event = emu.run().unwrap();
    assert_eq!(event.unknown_opcode, None);
    assert_eq!(emu.register_value(0).unwrap(), 0x07);
}

#[test]
fn add_with_carry_through_machine() {
    // V0 = 0xFE, V1 = 0x02, add V1 into V0 with carry
    let mut emu = machine(vec![0x60, 0xFE, 0x61, 0x02, 0x80, 0x14]);
    emu.run().unwrap();
    emu.run().unwrap();
    emu.run().unwrap();
    assert_eq!(emu.register_value(0).unwrap(), 0x00);
    assert_eq!(emu.register_value(15).unwrap(), 1);
}

#[test]
fn skip_if_equal_immediate() {
    // V0 = 5; skip next if V0 == 5; the skipped instruction would set V1
    let mut emu = machine(vec![0x60, 0x05, 0x30, 0x05, 0x61, 0xFF, 0x61, 0x01]);
    emu.run().unwrap();
    emu.run().unwrap();
    assert_eq!(emu.program_counter(), 0x206);
    emu.run().unwrap();
    assert_eq!(emu.register_value(1).unwrap(), 0x01);
}

#[test]
fn skip_if_not_equal_immediate_no_skip() {
    let mut emu = machine(vec![0x60, 0x05, 0x40, 0x05, 0x61, 0xFF]);
    emu.run().unwrap();
    emu.run().unwrap();
    assert_eq!(emu.program_counter(), 0x204);
    emu.run().unwrap();
    assert_eq!(emu.register_value(1).unwrap(), 0xFF);
}

#[test]
fn clear_screen_zeroes_framebuffer() {
    // draw the zero glyph at (0, 0), then clear the screen
    let mut emu = machine(vec![0xA0, 0x00, 0xD0, 0x05, 0x00, 0xE0]);
    emu.run().unwrap();
    emu.run().unwrap();
    assert!(emu.pixel(0, 0));
    emu.run().unwrap();
    for y in 0..32 {
        for x in 0..64 {
            assert!(!emu.pixel(x, y));
        }
    }
}

#[test]
fn sound_timer_start_tone_transition() {
    // V0 = 3, set sound timer from V0
    let mut emu = machine(vec![0x60, 0x03, 0xF0, 0x18]);
    emu.run().unwrap();
    let event = emu.run().unwrap();
    assert!(event.start_tone);
    assert_eq!(emu.sound_value(), 3);
    // decrementing: 3 -> 2 -> 1 -> 0, then saturates and signals stop
    assert!(!emu.beep());
    assert!(!emu.beep());
    assert!(!emu.beep());
    assert_eq!(emu.sound_value(), 0);
    assert!(emu.beep());
    assert_eq!(emu.sound_value(), 0);
}

#[test]
fn delay_timer_saturates_at_zero() {
    let mut emu = machine(vec![0x00, 0x00]);
    assert_eq!(emu.delay_value(), 0);
    emu.tick_delay();
    assert_eq!(emu.delay_value(), 0);
}

#[test]
fn delay_timer_set_tick_and_read() {
    // V0 = 2; delay = V0; tick; V1 = delay
    let mut emu = machine(vec![0x60, 0x02, 0xF0, 0x15, 0xF1, 0x07]);
    emu.run().unwrap();
    emu.run().unwrap();
    assert_eq!(emu.delay_value(), 2);
    emu.tick_delay();
    assert_eq!(emu.delay_value(), 1);
    emu.run().unwrap();
    assert_eq!(emu.register_value(1).unwrap(), 1);
}

#[test]
fn key_wait_rewinds_until_release() {
    // FX0A with no release pending re-executes; with a release it stores it
    let mut emu = machine(vec![0xF0, 0x0A]);
    emu.run().unwrap();
    assert_eq!(emu.program_counter(), 0x200);
    emu.run().unwrap();
    assert_eq!(emu.program_counter(), 0x200);
    let mut keypad = KeyPad::new();
    keypad.set_released(Some(0x7));
    emu.set_keypad(keypad);
    emu.run().unwrap();
    assert_eq!(emu.program_counter(), 0x202);
    assert_eq!(emu.register_value(0).unwrap(), 0x7);
}

#[test]
fn skip_if_key_held() {
    // V0 = 4; skip next if key 4 held
    let mut emu = machine(vec![0x60, 0x04, 0xE0, 0x9E, 0x61, 0xFF, 0x61, 0x01]);
    let mut keypad = KeyPad::new();
    keypad.set_key(0x4, true);
    emu.set_keypad(keypad);
    emu.run().unwrap();
    emu.run().unwrap();
    assert_eq!(emu.program_counter(), 0x206);
    emu.run().unwrap();
    assert_eq!(emu.register_value(1).unwrap(), 0x01);
}

#[test]
fn skip_if_key_not_held() {
    let mut emu = machine(vec![0x60, 0x04, 0xE0, 0xA1, 0x61, 0xFF]);
    emu.run().unwrap();
    emu.run().unwrap();
    assert_eq!(emu.program_counter(), 0x206);
}

#[test]
fn random_masked_by_zero_is_zero() {
    // CXNN with mask 0 always stores zero, whatever byte was drawn
    let mut emu = machine(vec![0x60, 0x55, 0xC0, 0x00]);
    emu.run().unwrap();
    emu.run().unwrap();
    assert_eq!(emu.register_value(0).unwrap(), 0);
}

#[test]
fn random_respects_mask() {
    let mut emu = machine(vec![0xC0, 0x0F]);
    emu.run().unwrap();
    assert_eq!(emu.register_value(0).unwrap() & 0xF0, 0);
}

#[test]
fn shift_quirk_follows_selected_variant() {
    // V1 = 5; shift into V0: the default variant shifts V0 in place
    let mut emu = machine(vec![0x61, 0x05, 0x80, 0x16]);
    emu.run().unwrap();
    emu.run().unwrap();
    assert_eq!(emu.register_value(0).unwrap(), 0);
    assert_eq!(emu.register_value(15).unwrap(), 0);

    // the quirk variant first copies V1 into V0
    let mut emu = machine(vec![0x61, 0x05, 0x80, 0x16]);
    emu.set_interpreter(chip8rs::emulator::Interpreter::CosmacVIP);
    emu.run().unwrap();
    emu.run().unwrap();
    assert_eq!(emu.register_value(0).unwrap(), 2);
    assert_eq!(emu.register_value(15).unwrap(), 1);
}

#[test]
fn block_transfer_round_trip_through_machine() {
    // V0..V2 = 1,2,3; I = 0x400; store; clear V0..V2; load back
    let mut emu = machine(vec![
        0x60, 0x01, 0x61, 0x02, 0x62, 0x03, 0xA4, 0x00, 0xF2, 0x55, 0x60, 0x00, 0x61,
        0x00, 0x62, 0x00, 0xF2, 0x65,
    ]);
    for _ in 0..9 {
        emu.run().unwrap();
    }
    assert_eq!(emu.memory_value(0x400).unwrap(), 1);
    assert_eq!(emu.memory_value(0x401).unwrap(), 2);
    assert_eq!(emu.memory_value(0x402).unwrap(), 3);
    assert_eq!(emu.register_value(0).unwrap(), 1);
    assert_eq!(emu.register_value(1).unwrap(), 2);
    assert_eq!(emu.register_value(2).unwrap(), 3);
    // the default variant leaves the index register unchanged
    assert_eq!(emu.index_value(), 0x400);
}

#[test]
fn rom_longer_than_available_memory_is_rejected() {
    let oversized = vec![0u8; 0xD01];
    match Rom::load(oversized) {
        Err(chip8rs::mem::RomError::OutOfMemory { rom_size, ram_size }) => {
            assert_eq!(rom_size, 0xD01);
            assert_eq!(ram_size, 0xD00);
        },
        Ok(_) => panic!("oversized program accepted"),
    }
}

#[test]
fn rom_at_capacity_is_accepted() {
    let rom = Rom::load(vec![7u8; 0xD00]).unwrap();
    assert_eq!(rom.len(), 0xD00);
    assert_eq!(rom.data()[0], 7);
}
