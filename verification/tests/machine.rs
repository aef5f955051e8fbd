use chipolata::chip8::Interpreter;
use chipolata::error::Chip8Error;

fn boot(rom: &[u8]) -> Interpreter {
    Interpreter::new(rom.to_vec())
}

fn keys_with(pressed: &[usize]) -> [bool; 16] {
    let mut keys = [false; 16];
    for &k in pressed {
        keys[k] = true;
    }
    keys
}

#[test]
fn immediate_load_sets_register() {
    // 6A02: load 0x02 into register A
    let mut it = boot(&[0x6A, 0x02]);
    it.step().unwrap();
    assert_eq!(it.cpu.registers.v[0xA], 0x02);
    assert_eq!(it.cpu.registers.pc, 0x202);
}

#[test]
fn index_set() {
    // A2F0: load 0x2F0 into the index register
    let mut it = boot(&[0xA2, 0xF0]);
    it.step().unwrap();
    assert_eq!(it.cpu.registers.i, 0x2F0);
}

#[test]
fn add_with_carry_wraps_and_sets_flag() {
    // vA = 200, vB = 100, vA += vB: 300 wraps to 44, flag 1
    let mut it = boot(&[0x6A, 0xC8, 0x6B, 0x64, 0x8A, 0xB4]);
    it.step().unwrap();
    it.step().unwrap();
    it.step().unwrap();
    assert_eq!(it.cpu.registers.v[0xA], 44);
    assert_eq!(it.cpu.registers.v[0xF], 1);
}

#[test]
fn add_without_carry_clears_flag() {
    // vA = 5, vB = 3, vA += vB: 8, flag 0
    let mut it = boot(&[0x6A, 0x05, 0x6B, 0x03, 0x8A, 0xB4]);
    it.step().unwrap();
    it.step().unwrap();
    it.step().unwrap();
    assert_eq!(it.cpu.registers.v[0xA], 8);
    assert_eq!(it.cpu.registers.v[0xF], 0);
}

#[test]
fn subtract_reverse_wraps_with_no_borrow_flag() {
    // v5 = 5, v3 = 3, 8537: v5 = v3 - v5 = -2 wrapped to 0xFE, flag 0
    let mut it = boot(&[0x65, 0x05, 0x63, 0x03, 0x85, 0x37]);
    it.step().unwrap();
    it.step().unwrap();
    it.step().unwrap();
    assert_eq!(it.cpu.registers.v[5], 0xFE);
    assert_eq!(it.cpu.registers.v[0xF], 0);
}

#[test]
fn subtract_direct_sets_flag_when_larger() {
    // v5 = 5, v3 = 3, 8535: v5 = 5 - 3 = 2, flag 1 (no borrow)
    let mut it = boot(&[0x65, 0x05, 0x63, 0x03, 0x85, 0x35]);
    it.step().unwrap();
    it.step().unwrap();
    it.step().unwrap();
    assert_eq!(it.cpu.registers.v[5], 2);
    assert_eq!(it.cpu.registers.v[0xF], 1);
}

#[test]
fn bcd_decomposition_of_255() {
    // v0 = 255, i = 0x300, F033 writes 2, 5, 5
    let mut it = boot(&[0x60, 0xFF, 0xA3, 0x00, 0xF0, 0x33]);
    it.step().unwrap();
    it.step().unwrap();
    it.step().unwrap();
    assert_eq!(it.cpu.read_byte(0x300).unwrap(), 2);
    assert_eq!(it.cpu.read_byte(0x301).unwrap(), 5);
    assert_eq!(it.cpu.read_byte(0x302).unwrap(), 5);
}

#[test]
fn draw_twice_toggles_off_and_collides() {
    // i = 0x050 (font glyph 0, top row 0xF0), draw an 8x1 sprite at (0, 0)
    // twice: first draw lights four pixels without collision, second draw
    // clears them and reports the collision.
    let mut it = boot(&[0xA0, 0x50, 0x60, 0x00, 0x61, 0x00, 0xD0, 0x11, 0xD0, 0x11]);
    it.step().unwrap();
    it.step().unwrap();
    it.step().unwrap();
    it.step().unwrap();
    assert!(it.should_redraw());
    let vram = it.get_vram();
    assert_eq!(&vram[0..8], &[1, 1, 1, 1, 0, 0, 0, 0]);
    assert_eq!(it.cpu.registers.v[0xF], 0);
    it.step().unwrap();
    let vram = it.get_vram();
    assert_eq!(&vram[0..8], &[0, 0, 0, 0, 0, 0, 0, 0]);
    assert!(vram.iter().all(|&p| p == 0));
    assert_eq!(it.cpu.registers.v[0xF], 1);
}

#[test]
fn draw_wraps_around_screen_edge() {
    // draw the 0xF0 row at x = 62: columns 62, 63, 0, 1 light up
    let mut it = boot(&[0xA0, 0x50, 0x60, 0x3E, 0x61, 0x00, 0xD0, 0x11]);
    for _ in 0..4 {
        it.step().unwrap();
    }
    let vram = it.get_vram();
    assert_eq!(vram[62], 1);
    assert_eq!(vram[63], 1);
    assert_eq!(vram[0], 1);
    assert_eq!(vram[1], 1);
    assert_eq!(vram[2], 0);
}

#[test]
fn key_wait_holds_until_key_pressed() {
    // F10A: wait for a key, storing its index into v1
    let mut it = boot(&[0xF1, 0x0A]);
    it.step().unwrap();
    assert_eq!(it.cpu.registers.pc, 0x202);
    it.step().unwrap();
    it.step().unwrap();
    assert_eq!(it.cpu.registers.pc, 0x202);
    it.update_keypad(keys_with(&[5]));
    it.step().unwrap();
    assert_eq!(it.cpu.registers.pc, 0x204);
    assert_eq!(it.cpu.registers.v[1], 5);
    // the wait is over: further keys go unnoticed by the wait machinery
    it.update_keypad(keys_with(&[]));
}

#[test]
fn key_wait_picks_lowest_pressed_index() {
    let mut it = boot(&[0xF0, 0x0A]);
    it.step().unwrap();
    it.update_keypad(keys_with(&[9, 3, 12]));
    it.step().unwrap();
    assert_eq!(it.cpu.registers.v[0], 3);
}

#[test]
fn reset_is_idempotent() {
    let rom = vec![0x6A, 0x02, 0xA2, 0xF0, 0x00, 0xE0];
    let mut it = Interpreter::new(rom);
    it.step().unwrap();
    it.step().unwrap();
    it.reset();
    let vram_once = it.get_vram();
    let regs_once = it.cpu.registers.v;
    let pc_once = it.cpu.registers.pc;
    let mut ram_once = Vec::new();
    for a in 0..4096u16 {
        ram_once.push(it.cpu.read_byte(a).unwrap());
    }
    it.reset();
    assert_eq!(it.get_vram(), vram_once);
    assert_eq!(it.cpu.registers.v, regs_once);
    assert_eq!(it.cpu.registers.pc, pc_once);
    assert_eq!(it.cpu.registers.pc, 0x200);
    for a in 0..4096u16 {
        assert_eq!(it.cpu.read_byte(a).unwrap(), ram_once[a as usize]);
    }
}

#[test]
fn store_then_load_restores_registers() {
    // v0..v3 = 9, 8, 7, 6; store 0..=3 at 0x300; clobber; load back
    let mut it = boot(&[
        0x60, 0x09, 0x61, 0x08, 0x62, 0x07, 0x63, 0x06, // set registers
        0xA3, 0x00, // i = 0x300
        0xF3, 0x55, // store v0..=v3
        0x60, 0x00, 0x61, 0x00, 0x62, 0x00, 0x63, 0x00, // clobber
        0xF3, 0x65, // load v0..=v3
    ]);
    for _ in 0..11 {
        it.step().unwrap();
    }
    assert_eq!(it.cpu.registers.v[0], 9);
    assert_eq!(it.cpu.registers.v[1], 8);
    assert_eq!(it.cpu.registers.v[2], 7);
    assert_eq!(it.cpu.registers.v[3], 6);
    // the stored bytes really reached memory
    assert_eq!(it.cpu.read_byte(0x300).unwrap(), 9);
    assert_eq!(it.cpu.read_byte(0x303).unwrap(), 6);
}

#[test]
fn clear_screen_marks_dirty() {
    let mut it = boot(&[0x00, 0xE0, 0x6A, 0x01]);
    it.step().unwrap();
    assert!(it.should_redraw());
    assert!(it.get_vram().iter().all(|&p| p == 0));
    it.step().unwrap();
    assert!(!it.should_redraw());
}

#[test]
fn jump_sets_program_counter() {
    let mut it = boot(&[0x13, 0x00]);
    it.step().unwrap();
    assert_eq!(it.cpu.registers.pc, 0x300);
}

#[test]
fn call_and_return_round_trip() {
    // 2206: call 0x206; at 0x206: 00EE returns to 0x202
    let mut it = boot(&[0x22, 0x06, 0x00, 0x00, 0x00, 0x00, 0x00, 0xEE]);
    it.step().unwrap();
    assert_eq!(it.cpu.registers.pc, 0x206);
    it.step().unwrap();
    assert_eq!(it.cpu.registers.pc, 0x202);
}

#[test]
fn skip_if_equal_immediate() {
    let mut it = boot(&[0x60, 0x07, 0x30, 0x07, 0x00, 0x00, 0x6A, 0x01]);
    it.step().unwrap();
    it.step().unwrap();
    assert_eq!(it.cpu.registers.pc, 0x206);
    it.step().unwrap();
    assert_eq!(it.cpu.registers.v[0xA], 1);
}

#[test]
fn skip_if_not_equal_immediate_not_taken() {
    let mut it = boot(&[0x60, 0x07, 0x40, 0x07, 0x6A, 0x01]);
    it.step().unwrap();
    it.step().unwrap();
    assert_eq!(it.cpu.registers.pc, 0x204);
}

#[test]
fn skip_register_compares() {
    // v0 = 1, v1 = 1: 5010 skips; then 9230 (v2 == v3 == 0) does not skip
    let mut it = boot(&[0x60, 0x01, 0x61, 0x01, 0x50, 0x10, 0x00, 0x00, 0x92, 0x30, 0x6A, 0x01]);
    it.step().unwrap();
    it.step().unwrap();
    it.step().unwrap();
    assert_eq!(it.cpu.registers.pc, 0x208);
    it.step().unwrap();
    assert_eq!(it.cpu.registers.pc, 0x20A);
    it.step().unwrap();
    assert_eq!(it.cpu.registers.v[0xA], 1);
}

#[test]
fn add_immediate_wraps_without_flag() {
    // vF = 7 first, then v0 = 0xFF + 2 wraps to 1 and leaves vF alone
    let mut it = boot(&[0x6F, 0x07, 0x60, 0xFF, 0x70, 0x02]);
    it.step().unwrap();
    it.step().unwrap();
    it.step().unwrap();
    assert_eq!(it.cpu.registers.v[0], 1);
    assert_eq!(it.cpu.registers.v[0xF], 7);
}

#[test]
fn alu_bitwise_ops() {
    // v0 = 0b1100, v1 = 0b1010
    let mut it = boot(&[0x60, 0x0C, 0x61, 0x0A, 0x80, 0x11]);
    it.step().unwrap();
    it.step().unwrap();
    it.step().unwrap();
    assert_eq!(it.cpu.registers.v[0], 0x0E);
    let mut it = boot(&[0x60, 0x0C, 0x61, 0x0A, 0x80, 0x12]);
    for _ in 0..3 {
        it.step().unwrap();
    }
    assert_eq!(it.cpu.registers.v[0], 0x08);
    let mut it = boot(&[0x60, 0x0C, 0x61, 0x0A, 0x80, 0x13]);
    for _ in 0..3 {
        it.step().unwrap();
    }
    assert_eq!(it.cpu.registers.v[0], 0x06);
}

#[test]
fn shift_right_captures_low_bit() {
    let mut it = boot(&[0x60, 0x05, 0x80, 0x06]);
    it.step().unwrap();
    it.step().unwrap();
    assert_eq!(it.cpu.registers.v[0], 2);
    assert_eq!(it.cpu.registers.v[0xF], 1);
}

#[test]
fn shift_left_captures_high_bit() {
    let mut it = boot(&[0x60, 0x81, 0x80, 0x0E]);
    it.step().unwrap();
    it.step().unwrap();
    assert_eq!(it.cpu.registers.v[0], 2);
    assert_eq!(it.cpu.registers.v[0xF], 1);
}

#[test]
fn jump_with_offset_uses_register_zero() {
    let mut it = boot(&[0x60, 0x04, 0xB3, 0x00]);
    it.step().unwrap();
    it.step().unwrap();
    assert_eq!(it.cpu.registers.pc, 0x304);
}

#[test]
fn random_masked_with_zero_is_zero() {
    // C000: random byte AND 0 must be 0, whatever the generator produced
    let mut it = boot(&[0x60, 0x55, 0xC0, 0x00]);
    it.step().unwrap();
    it.step().unwrap();
    assert_eq!(it.cpu.registers.v[0], 0);
}

#[test]
fn random_respects_mask() {
    let mut it = boot(&[0xC0, 0x0F]);
    it.step().unwrap();
    assert!(it.cpu.registers.v[0] <= 0x0F);
}

#[test]
fn timers_decrement_and_clamp_at_zero() {
    // delay = sound = 2
    let mut it = boot(&[0x60, 0x02, 0xF0, 0x15, 0xF0, 0x18]);
    it.step().unwrap();
    it.step().unwrap();
    it.step().unwrap();
    assert!(it.should_beep());
    it.update_timers();
    assert_eq!(it.cpu.registers.delay, 1);
    assert_eq!(it.cpu.registers.sound, 1);
    it.update_timers();
    it.update_timers();
    it.update_timers();
    assert_eq!(it.cpu.registers.delay, 0);
    assert_eq!(it.cpu.registers.sound, 0);
    assert!(!it.should_beep());
}

#[test]
fn read_delay_timer_into_register() {
    let mut it = boot(&[0x60, 0x09, 0xF0, 0x15, 0xF5, 0x07]);
    it.step().unwrap();
    it.step().unwrap();
    it.step().unwrap();
    assert_eq!(it.cpu.registers.v[5], 9);
}

#[test]
fn font_address_for_digit() {
    // v0 = 3: i = 0x050 + 3 * 5 = 0x05F
    let mut it = boot(&[0x60, 0x03, 0xF0, 0x29]);
    it.step().unwrap();
    it.step().unwrap();
    assert_eq!(it.cpu.registers.i, 0x05F);
    // glyph 3 top row
    assert_eq!(it.cpu.read_byte(0x05F).unwrap(), 0xF0);
}

#[test]
fn index_add_sets_flag_over_threshold() {
    // i = 0xEFF, v0 = 2: i = 0xF01 > 0xF00 sets the flag
    let mut it = boot(&[0xAE, 0xFF, 0x60, 0x02, 0xF0, 0x1E]);
    for _ in 0..3 {
        it.step().unwrap();
    }
    assert_eq!(it.cpu.registers.i, 0xF01);
    assert_eq!(it.cpu.registers.v[0xF], 1);
    // i = 0x500, v0 = 0x10: under the threshold the flag is 0
    let mut it = boot(&[0xA5, 0x00, 0x60, 0x10, 0xF0, 0x1E]);
    for _ in 0..3 {
        it.step().unwrap();
    }
    assert_eq!(it.cpu.registers.i, 0x510);
    assert_eq!(it.cpu.registers.v[0xF], 0);
}

#[test]
fn skip_if_key_pressed_and_not_pressed() {
    // v0 = 4; E09E skips only when key 4 is down, E0A1 when it is not
    let mut it = boot(&[0x60, 0x04, 0xE0, 0x9E, 0x6A, 0x01, 0xE0, 0xA1, 0x6B, 0x01]);
    it.update_keypad(keys_with(&[4]));
    it.step().unwrap();
    it.step().unwrap();
    assert_eq!(it.cpu.registers.pc, 0x206);
    it.step().unwrap();
    assert_eq!(it.cpu.registers.pc, 0x208);
    it.step().unwrap();
    assert_eq!(it.cpu.registers.v[0xB], 1);
}

#[test]
fn assign_register_to_register() {
    let mut it = boot(&[0x61, 0x2A, 0x80, 0x10]);
    it.step().unwrap();
    it.step().unwrap();
    assert_eq!(it.cpu.registers.v[0], 0x2A);
}

#[test]
fn load_rom_replaces_program() {
    let mut it = boot(&[0x6A, 0x01]);
    it.step().unwrap();
    assert_eq!(it.cpu.registers.v[0xA], 1);
    it.load_rom(vec![0x6B, 0x09]);
    assert_eq!(it.cpu.registers.pc, 0x200);
    assert_eq!(it.cpu.registers.v[0xA], 0);
    it.step().unwrap();
    assert_eq!(it.cpu.registers.v[0xB], 9);
}

#[test]
fn fetch_instruction_reads_current_opcode() {
    let it = boot(&[0x6A, 0x02]);
    assert_eq!(it.cpu.fetch_instruction().unwrap(), 0x6A02);
}

#[test]
fn unsupported_opcode_is_reported_with_pc() {
    let mut it = boot(&[0x00, 0x00]);
    let e = it.step().unwrap_err();
    assert_eq!(e, Chip8Error::UnsupportedOpcode { opcode: 0x0000, pc: 0x200 });
    // the machine is untouched and inspectable: pc still points at the fault
    assert_eq!(it.cpu.registers.pc, 0x200);
}

#[test]
fn unsupported_alu_and_misc_patterns() {
    let mut it = boot(&[0x80, 0x18]);
    assert_eq!(
        it.step().unwrap_err(),
        Chip8Error::UnsupportedOpcode { opcode: 0x8018, pc: 0x200 }
    );
    let mut it = boot(&[0x50, 0x11]);
    assert_eq!(
        it.step().unwrap_err(),
        Chip8Error::UnsupportedOpcode { opcode: 0x5011, pc: 0x200 }
    );
    let mut it = boot(&[0xF0, 0xFF]);
    assert_eq!(
        it.step().unwrap_err(),
        Chip8Error::UnsupportedOpcode { opcode: 0xF0FF, pc: 0x200 }
    );
    let mut it = boot(&[0xE0, 0x00]);
    assert_eq!(
        it.step().unwrap_err(),
        Chip8Error::UnsupportedOpcode { opcode: 0xE000, pc: 0x200 }
    );
}

#[test]
fn stack_underflow_on_return_without_call() {
    let mut it = boot(&[0x00, 0xEE]);
    assert_eq!(it.step().unwrap_err(), Chip8Error::StackUnderflow);
}

#[test]
fn stack_overflow_after_sixteen_calls() {
    // 2200 calls 0x200 forever: sixteen calls fit, the seventeenth faults
    let mut it = boot(&[0x22, 0x00]);
    for _ in 0..16 {
        it.step().unwrap();
    }
    assert_eq!(it.step().unwrap_err(), Chip8Error::StackOverflow);
    assert_eq!(it.cpu.registers.pc, 0x200);
}

#[test]
fn bcd_write_out_of_range_faults() {
    // i = 0xFFF: the three-byte write runs past the address space
    let mut it = boot(&[0xAF, 0xFF, 0x60, 0x07, 0xF0, 0x33]);
    it.step().unwrap();
    it.step().unwrap();
    assert_eq!(
        it.step().unwrap_err(),
        Chip8Error::OutOfRangeAccess { addr: 0x1000 }
    );
}

#[test]
fn fetch_out_of_range_faults() {
    // jump to 0xFFF: the two-byte fetch runs past the address space
    let mut it = boot(&[0x1F, 0xFF]);
    it.step().unwrap();
    assert_eq!(
        it.step().unwrap_err(),
        Chip8Error::OutOfRangeAccess { addr: 0x1000 }
    );
}

#[test]
fn key_test_with_bad_register_value_faults() {
    // v0 = 16 names no key
    let mut it = boot(&[0x60, 0x10, 0xE0, 0x9E]);
    it.step().unwrap();
    assert_eq!(it.step().unwrap_err(), Chip8Error::InvalidKey { key: 16 });
}

#[test]
fn draw_with_sprite_past_end_of_memory_faults() {
    // i = 0xFFF: a one-row sprite still fits, a two-row sprite does not
    let mut it = boot(&[0xAF, 0xFF, 0x60, 0x00, 0x61, 0x00, 0xD0, 0x12]);
    it.step().unwrap();
    it.step().unwrap();
    it.step().unwrap();
    assert_eq!(
        it.step().unwrap_err(),
        Chip8Error::OutOfRangeAccess { addr: 0x1000 }
    );
    let mut it = boot(&[0xAF, 0xFF, 0x60, 0x00, 0x61, 0x00, 0xD0, 0x11]);
    for _ in 0..4 {
        it.step().unwrap();
    }
}

#[test]
fn register_store_past_end_of_memory_faults() {
    // i = 0xFFF: storing v0..=v1 would write 0x1000
    let mut it = boot(&[0xAF, 0xFF, 0xF1, 0x55]);
    it.step().unwrap();
    assert_eq!(
        it.step().unwrap_err(),
        Chip8Error::OutOfRangeAccess { addr: 0x1000 }
    );
    // storing v0 alone still fits
    let mut it = boot(&[0xAF, 0xFF, 0x60, 0x42, 0xF0, 0x55]);
    for _ in 0..3 {
        it.step().unwrap();
    }
    assert_eq!(it.cpu.read_byte(0xFFF).unwrap(), 0x42);
}

#[test]
fn fresh_machine_state() {
    let it = boot(&[]);
    assert_eq!(it.cpu.registers.pc, 0x200);
    assert_eq!(it.cpu.registers.sp, 0);
    assert_eq!(it.cpu.registers.i, 0);
    assert!(!it.should_beep());
    assert!(!it.should_redraw());
    let vram = it.get_vram();
    assert_eq!(vram.len(), 64 * 32);
    assert!(vram.iter().all(|&p| p == 0));
}
