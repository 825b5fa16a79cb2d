use chip8::chip::Chip;
use chip8::chip::Error;
use chip8::chip::ProgramCounter;

fn no_keys() -> Vec<bool> {
    vec![false; 16]
}

#[test]
fn set_reg_round_trip() {
    let mut c = Chip::new();
    for x in 0..16u8 {
        let r = c.op_6xkk(x, 0xAB);
        assert_eq!(r, ProgramCounter::Next);
        assert_eq!(c.v[x as usize], 0xAB);
    }
}

#[test]
fn add_with_carry() {
    let mut c = Chip::new();
    c.op_6xkk(0, 0xFF);
    c.op_6xkk(1, 0x01);
    c.op_8xy4(0, 1);
    assert_eq!(c.v[0], 0x00);
    assert_eq!(c.v[15], 1);

    let mut c = Chip::new();
    c.op_6xkk(0, 0x01);
    c.op_6xkk(1, 0x01);
    c.op_8xy4(0, 1);
    assert_eq!(c.v[0], 0x02);
    assert_eq!(c.v[15], 0);
}

#[test]
fn sub_not_borrow() {
    let mut c = Chip::new();
    c.op_6xkk(0, 0x05);
    c.op_6xkk(1, 0x03);
    c.op_8xy5(0, 1);
    assert_eq!(c.v[0], 0x02);
    assert_eq!(c.v[15], 1);

    let mut c = Chip::new();
    c.op_6xkk(0, 0x03);
    c.op_6xkk(1, 0x05);
    c.op_8xy5(0, 1);
    assert_eq!(c.v[0], 0xFE);
    assert_eq!(c.v[15], 0);
}

#[test]
fn sub_reverse_direction() {
    let mut c = Chip::new();
    c.op_6xkk(0, 0x03);
    c.op_6xkk(1, 0x05);
    c.op_8xy7(0, 1);
    assert_eq!(c.v[0], 0x02);
    assert_eq!(c.v[15], 1);
}

#[test]
fn shift_right_sets_vf() {
    let mut c = Chip::new();
    c.op_6xkk(0, 0b0000_0011);
    c.op_8xy6(0);
    assert_eq!(c.v[0], 0b0000_0001);
    assert_eq!(c.v[15], 1);

    let mut c = Chip::new();
    c.op_6xkk(0, 0b0000_0100);
    c.op_8xy6(0);
    assert_eq!(c.v[0], 0b0000_0010);
    assert_eq!(c.v[15], 0);
}

#[test]
fn shift_left_sets_vf() {
    let mut c = Chip::new();
    c.op_6xkk(0, 0b1000_0001);
    c.op_8xye(0);
    assert_eq!(c.v[0], 0b0000_0010);
    assert_eq!(c.v[15], 1);
}

#[test]
fn draw_twice_clears_and_reports_collision() {
    let mut c = Chip::new();
    c.load_rom(&[0xFF]).unwrap();
    c.op_annn(0x200);
    c.op_6xkk(0, 0);
    c.op_6xkk(1, 0);
    c.op_dxyn(0, 1, 1);
    for px in 0..8 {
        assert_eq!(c.display[px], 1);
    }
    assert_eq!(c.display[8], 0);
    assert_eq!(c.v[15], 0);
    c.op_dxyn(0, 1, 1);
    for k in 0..(64 * 32) {
        assert_eq!(c.display[k], 0);
    }
    assert_eq!(c.v[15], 1);
}

#[test]
fn draw_wraps_around_edges() {
    let mut c = Chip::new();
    c.load_rom(&[0x80]).unwrap();
    c.op_annn(0x200);
    c.op_6xkk(0, 63);
    c.op_6xkk(1, 31);
    c.op_dxyn(0, 1, 1);
    assert_eq!(c.display[31 * 64 + 63], 1);
}

#[test]
fn timers_count_down_once_per_frame_and_stop_at_zero() {
    let mut c = Chip::new();
    c.load_rom(&[0x12, 0x00]).unwrap();
    c.op_6xkk(0, 2);
    c.op_fx15(0);
    assert_eq!(c.dt, 2);
    c.frame(no_keys()).unwrap();
    assert_eq!(c.dt, 1);
    c.frame(no_keys()).unwrap();
    assert_eq!(c.dt, 0);
    c.frame(no_keys()).unwrap();
    assert_eq!(c.dt, 0);
}

#[test]
fn tone_follows_sound_timer() {
    let mut c = Chip::new();
    assert!(!c.tone());
    c.op_6xkk(0, 2);
    c.op_fx18(0);
    assert_eq!(c.st, 2);
    assert!(c.tone());
}

#[test]
fn blocking_key_wait() {
    let mut c = Chip::new();
    // F50A: wait for a key into V5; 1202: jump-to-self afterwards.
    c.load_rom(&[0xF5, 0x0A, 0x12, 0x02]).unwrap();
    c.frame(no_keys()).unwrap();
    assert!(c.input_wait);
    assert_eq!(c.pc, 0x200);
    assert_eq!(c.v[5], 0);
    c.frame(no_keys()).unwrap();
    assert!(c.input_wait);
    assert_eq!(c.pc, 0x200);
    assert_eq!(c.v[5], 0);
    let mut keys = no_keys();
    keys[7] = true;
    c.frame(keys).unwrap();
    assert!(!c.input_wait);
    assert_eq!(c.v[5], 7);
    assert_eq!(c.pc, 0x202);
    c.frame(no_keys()).unwrap();
}

#[test]
fn rom_exactly_filling_memory_loads() {
    let mut c = Chip::new();
    let rom = vec![0xAAu8; 0x1000 - 0x200];
    assert!(c.load_rom(&rom).is_ok());
    assert_eq!(c.memory[0x200], 0xAA);
    assert_eq!(c.memory[0xFFF], 0xAA);
}

#[test]
fn rom_one_byte_too_large_fails() {
    let mut c = Chip::new();
    let rom = vec![0xAAu8; 0x1000 - 0x200 + 1];
    assert_eq!(c.load_rom(&rom), Err(Error::RomTooLarge(0x1000 - 0x200 + 1)));
    assert_eq!(c.memory[0x200], 0);
}

#[test]
fn rom_loads_at_base_address() {
    let mut c = Chip::new();
    c.load_rom(&[1, 2, 3]).unwrap();
    assert_eq!(c.memory[0x200], 1);
    assert_eq!(c.memory[0x201], 2);
    assert_eq!(c.memory[0x202], 3);
    assert_eq!(c.memory[0x1FF], 0);
}

#[test]
fn register_block_store_copies_inclusive_range() {
    let mut c = Chip::new();
    c.op_6xkk(0, 10);
    c.op_6xkk(1, 20);
    c.op_6xkk(2, 30);
    c.op_6xkk(3, 40);
    c.op_6xkk(4, 50);
    c.op_annn(0x300);
    c.op_fx55(3);
    assert_eq!(c.memory[0x300], 10);
    assert_eq!(c.memory[0x301], 20);
    assert_eq!(c.memory[0x302], 30);
    assert_eq!(c.memory[0x303], 40);
    assert_eq!(c.memory[0x304], 0);
}

#[test]
fn register_block_load_copies_inclusive_range() {
    let mut c = Chip::new();
    c.op_6xkk(0, 10);
    c.op_6xkk(1, 20);
    c.op_6xkk(2, 30);
    c.op_6xkk(3, 40);
    c.op_annn(0x300);
    c.op_fx55(3);
    let mut c2 = Chip::new();
    c2.op_6xkk(4, 99);
    for j in 0..4 {
        c2.memory[0x300 + j] = c.memory[0x300 + j];
    }
    c2.op_annn(0x300);
    c2.op_fx65(3);
    assert_eq!(c2.v[0], 10);
    assert_eq!(c2.v[1], 20);
    assert_eq!(c2.v[2], 30);
    assert_eq!(c2.v[3], 40);
    assert_eq!(c2.v[4], 99);
}

#[test]
fn invalid_opcode_is_fatal() {
    let mut c = Chip::new();
    c.load_rom(&[0x00, 0x00]).unwrap();
    assert_eq!(c.frame(no_keys()), Err(Error::InvalidOperation(0x00, 0x00)));
}

#[test]
fn misaligned_jump_faults_at_fetch() {
    let mut c = Chip::new();
    assert!(c.exec(0x1FFF).is_ok());
    assert_eq!(c.pc, 0xFFF);
    assert_eq!(c.frame(no_keys()), Err(Error::PcOutOfBounds(0xFFF)));
}

#[test]
fn random_masked_by_zero_is_zero() {
    let mut c = Chip::new();
    c.op_6xkk(2, 0x55);
    c.op_cxkk(2, 0x00);
    assert_eq!(c.v[2], 0);
    c.op_cxkk(3, 0x0F);
    assert!(c.v[3] <= 0x0F);
}

#[test]
fn bcd_decomposition() {
    let mut c = Chip::new();
    c.op_6xkk(0, 234);
    c.op_annn(0x400);
    c.op_fx33(0);
    assert_eq!(c.memory[0x400], 2);
    assert_eq!(c.memory[0x401], 3);
    assert_eq!(c.memory[0x402], 4);
}

#[test]
fn font_glyph_address_and_data() {
    let mut c = Chip::new();
    c.op_6xkk(0, 0x0A);
    c.op_fx29(0);
    assert_eq!(c.i, 50);
    assert_eq!(c.memory[0], 0xF0);
    assert_eq!(c.memory[79], 0x90);
}

#[test]
fn clear_display() {
    let mut c = Chip::new();
    c.load_rom(&[0xFF]).unwrap();
    c.op_annn(0x200);
    c.op_dxyn(0, 1, 1);
    assert_eq!(c.display[0], 1);
    let r = c.op_00e0();
    assert_eq!(r, ProgramCounter::Next);
    for k in 0..(64 * 32) {
        assert_eq!(c.display[k], 0);
    }
}

#[test]
fn call_and_return() {
    let mut c = Chip::new();
    assert!(c.exec(0x2400).is_ok());
    assert_eq!(c.pc, 0x400);
    assert_eq!(c.sp, 1);
    assert_eq!(c.stack[0], 0x202);
    assert!(c.exec(0x00EE).is_ok());
    assert_eq!(c.pc, 0x202);
    assert_eq!(c.sp, 0);
}

#[test]
fn return_with_empty_stack_is_invalid() {
    let mut c = Chip::new();
    assert_eq!(c.exec(0x00EE), Err(Error::InvalidOperation(0x00, 0xEE)));
}

#[test]
fn call_past_sixteen_levels_is_invalid() {
    let mut c = Chip::new();
    for _ in 0..16 {
        assert!(c.exec(0x2200).is_ok());
    }
    assert_eq!(c.sp, 16);
    assert_eq!(c.exec(0x2200), Err(Error::InvalidOperation(0x22, 0x00)));
}

#[test]
fn conditional_skips() {
    let mut c = Chip::new();
    c.op_6xkk(0, 5);
    assert!(c.exec(0x3005).is_ok());
    assert_eq!(c.pc, 0x204);
    assert!(c.exec(0x3006).is_ok());
    assert_eq!(c.pc, 0x206);
    assert!(c.exec(0x4006).is_ok());
    assert_eq!(c.pc, 0x20A);
}

#[test]
fn key_skip_instructions() {
    let mut c = Chip::new();
    c.op_6xkk(0, 7);
    c.input_keys[7] = true;
    assert_eq!(c.op_ex9e(0), ProgramCounter::Skip);
    assert_eq!(c.op_exal(0), ProgramCounter::Next);
    c.input_keys[7] = false;
    assert_eq!(c.op_ex9e(0), ProgramCounter::Next);
    assert_eq!(c.op_exal(0), ProgramCounter::Skip);
}

#[test]
fn index_add_sets_overflow_flag() {
    let mut c = Chip::new();
    c.op_annn(0xF01);
    c.op_6xkk(0, 0xFF);
    c.op_fx1e(0);
    assert_eq!(c.i, 0x1000);
    assert_eq!(c.v[15], 1);

    let mut c = Chip::new();
    c.op_annn(0x100);
    c.op_6xkk(0, 0x01);
    c.op_fx1e(0);
    assert_eq!(c.i, 0x101);
    assert_eq!(c.v[15], 0);
}

#[test]
fn jump_with_offset() {
    let mut c = Chip::new();
    c.op_6xkk(0, 4);
    assert_eq!(c.op_bnnn(0x300), ProgramCounter::Jump(0x304));
}

#[test]
fn delay_timer_read_back() {
    let mut c = Chip::new();
    c.op_6xkk(0, 42);
    c.op_fx15(0);
    c.op_fx07(3);
    assert_eq!(c.v[3], 42);
}

#[test]
fn display_getter_exposes_bitmap() {
    let c = Chip::new();
    let d = c.disp();
    assert_eq!(d.len(), 64 * 32);
    assert!(d.iter().all(|p| *p == 0));
}

#[test]
fn bitwise_register_ops() {
    let mut c = Chip::new();
    c.op_6xkk(0, 0b1100);
    c.op_6xkk(1, 0b1010);
    c.op_8xy1(0, 1);
    assert_eq!(c.v[0], 0b1110);
    c.op_6xkk(0, 0b1100);
    c.op_8xy2(0, 1);
    assert_eq!(c.v[0], 0b1000);
    c.op_6xkk(0, 0b1100);
    c.op_8xy3(0, 1);
    assert_eq!(c.v[0], 0b0110);
}

#[test]
fn add_literal_wraps_without_flag() {
    let mut c = Chip::new();
    c.op_6xkk(0, 0xFF);
    c.op_6xkk(15, 9);
    c.op_7xkk(0, 0x02);
    assert_eq!(c.v[0], 0x01);
    assert_eq!(c.v[15], 9);
}
