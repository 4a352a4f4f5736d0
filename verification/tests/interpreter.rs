use chip8::machine::Chip8;
use chip8::Chip8Error;

fn machine_with(rom: &[u8]) -> Chip8 {
    let mut m = Chip8::new();
    m.load_rom(&rom.to_vec());
    m
}

const FONT: [u8; 80] = [
    0xF0, 0x90, 0x90, 0x90, 0xF0, 0x20, 0x60, 0x20, 0x20, 0x70, 0xF0, 0x10, 0xF0, 0x80, 0xF0,
    0xF0, 0x10, 0xF0, 0x10, 0xF0, 0x90, 0x90, 0xF0, 0x10, 0x10, 0xF0, 0x80, 0xF0, 0x10, 0xF0,
    0xF0, 0x80, 0xF0, 0x90, 0xF0, 0xF0, 0x10, 0x20, 0x40, 0x40, 0xF0, 0x90, 0xF0, 0x90, 0xF0,
    0xF0, 0x90, 0xF0, 0x10, 0xF0, 0xF0, 0x90, 0xF0, 0x90, 0x90, 0xE0, 0x90, 0xE0, 0x90, 0xE0,
    0xF0, 0x80, 0x80, 0x80, 0xF0, 0xE0, 0x90, 0x90, 0x90, 0xE0, 0xF0, 0x80, 0xF0, 0x80, 0xF0,
    0xF0, 0x80, 0xF0, 0x80, 0x80,
];

#[test]
fn initial_state() {
    let m = Chip8::new();
    assert_eq!(m.width(), 64);
    assert_eq!(m.height(), 32);
    assert_eq!(m.program_counter(), 0x200);
    assert_eq!(m.stack_pointer(), 0);
    assert_eq!(m.index_register(), 0);
    assert_eq!(m.delay_timer(), 0);
    assert_eq!(m.sound_timer(), 0);
    for r in 0..16u8 {
        assert_eq!(m.register(r), 0);
    }
    let d = m.display();
    assert_eq!(d.len(), 2048);
    assert!(d.iter().all(|&p| !p));
    for a in 0..80u16 {
        assert_eq!(m.memory_byte(a), FONT[a as usize]);
    }
    for a in 80..4096u16 {
        assert_eq!(m.memory_byte(a), 0);
    }
}

#[test]
fn load_rom_resets_and_copies() {
    let mut m = Chip8::new();
    m.load_rom(&vec![0x60, 0x07]);
    m.step().unwrap();
    assert_eq!(m.register(0), 7);
    // Reloading starts over: the old program and register state are gone.
    m.load_rom(&vec![0x12, 0x00]);
    assert_eq!(m.register(0), 0);
    assert_eq!(m.program_counter(), 0x200);
    assert_eq!(m.memory_byte(0x200), 0x12);
    assert_eq!(m.memory_byte(0x201), 0x00);
    assert_eq!(m.memory_byte(0x202), 0);
}

#[test]
fn load_rom_largest_fit() {
    let mut m = Chip8::new();
    let rom = vec![0xABu8; 4096 - 0x200];
    m.load_rom(&rom);
    assert_eq!(m.memory_byte(0x200), 0xAB);
    assert_eq!(m.memory_byte(4095), 0xAB);
}

#[test]
fn clear_screen_clears_everything() {
    // Draw one font row at (0, 0) — I is 0, memory[0] is 0xF0 — then 00E0.
    let mut m = machine_with(&[0xD0, 0x11, 0x00, 0xE0]);
    m.step().unwrap();
    assert!(m.display().iter().any(|&p| p));
    m.step().unwrap();
    assert!(m.display().iter().all(|&p| !p));
}

#[test]
fn call_then_return_restores_pc_and_sp() {
    // 0x200: call 0x300; 0x300: return.
    let mut rom = vec![0u8; 0x102];
    rom[0] = 0x23;
    rom[1] = 0x00;
    rom[0x100] = 0x00;
    rom[0x101] = 0xEE;
    let mut m = machine_with(&rom);
    assert_eq!(m.stack_pointer(), 0);
    m.step().unwrap();
    assert_eq!(m.program_counter(), 0x300);
    assert_eq!(m.stack_pointer(), 1);
    m.step().unwrap();
    assert_eq!(m.program_counter(), 0x202);
    assert_eq!(m.stack_pointer(), 0);
}

#[test]
fn add_with_carry_wraps_and_sets_flag() {
    let mut m = machine_with(&[0x60, 0xFF, 0x61, 0x01, 0x80, 0x14]);
    m.step().unwrap();
    m.step().unwrap();
    m.step().unwrap();
    assert_eq!(m.register(0), 0x00);
    assert_eq!(m.register(0xF), 1);
}

#[test]
fn add_without_carry_clears_flag() {
    let mut m = machine_with(&[0x60, 0x10, 0x61, 0x01, 0x80, 0x14]);
    m.step().unwrap();
    m.step().unwrap();
    m.step().unwrap();
    assert_eq!(m.register(0), 0x11);
    assert_eq!(m.register(0xF), 0);
}

#[test]
fn add_immediate_wraps_without_flag() {
    let mut m = machine_with(&[0x60, 0xFF, 0x70, 0x01]);
    m.step().unwrap();
    m.step().unwrap();
    assert_eq!(m.register(0), 0x00);
    assert_eq!(m.register(0xF), 0);
}

#[test]
fn sub_with_borrow_wraps_and_sets_flag() {
    // 5 - 10 wraps to 251; the subtraction borrowed, so VF is 1.
    let mut m = machine_with(&[0x60, 0x05, 0x61, 0x0A, 0x80, 0x15]);
    m.step().unwrap();
    m.step().unwrap();
    m.step().unwrap();
    assert_eq!(m.register(0), 251);
    assert_eq!(m.register(0xF), 1);
}

#[test]
fn sub_without_borrow_clears_flag() {
    let mut m = machine_with(&[0x60, 0x0A, 0x61, 0x05, 0x80, 0x15]);
    m.step().unwrap();
    m.step().unwrap();
    m.step().unwrap();
    assert_eq!(m.register(0), 5);
    assert_eq!(m.register(0xF), 0);
}

#[test]
fn sub_reversed_sets_flag_on_borrow() {
    // 8xy7: Vx = Vy - Vx; 10 - 5 has no borrow here.
    let mut m = machine_with(&[0x60, 0x05, 0x61, 0x0A, 0x80, 0x17]);
    m.step().unwrap();
    m.step().unwrap();
    m.step().unwrap();
    assert_eq!(m.register(0), 5);
    assert_eq!(m.register(0xF), 0);
}

#[test]
fn alu_bitwise_ops() {
    let mut m = machine_with(&[0x60, 0x0C, 0x61, 0x0A, 0x80, 0x11]);
    m.step().unwrap();
    m.step().unwrap();
    m.step().unwrap();
    assert_eq!(m.register(0), 0x0E);

    let mut m = machine_with(&[0x60, 0x0C, 0x61, 0x0A, 0x80, 0x12]);
    m.step().unwrap();
    m.step().unwrap();
    m.step().unwrap();
    assert_eq!(m.register(0), 0x08);

    let mut m = machine_with(&[0x60, 0x0C, 0x61, 0x0A, 0x80, 0x13]);
    m.step().unwrap();
    m.step().unwrap();
    m.step().unwrap();
    assert_eq!(m.register(0), 0x06);

    let mut m = machine_with(&[0x61, 0x0A, 0x80, 0x10]);
    m.step().unwrap();
    m.step().unwrap();
    assert_eq!(m.register(0), 0x0A);
}

#[test]
fn shifts_double_and_keep_edge_bits() {
    // 8xy6: flag takes the low bit, the register doubles (wrapping).
    let mut m = machine_with(&[0x60, 0x05, 0x80, 0x16]);
    m.step().unwrap();
    m.step().unwrap();
    assert_eq!(m.register(0), 10);
    assert_eq!(m.register(0xF), 1);

    // 8xyE: flag takes the high bit, the register doubles (wrapping).
    let mut m = machine_with(&[0x60, 0x81, 0x80, 0x1E]);
    m.step().unwrap();
    m.step().unwrap();
    assert_eq!(m.register(0), 0x02);
    assert_eq!(m.register(0xF), 1);
}

#[test]
fn skips_compare_as_documented() {
    // 3xkk skips on equal.
    let mut m = machine_with(&[0x30, 0x00]);
    m.step().unwrap();
    assert_eq!(m.program_counter(), 0x204);
    // 4xkk skips on unequal.
    let mut m = machine_with(&[0x40, 0x00]);
    m.step().unwrap();
    assert_eq!(m.program_counter(), 0x202);
    // 5xy0 skips on register equality.
    let mut m = machine_with(&[0x50, 0x10]);
    m.step().unwrap();
    assert_eq!(m.program_counter(), 0x204);
    // 9xy0 skips on register inequality.
    let mut m = machine_with(&[0x60, 0x01, 0x90, 0x10]);
    m.step().unwrap();
    m.step().unwrap();
    assert_eq!(m.program_counter(), 0x206);
}

#[test]
fn jumps_go_where_told() {
    let mut m = machine_with(&[0x13, 0x21]);
    m.step().unwrap();
    assert_eq!(m.program_counter(), 0x321);

    let mut m = machine_with(&[0x60, 0x04, 0xB3, 0x00]);
    m.step().unwrap();
    m.step().unwrap();
    assert_eq!(m.program_counter(), 0x304);
}

#[test]
fn index_register_ops() {
    let mut m = machine_with(&[0xA1, 0x23]);
    m.step().unwrap();
    assert_eq!(m.index_register(), 0x123);

    let mut m = machine_with(&[0xA0, 0x10, 0x60, 0x05, 0xF0, 0x1E]);
    m.step().unwrap();
    m.step().unwrap();
    m.step().unwrap();
    assert_eq!(m.index_register(), 0x15);

    // Fx29: the glyph for 0xA sits at address 50.
    let mut m = machine_with(&[0x60, 0x0A, 0xF0, 0x29]);
    m.step().unwrap();
    m.step().unwrap();
    assert_eq!(m.index_register(), 50);
}

#[test]
fn draw_twice_restores_display_and_reports_collision() {
    let mut m = machine_with(&[0xD0, 0x15, 0xD0, 0x15]);
    let before: Vec<bool> = m.display().clone();
    m.step().unwrap();
    assert_eq!(m.register(0xF), 0);
    assert!(m.display().iter().any(|&p| p));
    m.step().unwrap();
    assert_eq!(m.register(0xF), 1);
    assert_eq!(m.display(), &before);
}

#[test]
fn draw_wraps_around_the_right_edge() {
    // Glyph 0's first row is 0xF0: with x anchored at 63, its four set
    // bits land on columns 63, 0, 1 and 2 of row 0.
    let mut m = machine_with(&[0x60, 0x3F, 0xD0, 0x11]);
    m.step().unwrap();
    m.step().unwrap();
    let d = m.display();
    assert!(d[63]);
    assert!(d[0]);
    assert!(d[1]);
    assert!(d[2]);
    assert!(!d[3]);
    assert_eq!(d.iter().filter(|&&p| p).count(), 4);
}

#[test]
fn draw_wraps_around_the_bottom_edge() {
    // Two rows drawn with y anchored at 31: the second row lands on row 0.
    let mut m = machine_with(&[0x61, 0x1F, 0xD0, 0x12]);
    m.step().unwrap();
    m.step().unwrap();
    let d = m.display();
    assert!(d[31 * 64]);
    assert!(d[0]);
}

#[test]
fn wait_key_blocks_until_a_key_goes_down() {
    let mut m = machine_with(&[0xF0, 0x0A]);
    m.step().unwrap();
    assert_eq!(m.program_counter(), 0x200);
    m.step().unwrap();
    assert_eq!(m.program_counter(), 0x200);
    m.key_pressed(5, true).unwrap();
    m.step().unwrap();
    assert_eq!(m.register(0), 5);
    assert_eq!(m.program_counter(), 0x202);
}

#[test]
fn wait_key_takes_the_lowest_down_key() {
    let mut m = machine_with(&[0xF0, 0x0A]);
    m.key_pressed(9, true).unwrap();
    m.key_pressed(3, true).unwrap();
    m.step().unwrap();
    assert_eq!(m.register(0), 3);
}

#[test]
fn key_skips_follow_the_keypad() {
    // Key down: Ex9E skips.
    let mut m = machine_with(&[0x60, 0x07, 0xE0, 0x9E]);
    m.key_pressed(7, true).unwrap();
    m.step().unwrap();
    m.step().unwrap();
    assert_eq!(m.program_counter(), 0x206);

    // Key down: ExA1 does not skip.
    let mut m = machine_with(&[0x60, 0x07, 0xE0, 0xA1]);
    m.key_pressed(7, true).unwrap();
    m.step().unwrap();
    m.step().unwrap();
    assert_eq!(m.program_counter(), 0x204);

    // Key up: ExA1 skips.
    let mut m = machine_with(&[0x60, 0x07, 0xE0, 0xA1]);
    m.step().unwrap();
    m.step().unwrap();
    assert_eq!(m.program_counter(), 0x206);
}

#[test]
fn store_decimal_digits() {
    let mut m = machine_with(&[0xA3, 0x00, 0x60, 0xEA, 0xF0, 0x33]);
    m.step().unwrap();
    m.step().unwrap();
    m.step().unwrap();
    assert_eq!(m.memory_byte(0x300), 2);
    assert_eq!(m.memory_byte(0x301), 3);
    assert_eq!(m.memory_byte(0x302), 4);
}

#[test]
fn store_and_load_register_block() {
    let mut m = machine_with(&[
        0x60, 0x11, 0x61, 0x22, 0xA3, 0x00, 0xF1, 0x55, 0x60, 0x00, 0x61, 0x00, 0xF1, 0x65,
    ]);
    for _ in 0..4 {
        m.step().unwrap();
    }
    assert_eq!(m.memory_byte(0x300), 0x11);
    assert_eq!(m.memory_byte(0x301), 0x22);
    for _ in 0..3 {
        m.step().unwrap();
    }
    assert_eq!(m.register(0), 0x11);
    assert_eq!(m.register(1), 0x22);
}

#[test]
fn timer_registers_move_through_v() {
    let mut m = machine_with(&[0x61, 0x03, 0xF1, 0x15, 0xF0, 0x07, 0xF1, 0x18]);
    m.step().unwrap();
    m.step().unwrap();
    assert_eq!(m.delay_timer(), 3);
    m.step().unwrap();
    assert_eq!(m.register(0), 3);
    m.step().unwrap();
    assert_eq!(m.sound_timer(), 3);
}

#[test]
fn timers_saturate_at_zero_and_signal_sound() {
    let mut m = machine_with(&[0x60, 0x02, 0xF0, 0x15, 0xF0, 0x18]);
    m.step().unwrap();
    m.step().unwrap();
    m.step().unwrap();
    assert_eq!(m.delay_timer(), 2);
    assert_eq!(m.sound_timer(), 2);
    assert!(m.handle_timers());
    assert_eq!(m.delay_timer(), 1);
    assert_eq!(m.sound_timer(), 1);
    assert!(!m.handle_timers());
    assert_eq!(m.delay_timer(), 0);
    assert_eq!(m.sound_timer(), 0);
    assert!(!m.handle_timers());
    assert_eq!(m.delay_timer(), 0);
    assert_eq!(m.sound_timer(), 0);
}

#[test]
fn random_byte_is_masked() {
    let mut m = machine_with(&[0xC0, 0x00, 0xC1, 0x0F]);
    m.step().unwrap();
    assert_eq!(m.register(0), 0);
    m.step().unwrap();
    assert!(m.register(1) <= 0x0F);
}

#[test]
fn unknown_opcodes_are_reported_and_change_nothing() {
    for rom in [[0x00u8, 0x00], [0x50, 0x11], [0x80, 0x18], [0x90, 0x11], [0xE0, 0x00], [
        0xF0, 0xFF,
    ]] {
        let mut m = machine_with(&rom);
        assert_eq!(m.step(), Err(Chip8Error::UnknownOpcode));
        assert_eq!(m.program_counter(), 0x200);
    }
}

#[test]
fn stack_underflow_is_out_of_bounds() {
    let mut m = machine_with(&[0x00, 0xEE]);
    assert_eq!(m.step(), Err(Chip8Error::OutOfBounds));
    assert_eq!(m.program_counter(), 0x200);
    assert_eq!(m.stack_pointer(), 0);
}

#[test]
fn stack_overflow_is_out_of_bounds() {
    // A call that targets itself: sixteen pushes fit, the next fails.
    let mut m = machine_with(&[0x22, 0x00]);
    for _ in 0..16 {
        m.step().unwrap();
    }
    assert_eq!(m.stack_pointer(), 16);
    assert_eq!(m.step(), Err(Chip8Error::OutOfBounds));
    assert_eq!(m.stack_pointer(), 16);
}

#[test]
fn fetch_past_end_of_memory_is_out_of_bounds() {
    let mut m = machine_with(&[0x1F, 0xFF]);
    m.step().unwrap();
    assert_eq!(m.program_counter(), 0xFFF);
    assert_eq!(m.step(), Err(Chip8Error::OutOfBounds));
    assert_eq!(m.program_counter(), 0xFFF);
}

#[test]
fn digit_store_past_end_of_memory_is_out_of_bounds() {
    let mut m = machine_with(&[0xAF, 0xFE, 0xF0, 0x33]);
    m.step().unwrap();
    assert_eq!(m.step(), Err(Chip8Error::OutOfBounds));
}

#[test]
fn register_block_past_end_of_memory_is_out_of_bounds() {
    let mut m = machine_with(&[0xAF, 0xF1, 0xF0, 0x55]);
    m.step().unwrap();
    assert_eq!(m.step(), Err(Chip8Error::OutOfBounds));
    let mut m = machine_with(&[0xAF, 0xF1, 0xF0, 0x65]);
    m.step().unwrap();
    assert_eq!(m.step(), Err(Chip8Error::OutOfBounds));
}

#[test]
fn draw_past_end_of_memory_is_out_of_bounds() {
    let mut m = machine_with(&[0xAF, 0xFE, 0xD0, 0x13]);
    m.step().unwrap();
    assert_eq!(m.step(), Err(Chip8Error::OutOfBounds));
}

#[test]
fn key_skip_with_register_out_of_range_is_out_of_bounds() {
    let mut m = machine_with(&[0x60, 0xFF, 0xE0, 0x9E]);
    m.step().unwrap();
    assert_eq!(m.step(), Err(Chip8Error::OutOfBounds));
}

#[test]
fn invalid_key_index_is_rejected() {
    let mut m = Chip8::new();
    assert_eq!(m.key_pressed(16, true), Err(Chip8Error::InvalidKey));
    assert_eq!(m.key_pressed(255, true), Err(Chip8Error::InvalidKey));
    m.key_pressed(15, true).unwrap();
    m.key_pressed(15, false).unwrap();
}
