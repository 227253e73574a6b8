use chipr8::cpu::{Chip8, Chip8Error};

#[test]
fn opcode_jump() {
    let mut chip = Chip8::new();
    chip.process_opcode(0x1A2A).unwrap();
    assert_eq!(chip.pc, 0x0A2A);
}

#[test]
fn jump_is_not_incremented_afterwards() {
    let mut chip = Chip8::new();
    chip.process_opcode(0x1000).unwrap();
    assert_eq!(chip.pc, 0x0000);
    chip.process_opcode(0x1FFF).unwrap();
    assert_eq!(chip.pc, 0x0FFF);
}

#[test]
fn timer_round_trip_through_register() {
    for x in 0u16..16 {
        let mut chip = Chip8::new();
        // 6xAB: v[x] = 0xAB, Fx15: dt = v[x], 6x00 clobbers, Fx07: v[x] = dt
        chip.process_opcode(0x6000 | (x << 8) | 0xAB).unwrap();
        chip.process_opcode(0xF015 | (x << 8)).unwrap();
        chip.process_opcode(0x6000 | (x << 8)).unwrap();
        assert_eq!(chip.v[x as usize], 0);
        chip.process_opcode(0xF007 | (x << 8)).unwrap();
        assert_eq!(chip.v[x as usize], 0xAB);
        assert_eq!(chip.dt, 0xAB);
    }
}

#[test]
fn add_immediate_wraps_and_leaves_carry_alone() {
    let mut chip = Chip8::new();
    chip.v[0xF] = 0x5A;
    chip.process_opcode(0x60FF).unwrap();
    chip.process_opcode(0x7002).unwrap();
    assert_eq!(chip.v[0], 1);
    assert_eq!(chip.v[0xF], 0x5A);
}

#[test]
fn register_add_sets_carry() {
    let mut chip = Chip8::new();
    chip.process_opcode(0x60C8).unwrap(); // v0 = 200
    chip.process_opcode(0x6164).unwrap(); // v1 = 100
    chip.process_opcode(0x8014).unwrap();
    assert_eq!(chip.v[0], 44); // 300 mod 256
    assert_eq!(chip.v[0xF], 1);

    let mut chip = Chip8::new();
    chip.process_opcode(0x600A).unwrap(); // v0 = 10
    chip.process_opcode(0x6114).unwrap(); // v1 = 20
    chip.process_opcode(0x8014).unwrap();
    assert_eq!(chip.v[0], 30);
    assert_eq!(chip.v[0xF], 0);
}

#[test]
fn register_sub_sets_borrow_flag() {
    let mut chip = Chip8::new();
    chip.process_opcode(0x6005).unwrap(); // v0 = 5
    chip.process_opcode(0x610A).unwrap(); // v1 = 10
    chip.process_opcode(0x8015).unwrap();
    assert_eq!(chip.v[0], 251); // wrapped
    assert_eq!(chip.v[0xF], 0); // borrow occurred

    let mut chip = Chip8::new();
    chip.process_opcode(0x600A).unwrap(); // v0 = 10
    chip.process_opcode(0x6105).unwrap(); // v1 = 5
    chip.process_opcode(0x8015).unwrap();
    assert_eq!(chip.v[0], 5);
    assert_eq!(chip.v[0xF], 1);
}

#[test]
fn register_sub_reversed() {
    let mut chip = Chip8::new();
    chip.process_opcode(0x6005).unwrap(); // v0 = 5
    chip.process_opcode(0x610A).unwrap(); // v1 = 10
    chip.process_opcode(0x8017).unwrap(); // v0 = v1 - v0
    assert_eq!(chip.v[0], 5);
    assert_eq!(chip.v[0xF], 1);
}

#[test]
fn bitwise_register_ops() {
    let mut chip = Chip8::new();
    chip.process_opcode(0x60F0).unwrap();
    chip.process_opcode(0x610F).unwrap();
    chip.process_opcode(0x8011).unwrap(); // or
    assert_eq!(chip.v[0], 0xFF);
    chip.process_opcode(0x8012).unwrap(); // and
    assert_eq!(chip.v[0], 0x0F);
    chip.process_opcode(0x8013).unwrap(); // xor
    assert_eq!(chip.v[0], 0x00);
    chip.process_opcode(0x8010).unwrap(); // copy
    assert_eq!(chip.v[0], 0x0F);
}

#[test]
fn shift_right_keeps_low_bit() {
    let mut chip = Chip8::new();
    chip.process_opcode(0x6005).unwrap(); // v0 = 5
    chip.process_opcode(0x8006).unwrap();
    assert_eq!(chip.v[0], 2);
    assert_eq!(chip.v[0xF], 1);
}

#[test]
fn shift_left_keeps_high_bit() {
    let mut chip = Chip8::new();
    chip.process_opcode(0x6081).unwrap(); // v0 = 0x81
    chip.process_opcode(0x800E).unwrap();
    assert_eq!(chip.v[0], 2);
    assert_eq!(chip.v[0xF], 1);
}

#[test]
fn skip_instructions_advance_by_four_or_two() {
    // 3xnn: equal -> skip
    let mut chip = Chip8::new();
    chip.process_opcode(0x6042).unwrap();
    let pc = chip.pc;
    chip.process_opcode(0x3042).unwrap();
    assert_eq!(chip.pc, pc + 4);
    chip.process_opcode(0x3041).unwrap();
    assert_eq!(chip.pc, pc + 4 + 2);

    // 4xnn: not equal -> skip
    let mut chip = Chip8::new();
    let pc = chip.pc;
    chip.process_opcode(0x4042).unwrap();
    assert_eq!(chip.pc, pc + 4);
    chip.process_opcode(0x4000).unwrap();
    assert_eq!(chip.pc, pc + 4 + 2);

    // 5xy0 / 9xy0
    let mut chip = Chip8::new();
    chip.process_opcode(0x6007).unwrap();
    chip.process_opcode(0x6107).unwrap();
    let pc = chip.pc;
    chip.process_opcode(0x5010).unwrap();
    assert_eq!(chip.pc, pc + 4);
    chip.process_opcode(0x9010).unwrap();
    assert_eq!(chip.pc, pc + 4 + 2);
}

#[test]
fn skip_on_key_state() {
    let mut chip = Chip8::new();
    chip.process_opcode(0x6007).unwrap(); // v0 = key 7
    chip.keypad.set_key(7, true);
    let pc = chip.pc;
    chip.process_opcode(0xE09E).unwrap(); // pressed -> skip
    assert_eq!(chip.pc, pc + 4);
    chip.process_opcode(0xE0A1).unwrap(); // pressed -> no skip
    assert_eq!(chip.pc, pc + 4 + 2);
    chip.keypad.set_key(7, false);
    chip.process_opcode(0xE09E).unwrap();
    assert_eq!(chip.pc, pc + 4 + 2 + 2);
    chip.process_opcode(0xE0A1).unwrap();
    assert_eq!(chip.pc, pc + 4 + 2 + 2 + 4);
}

#[test]
fn register_value_without_key_counts_as_not_pressed() {
    let mut chip = Chip8::new();
    chip.process_opcode(0x60FF).unwrap(); // v0 = 255: no such key
    let pc = chip.pc;
    chip.process_opcode(0xE09E).unwrap();
    assert_eq!(chip.pc, pc + 2);
    chip.process_opcode(0xE0A1).unwrap();
    assert_eq!(chip.pc, pc + 2 + 4);
}

#[test]
fn call_and_return_round_trip() {
    let mut chip = Chip8::new();
    assert_eq!(chip.pc, 0x200);
    assert_eq!(chip.sp, 0);
    chip.process_opcode(0x2400).unwrap();
    assert_eq!(chip.pc, 0x400);
    assert_eq!(chip.sp, 1);
    assert_eq!(chip.stack[0], 0x202);
    chip.process_opcode(0x00EE).unwrap();
    assert_eq!(chip.pc, 0x202);
    assert_eq!(chip.sp, 0);
}

#[test]
fn stack_underflow_is_fatal() {
    let mut chip = Chip8::new();
    assert_eq!(chip.process_opcode(0x00EE), Err(Chip8Error::StackUnderflow));
    assert_eq!(chip.pc, 0x200);
}

#[test]
fn stack_overflow_is_fatal() {
    let mut chip = Chip8::new();
    for _ in 0..16 {
        chip.process_opcode(0x2300).unwrap();
    }
    assert_eq!(chip.sp, 16);
    assert_eq!(chip.process_opcode(0x2300), Err(Chip8Error::StackOverflow));
    assert_eq!(chip.sp, 16);
}

#[test]
fn fetch_past_memory_end_is_fatal() {
    let mut chip = Chip8::new();
    chip.pc = 4095;
    assert_eq!(chip.emulate_cycle(), Err(Chip8Error::FetchOutOfBounds));
    assert_eq!(chip.pc, 4095);
}

#[test]
fn memory_block_past_end_is_fatal() {
    let mut chip = Chip8::new();
    chip.i = 4094;
    assert_eq!(chip.process_opcode(0xF033), Err(Chip8Error::MemoryOutOfBounds));
    let mut chip = Chip8::new();
    chip.i = 4090;
    assert_eq!(chip.process_opcode(0xF755), Err(Chip8Error::MemoryOutOfBounds));
    let mut chip = Chip8::new();
    chip.i = 4090;
    assert_eq!(chip.process_opcode(0xF765), Err(Chip8Error::MemoryOutOfBounds));
    let mut chip = Chip8::new();
    chip.i = 4090;
    assert_eq!(chip.process_opcode(0xD00F), Err(Chip8Error::MemoryOutOfBounds));
}

#[test]
fn draw_reports_collision_on_second_draw_and_clears() {
    let mut chip = Chip8::new();
    // glyph 0 sits at address 0; draw it at (0, 0)
    chip.process_opcode(0x6000).unwrap();
    chip.process_opcode(0x6100).unwrap();
    chip.process_opcode(0xA000).unwrap();
    chip.process_opcode(0xD015).unwrap();
    assert_eq!(chip.v[0xF], 0);
    assert!(chip.display.gfx.iter().any(|p| *p));
    chip.process_opcode(0xD015).unwrap();
    assert_eq!(chip.v[0xF], 1);
    assert!(chip.display.gfx.iter().all(|p| !*p));
}

#[test]
fn draw_wraps_around_the_grid_edges() {
    let mut chip = Chip8::new();
    chip.mem[0x300] = 0xFF;
    chip.process_opcode(0xA300).unwrap();
    chip.process_opcode(0x603E).unwrap(); // x = 62
    chip.process_opcode(0x611F).unwrap(); // y = 31
    chip.process_opcode(0xD011).unwrap();
    // the row wraps: columns 62, 63 then 0..=5, all on row 31
    assert!(chip.display.gfx[31 * 64 + 62]);
    assert!(chip.display.gfx[31 * 64 + 63]);
    assert!(chip.display.gfx[31 * 64 + 0]);
    assert!(chip.display.gfx[31 * 64 + 5]);
    assert!(!chip.display.gfx[31 * 64 + 6]);
}

#[test]
fn clear_display_blanks_the_grid() {
    let mut chip = Chip8::new();
    chip.process_opcode(0x6000).unwrap();
    chip.process_opcode(0xA000).unwrap();
    chip.process_opcode(0xD005).unwrap();
    assert!(chip.display.gfx.iter().any(|p| *p));
    chip.draw_flag = false;
    chip.process_opcode(0x00E0).unwrap();
    assert!(chip.display.gfx.iter().all(|p| !*p));
    assert!(chip.draw_flag);
}

#[test]
fn bcd_digits_for_every_byte() {
    for val in 0u16..256 {
        let mut chip = Chip8::new();
        chip.process_opcode(0x6000 | val).unwrap();
        chip.process_opcode(0xA300).unwrap();
        chip.process_opcode(0xF033).unwrap();
        let v = val as u8;
        assert_eq!(chip.mem[0x300], v / 100);
        assert_eq!(chip.mem[0x301], (v / 10) % 10);
        assert_eq!(chip.mem[0x302], v % 10);
    }
}

#[test]
fn font_lookup_points_at_the_glyph() {
    for d in 0u16..16 {
        let mut chip = Chip8::new();
        chip.process_opcode(0x6000 | d).unwrap();
        chip.process_opcode(0xF029).unwrap();
        assert_eq!(chip.i, 5 * d);
    }
}

#[test]
fn font_is_loaded_at_address_zero() {
    let chip = Chip8::new();
    // glyph 0
    assert_eq!(&chip.mem[0..5], &[0xF0, 0x90, 0x90, 0x90, 0xF0]);
    // glyph F
    assert_eq!(&chip.mem[75..80], &[0xF0, 0x80, 0xF0, 0x80, 0x80]);
    assert!(chip.mem[80..].iter().all(|b| *b == 0));
}

#[test]
fn index_register_ops() {
    let mut chip = Chip8::new();
    chip.process_opcode(0xA123).unwrap();
    assert_eq!(chip.i, 0x123);
    chip.process_opcode(0x6005).unwrap();
    chip.process_opcode(0xF01E).unwrap();
    assert_eq!(chip.i, 0x128);
    chip.i = 0xFFFF;
    chip.process_opcode(0xF01E).unwrap();
    assert_eq!(chip.i, 4); // wraps in sixteen bits
}

#[test]
fn jump_with_offset() {
    let mut chip = Chip8::new();
    chip.process_opcode(0x6005).unwrap();
    chip.process_opcode(0xB300).unwrap();
    assert_eq!(chip.pc, 0x305);
}

#[test]
fn random_byte_is_masked() {
    let mut chip = Chip8::new();
    chip.process_opcode(0xC000).unwrap();
    assert_eq!(chip.v[0], 0);
    chip.process_opcode(0xC0F0).unwrap();
    assert_eq!(chip.v[0] & 0x0F, 0);
}

#[test]
fn store_and_load_register_block() {
    let mut chip = Chip8::new();
    chip.process_opcode(0x600A).unwrap();
    chip.process_opcode(0x6114).unwrap();
    chip.process_opcode(0x621E).unwrap();
    chip.process_opcode(0xA300).unwrap();
    chip.process_opcode(0xF255).unwrap(); // store v0..=v2
    assert_eq!(chip.mem[0x300], 10);
    assert_eq!(chip.mem[0x301], 20);
    assert_eq!(chip.mem[0x302], 30);
    assert_eq!(chip.i, 0x303);
    let mut chip2 = Chip8::new();
    chip2.mem[0x300] = 1;
    chip2.mem[0x301] = 2;
    chip2.mem[0x302] = 3;
    chip2.process_opcode(0xA300).unwrap();
    chip2.process_opcode(0xF265).unwrap(); // load v0..=v2
    assert_eq!(chip2.v[0], 1);
    assert_eq!(chip2.v[1], 2);
    assert_eq!(chip2.v[2], 3);
    assert_eq!(chip2.v[3], 0);
    assert_eq!(chip2.i, 0x303);
}

#[test]
fn wait_for_key_retries_until_a_key_is_down() {
    let mut chip = Chip8::new();
    let pc = chip.pc;
    chip.process_opcode(0xF10A).unwrap();
    assert_eq!(chip.pc, pc); // not advanced: the cycle retries
    chip.keypad.set_key(0xB, true);
    chip.keypad.set_key(0xC, true);
    chip.process_opcode(0xF10A).unwrap();
    assert_eq!(chip.pc, pc + 2);
    assert_eq!(chip.v[1], 0xB); // the lowest pressed index
}

#[test]
fn sound_timer_is_a_no_op() {
    let mut chip = Chip8::new();
    let pc = chip.pc;
    chip.process_opcode(0xF018).unwrap();
    assert_eq!(chip.pc, pc + 2);
    assert_eq!(chip.dt, 0);
}

#[test]
fn unrecognized_opcode_only_advances_pc() {
    let mut chip = Chip8::new();
    let pc = chip.pc;
    chip.process_opcode(0x5011).unwrap(); // low nibble nonzero: no such pattern
    assert_eq!(chip.pc, pc + 2);
    chip.process_opcode(0x8008).unwrap();
    assert_eq!(chip.pc, pc + 4);
    chip.process_opcode(0x0123).unwrap();
    assert_eq!(chip.pc, pc + 6);
}

#[test]
fn emulate_cycle_fetches_and_ticks_the_timer() {
    let mut chip = Chip8::new();
    let program: Vec<u8> = vec![0x64, 0x2A, 0xF4, 0x15, 0x60, 0x01];
    chip.load_application(&program);
    chip.emulate_cycle().unwrap(); // v4 = 0x2A
    assert_eq!(chip.v[4], 0x2A);
    assert_eq!(chip.pc, 0x202);
    chip.emulate_cycle().unwrap(); // dt = v4, then the tick takes one off
    assert_eq!(chip.dt, 0x29);
    chip.emulate_cycle().unwrap(); // v0 = 1, dt ticks again
    assert_eq!(chip.v[0], 1);
    assert_eq!(chip.dt, 0x28);
}

#[test]
fn load_application_copies_at_load_address_and_truncates() {
    let mut chip = Chip8::new();
    let program: Vec<u8> = vec![1, 2, 3];
    chip.load_application(&program);
    assert_eq!(chip.mem[0x200], 1);
    assert_eq!(chip.mem[0x201], 2);
    assert_eq!(chip.mem[0x202], 3);
    assert_eq!(chip.mem[0x203], 0);

    let big: Vec<u8> = vec![7; 5000];
    let mut chip2 = Chip8::new();
    chip2.load_application(&big);
    assert_eq!(chip2.mem[4095], 7);
    assert_eq!(chip2.mem[0x1FF], 0); // nothing below the load address
}
