use chip8_core::Emu;
use chip8_core::Fault;
use chip8_core::SCREEN_WIDTH;

#[test]
fn clear_screen_scenario() {
    // Loading the 2-byte program 0x00E0 and ticking once leaves an
    // all-unlit framebuffer and the program counter at 514.
    let mut emu = Emu::new();
    emu.load(&[0x00, 0xE0]).unwrap();
    emu.tick().unwrap();
    assert!(emu.get_display().iter().all(|p| !*p));
    assert_eq!(emu.pc(), 514);
}

#[test]
fn clear_screen_after_draw_unlights_everything() {
    let mut emu = Emu::new();
    // i = 0 (glyph 0), draw one row, then clear.
    emu.load(&[0xA0, 0x00, 0xD0, 0x11, 0x00, 0xE0]).unwrap();
    emu.tick().unwrap();
    emu.tick().unwrap();
    assert!(emu.get_display().iter().any(|p| *p));
    emu.tick().unwrap();
    assert!(emu.get_display().iter().all(|p| !*p));
}

#[test]
fn draw_program_bytes_scenario() {
    // 0xA200 then 0xD005: the index points at the program itself, so the
    // five sprite rows are A2 00 D0 05 00; first draw collides with
    // nothing, so the flag stays 0.
    let mut emu = Emu::new();
    emu.load(&[0xA2, 0x00, 0xD0, 0x05]).unwrap();
    emu.tick().unwrap();
    assert_eq!(emu.i_reg(), 0x200);
    emu.tick().unwrap();
    assert_eq!(emu.v_reg(15), 0);
    let display = emu.get_display();
    // Row 0 is 0xA2 = 1010 0010.
    let lit_rows: [(usize, [usize; 8]); 5] = [
        (0, [1, 0, 1, 0, 0, 0, 1, 0]),
        (1, [0; 8]),
        (2, [1, 1, 0, 1, 0, 0, 0, 0]),
        (3, [0, 0, 0, 0, 0, 1, 0, 1]),
        (4, [0; 8]),
    ];
    for (row, bits) in lit_rows.iter() {
        for col in 0..8 {
            assert_eq!(display[col + SCREEN_WIDTH * row], bits[col] == 1);
        }
    }
    assert_eq!(display.iter().filter(|p| **p).count(), 8);
}

#[test]
fn draw_font_glyph_zero() {
    // i = 0: glyph 0's rows are F0 90 90 90 F0.
    let mut emu = Emu::new();
    emu.load(&[0xA0, 0x00, 0xD0, 0x05]).unwrap();
    emu.tick().unwrap();
    emu.tick().unwrap();
    assert_eq!(emu.v_reg(15), 0);
    let display = emu.get_display();
    let glyph: [[usize; 4]; 5] = [
        [1, 1, 1, 1],
        [1, 0, 0, 1],
        [1, 0, 0, 1],
        [1, 0, 0, 1],
        [1, 1, 1, 1],
    ];
    for row in 0..5 {
        for col in 0..4 {
            assert_eq!(display[col + SCREEN_WIDTH * row], glyph[row][col] == 1);
        }
        for col in 4..8 {
            assert!(!display[col + SCREEN_WIDTH * row]);
        }
    }
}

#[test]
fn draw_wraps_columns_at_right_edge() {
    // Draw one glyph-0 row (0xF0: columns 0..=3 of the sprite) at
    // x = 63, y = 31: the lit cells wrap to columns 63, 0, 1, 2 of row 31.
    let mut emu = Emu::new();
    emu.load(&[0x60, 0x3F, 0x61, 0x1F, 0xA0, 0x00, 0xD0, 0x11]).unwrap();
    for _ in 0..4 {
        emu.tick().unwrap();
    }
    let display = emu.get_display();
    let row = 31;
    for col in [63usize, 0, 1, 2] {
        assert!(display[col + SCREEN_WIDTH * row]);
    }
    assert_eq!(display.iter().filter(|p| **p).count(), 4);
}

#[test]
fn draw_wraps_rows_at_bottom_edge() {
    // Draw glyph 0 (5 rows) at x = 0, y = 31: rows land on 31, 0, 1, 2, 3.
    let mut emu = Emu::new();
    emu.load(&[0x61, 0x1F, 0xA0, 0x00, 0xD0, 0x15]).unwrap();
    for _ in 0..3 {
        emu.tick().unwrap();
    }
    let display = emu.get_display();
    let rows: [(usize, [usize; 4]); 5] = [
        (31, [1, 1, 1, 1]),
        (0, [1, 0, 0, 1]),
        (1, [1, 0, 0, 1]),
        (2, [1, 0, 0, 1]),
        (3, [1, 1, 1, 1]),
    ];
    for (row, bits) in rows.iter() {
        for col in 0..4 {
            assert_eq!(display[col + SCREEN_WIDTH * row], bits[col] == 1);
        }
    }
}

#[test]
fn draw_twice_restores_screen_and_reports_collision() {
    // Drawing the same sprite twice at the same spot XORs every cell back
    // to its prior state; the second draw turns lit cells dark, so its
    // collision flag is 1.
    let mut emu = Emu::new();
    emu.load(&[0xA0, 0x00, 0xD0, 0x15, 0xD0, 0x15]).unwrap();
    emu.tick().unwrap();
    emu.tick().unwrap();
    assert!(emu.get_display().iter().any(|p| *p));
    assert_eq!(emu.v_reg(15), 0);
    emu.tick().unwrap();
    assert!(emu.get_display().iter().all(|p| !*p));
    assert_eq!(emu.v_reg(15), 1);
}

#[test]
fn draw_zero_rows_touches_nothing() {
    let mut emu = Emu::new();
    emu.load(&[0xA0, 0x00, 0xD0, 0x10]).unwrap();
    emu.tick().unwrap();
    emu.tick().unwrap();
    assert!(emu.get_display().iter().all(|p| !*p));
    assert_eq!(emu.v_reg(15), 0);
}

#[test]
fn draw_past_end_of_memory_faults() {
    // i = 0xFFF: a 2-row sprite would need byte 4096.
    let mut emu = Emu::new();
    emu.load(&[0xAF, 0xFF, 0xD0, 0x02]).unwrap();
    emu.tick().unwrap();
    assert_eq!(emu.tick(), Err(Fault::OutOfBounds));
    assert!(emu.get_display().iter().all(|p| !*p));
}

#[test]
fn draw_last_byte_of_memory_is_allowed() {
    let mut emu = Emu::new();
    emu.load(&[0xAF, 0xFF, 0xD0, 0x01]).unwrap();
    emu.tick().unwrap();
    assert_eq!(emu.tick(), Ok(()));
}
