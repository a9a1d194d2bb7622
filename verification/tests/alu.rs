use chip8_core::Emu;

#[test]
fn set_imm_scenario() {
    // Loading 0x6A3C (set register 10 to 0x3C) and ticking once yields
    // register 10 = 60 and the program counter advanced by 2.
    let mut emu = Emu::new();
    emu.load(&[0x6A, 0x3C]).unwrap();
    emu.tick().unwrap();
    assert_eq!(emu.v_reg(10), 60);
    assert_eq!(emu.pc(), 514);
}

#[test]
fn add_imm_wraps_without_flag_update() {
    let mut emu = Emu::new();
    // v15 = 7, v0 = 255, v0 += 2: silent wraparound, flag untouched.
    emu.load(&[0x6F, 0x07, 0x60, 0xFF, 0x70, 0x02]).unwrap();
    emu.tick().unwrap();
    emu.tick().unwrap();
    emu.tick().unwrap();
    assert_eq!(emu.v_reg(0), 1);
    assert_eq!(emu.v_reg(15), 7);
}

#[test]
fn add_reg_overflow_sets_flag() {
    let mut emu = Emu::new();
    // v0 = 255, v1 = 1, v0 += v1: sum 256 wraps to 0, flag 1.
    emu.load(&[0x60, 0xFF, 0x61, 0x01, 0x80, 0x14]).unwrap();
    emu.tick().unwrap();
    emu.tick().unwrap();
    emu.tick().unwrap();
    assert_eq!(emu.v_reg(0), 0);
    assert_eq!(emu.v_reg(15), 1);
}

#[test]
fn add_reg_no_overflow_clears_flag() {
    let mut emu = Emu::new();
    // v15 = 1 first, so the add must clear it.
    emu.load(&[0x6F, 0x01, 0x60, 0x05, 0x61, 0x03, 0x80, 0x14]).unwrap();
    for _ in 0..4 {
        emu.tick().unwrap();
    }
    assert_eq!(emu.v_reg(0), 8);
    assert_eq!(emu.v_reg(15), 0);
}

#[test]
fn sub_reg_no_borrow_sets_flag() {
    let mut emu = Emu::new();
    // v0 = 5, v1 = 3, v0 -= v1: 5 >= 3, flag 1.
    emu.load(&[0x60, 0x05, 0x61, 0x03, 0x80, 0x15]).unwrap();
    emu.tick().unwrap();
    emu.tick().unwrap();
    emu.tick().unwrap();
    assert_eq!(emu.v_reg(0), 2);
    assert_eq!(emu.v_reg(15), 1);
}

#[test]
fn sub_reg_borrow_clears_flag() {
    let mut emu = Emu::new();
    // v0 = 3, v1 = 5, v0 -= v1: wraps to 254, flag 0.
    emu.load(&[0x60, 0x03, 0x61, 0x05, 0x80, 0x15]).unwrap();
    emu.tick().unwrap();
    emu.tick().unwrap();
    emu.tick().unwrap();
    assert_eq!(emu.v_reg(0), 254);
    assert_eq!(emu.v_reg(15), 0);
}

#[test]
fn sub_from_reversed_operands() {
    let mut emu = Emu::new();
    // v0 = 3, v1 = 5, v0 = v1 - v0: 2, flag 1 (no borrow).
    emu.load(&[0x60, 0x03, 0x61, 0x05, 0x80, 0x17]).unwrap();
    emu.tick().unwrap();
    emu.tick().unwrap();
    emu.tick().unwrap();
    assert_eq!(emu.v_reg(0), 2);
    assert_eq!(emu.v_reg(15), 1);
}

#[test]
fn sub_from_borrow_clears_flag() {
    let mut emu = Emu::new();
    // v0 = 5, v1 = 3, v0 = v1 - v0: wraps to 254, flag 0.
    emu.load(&[0x60, 0x05, 0x61, 0x03, 0x80, 0x17]).unwrap();
    emu.tick().unwrap();
    emu.tick().unwrap();
    emu.tick().unwrap();
    assert_eq!(emu.v_reg(0), 254);
    assert_eq!(emu.v_reg(15), 0);
}

#[test]
fn shift_right_captures_discarded_bit() {
    let mut emu = Emu::new();
    // v0 = 5 (0b101): shifted to 2, flag takes the dropped low bit 1.
    emu.load(&[0x60, 0x05, 0x80, 0x06]).unwrap();
    emu.tick().unwrap();
    emu.tick().unwrap();
    assert_eq!(emu.v_reg(0), 2);
    assert_eq!(emu.v_reg(15), 1);
}

#[test]
fn shift_right_even_value_clears_flag() {
    let mut emu = Emu::new();
    emu.load(&[0x6F, 0x01, 0x60, 0x08, 0x80, 0x06]).unwrap();
    emu.tick().unwrap();
    emu.tick().unwrap();
    emu.tick().unwrap();
    assert_eq!(emu.v_reg(0), 4);
    assert_eq!(emu.v_reg(15), 0);
}

#[test]
fn shift_left_captures_discarded_bit() {
    let mut emu = Emu::new();
    // v0 = 0x81: shifted to 2, flag takes the dropped high bit 1.
    emu.load(&[0x60, 0x81, 0x80, 0x0E]).unwrap();
    emu.tick().unwrap();
    emu.tick().unwrap();
    assert_eq!(emu.v_reg(0), 2);
    assert_eq!(emu.v_reg(15), 1);
}

#[test]
fn shift_left_low_value_clears_flag() {
    let mut emu = Emu::new();
    emu.load(&[0x6F, 0x01, 0x60, 0x41, 0x80, 0x0E]).unwrap();
    emu.tick().unwrap();
    emu.tick().unwrap();
    emu.tick().unwrap();
    assert_eq!(emu.v_reg(0), 0x82);
    assert_eq!(emu.v_reg(15), 0);
}

#[test]
fn bitwise_or_and_xor_in_place() {
    let mut emu = Emu::new();
    // v0 = 0x0C, v1 = 0x0A: OR.
    emu.load(&[0x60, 0x0C, 0x61, 0x0A, 0x80, 0x11]).unwrap();
    emu.tick().unwrap();
    emu.tick().unwrap();
    emu.tick().unwrap();
    assert_eq!(emu.v_reg(0), 0x0E);

    let mut emu = Emu::new();
    emu.load(&[0x60, 0x0C, 0x61, 0x0A, 0x80, 0x12]).unwrap();
    emu.tick().unwrap();
    emu.tick().unwrap();
    emu.tick().unwrap();
    assert_eq!(emu.v_reg(0), 0x08);

    let mut emu = Emu::new();
    emu.load(&[0x60, 0x0C, 0x61, 0x0A, 0x80, 0x13]).unwrap();
    emu.tick().unwrap();
    emu.tick().unwrap();
    emu.tick().unwrap();
    assert_eq!(emu.v_reg(0), 0x06);
}

#[test]
fn copy_register() {
    let mut emu = Emu::new();
    emu.load(&[0x67, 0x09, 0x86, 0x70]).unwrap();
    emu.tick().unwrap();
    emu.tick().unwrap();
    assert_eq!(emu.v_reg(6), 9);
    assert_eq!(emu.v_reg(7), 9);
}

#[test]
fn random_is_masked_by_immediate() {
    let mut emu = Emu::new();
    // v0 = 0x55, then v0 = random & 0x00: whatever was drawn, the mask
    // forces 0, so the instruction demonstrably ran and masked.
    emu.load(&[0x60, 0x55, 0xC0, 0x00]).unwrap();
    emu.tick().unwrap();
    emu.tick().unwrap();
    assert_eq!(emu.v_reg(0), 0);

    let mut emu = Emu::new();
    // v1 = random & 0x0F stays within the mask.
    emu.load(&[0xC1, 0x0F]).unwrap();
    emu.tick().unwrap();
    assert!(emu.v_reg(1) <= 0x0F);
}

#[test]
fn bcd_decomposes_register_decimal_digits() {
    let mut emu = Emu::new();
    // v0 = 159, i = 0x300, store digits.
    emu.load(&[0x60, 0x9F, 0xA3, 0x00, 0xF0, 0x33]).unwrap();
    emu.tick().unwrap();
    emu.tick().unwrap();
    emu.tick().unwrap();
    assert_eq!(emu.ram_at(0x300), 1);
    assert_eq!(emu.ram_at(0x301), 5);
    assert_eq!(emu.ram_at(0x302), 9);
}

#[test]
fn store_and_load_register_ranges() {
    let mut emu = Emu::new();
    // v0 = 5, v1 = 7, i = 0x400, store v0..=v1, zero v0/v1, load them back.
    emu.load(&[
        0x60, 0x05, 0x61, 0x07, 0xA4, 0x00, 0xF1, 0x55, 0x60, 0x00, 0x61, 0x00, 0xF1, 0x65,
    ])
    .unwrap();
    for _ in 0..4 {
        emu.tick().unwrap();
    }
    assert_eq!(emu.ram_at(0x400), 5);
    assert_eq!(emu.ram_at(0x401), 7);
    assert_eq!(emu.ram_at(0x402), 0);
    assert_eq!(emu.i_reg(), 0x400);
    for _ in 0..3 {
        emu.tick().unwrap();
    }
    assert_eq!(emu.v_reg(0), 5);
    assert_eq!(emu.v_reg(1), 7);
    assert_eq!(emu.i_reg(), 0x400);
}
