use chip8_core::Emu;
use chip8_core::Fault;

#[test]
fn all_zero_opcode_faults() {
    // The all-zero word matches no instruction pattern: running into
    // zeroed memory is a malformed-program fault, not a silent no-op.
    let mut emu = Emu::new();
    emu.load(&[0x00, 0x00]).unwrap();
    assert_eq!(emu.tick(), Err(Fault::UnknownOpcode(0x0000)));
    assert_eq!(emu.pc(), 514);
    assert_eq!(emu.sp(), 0);
}

#[test]
fn jump_sets_program_counter() {
    let mut emu = Emu::new();
    emu.load(&[0x13, 0x45]).unwrap();
    emu.tick().unwrap();
    assert_eq!(emu.pc(), 0x345);
}

#[test]
fn jump_plus_v0_offsets_by_register() {
    let mut emu = Emu::new();
    emu.load(&[0x60, 0x04, 0xB3, 0x00]).unwrap();
    emu.tick().unwrap();
    emu.tick().unwrap();
    assert_eq!(emu.pc(), 0x304);
}

#[test]
fn call_pushes_return_address_and_return_pops_it() {
    let mut emu = Emu::new();
    // 512: call 0x206; 0x206: return.
    emu.load(&[0x22, 0x06, 0x00, 0x00, 0x00, 0x00, 0x00, 0xEE]).unwrap();
    emu.tick().unwrap();
    assert_eq!(emu.pc(), 0x206);
    assert_eq!(emu.sp(), 1);
    assert_eq!(emu.stack_at(0), 514);
    emu.tick().unwrap();
    assert_eq!(emu.pc(), 514);
    assert_eq!(emu.sp(), 0);
}

#[test]
fn skip_when_register_equals_immediate() {
    let mut emu = Emu::new();
    // v0 = 5; skip (5 == 5); the skipped word would set v1; execution
    // resumes at the word after it, which sets v2.
    emu.load(&[0x60, 0x05, 0x30, 0x05, 0x61, 0x09, 0x62, 0x07]).unwrap();
    emu.tick().unwrap();
    emu.tick().unwrap();
    assert_eq!(emu.pc(), 518);
    emu.tick().unwrap();
    assert_eq!(emu.v_reg(1), 0);
    assert_eq!(emu.v_reg(2), 7);
}

#[test]
fn no_skip_when_register_differs_from_immediate() {
    let mut emu = Emu::new();
    emu.load(&[0x60, 0x05, 0x30, 0x06, 0x61, 0x09]).unwrap();
    emu.tick().unwrap();
    emu.tick().unwrap();
    assert_eq!(emu.pc(), 516);
    emu.tick().unwrap();
    assert_eq!(emu.v_reg(1), 9);
}

#[test]
fn skip_when_register_not_equal_immediate() {
    let mut emu = Emu::new();
    emu.load(&[0x60, 0x05, 0x40, 0x06, 0x61, 0x09]).unwrap();
    emu.tick().unwrap();
    emu.tick().unwrap();
    assert_eq!(emu.pc(), 518);
}

#[test]
fn skip_when_registers_equal_and_not_equal() {
    let mut emu = Emu::new();
    // v0 = 5, v1 = 5: 5XY0 skips.
    emu.load(&[0x60, 0x05, 0x61, 0x05, 0x50, 0x10]).unwrap();
    emu.tick().unwrap();
    emu.tick().unwrap();
    emu.tick().unwrap();
    assert_eq!(emu.pc(), 520);

    let mut emu = Emu::new();
    // v0 = 5, v1 = 6: 9XY0 skips.
    emu.load(&[0x60, 0x05, 0x61, 0x06, 0x90, 0x10]).unwrap();
    emu.tick().unwrap();
    emu.tick().unwrap();
    emu.tick().unwrap();
    assert_eq!(emu.pc(), 520);
}

#[test]
fn skip_when_key_pressed() {
    let mut emu = Emu::new();
    emu.load(&[0x60, 0x02, 0xE0, 0x9E]).unwrap();
    emu.keypress(2, true);
    emu.tick().unwrap();
    emu.tick().unwrap();
    assert_eq!(emu.pc(), 518);

    let mut emu = Emu::new();
    emu.load(&[0x60, 0x02, 0xE0, 0x9E]).unwrap();
    emu.tick().unwrap();
    emu.tick().unwrap();
    assert_eq!(emu.pc(), 516);
}

#[test]
fn skip_when_key_released() {
    let mut emu = Emu::new();
    emu.load(&[0x60, 0x02, 0xE0, 0xA1]).unwrap();
    emu.tick().unwrap();
    emu.tick().unwrap();
    assert_eq!(emu.pc(), 518);

    let mut emu = Emu::new();
    emu.load(&[0x60, 0x02, 0xE0, 0xA1]).unwrap();
    emu.keypress(2, true);
    emu.tick().unwrap();
    emu.tick().unwrap();
    assert_eq!(emu.pc(), 516);
}

#[test]
fn key_wait_blocks_until_key_then_stores_lowest() {
    let mut emu = Emu::new();
    emu.load(&[0xF5, 0x0A]).unwrap();
    // No key pressed: the program counter is unchanged net of the
    // instruction's own width, so the same instruction re-executes.
    emu.tick().unwrap();
    assert_eq!(emu.pc(), 512);
    emu.tick().unwrap();
    assert_eq!(emu.pc(), 512);
    // Press keys 7 and 3: the lowest pressed index is stored.
    emu.keypress(7, true);
    emu.keypress(3, true);
    emu.tick().unwrap();
    assert_eq!(emu.pc(), 514);
    assert_eq!(emu.v_reg(5), 3);
}

#[test]
fn set_index_and_add_index() {
    let mut emu = Emu::new();
    emu.load(&[0xA1, 0x23, 0x60, 0x05, 0xF0, 0x1E]).unwrap();
    emu.tick().unwrap();
    assert_eq!(emu.i_reg(), 0x123);
    emu.tick().unwrap();
    emu.tick().unwrap();
    assert_eq!(emu.i_reg(), 0x128);
}

#[test]
fn font_addr_uses_low_nibble_times_five() {
    let mut emu = Emu::new();
    // v10 = 0x1B: glyph B at address 11 * 5 = 55.
    emu.load(&[0x6A, 0x1B, 0xFA, 0x29]).unwrap();
    emu.tick().unwrap();
    emu.tick().unwrap();
    assert_eq!(emu.i_reg(), 55);
}

#[test]
fn unknown_opcode_faults_distinctly() {
    let mut emu = Emu::new();
    emu.load(&[0x50, 0x01]).unwrap();
    assert_eq!(emu.tick(), Err(Fault::UnknownOpcode(0x5001)));

    let mut emu = Emu::new();
    emu.load(&[0xF0, 0xFF]).unwrap();
    assert_eq!(emu.tick(), Err(Fault::UnknownOpcode(0xF0FF)));
}

#[test]
fn return_with_empty_stack_underflows() {
    let mut emu = Emu::new();
    emu.load(&[0x00, 0xEE]).unwrap();
    assert_eq!(emu.tick(), Err(Fault::StackUnderflow));
}

#[test]
fn seventeenth_nested_call_overflows() {
    let mut emu = Emu::new();
    // Call 0x200 forever: each call pushes one return address.
    emu.load(&[0x22, 0x00]).unwrap();
    for _ in 0..16 {
        assert_eq!(emu.tick(), Ok(()));
    }
    assert_eq!(emu.sp(), 16);
    assert_eq!(emu.tick(), Err(Fault::StackOverflow));
    assert_eq!(emu.sp(), 16);
}

#[test]
fn fetch_past_end_of_memory_faults() {
    let mut emu = Emu::new();
    // Jump to 0xFFF: the next fetch needs bytes 4095 and 4096.
    emu.load(&[0x1F, 0xFF]).unwrap();
    emu.tick().unwrap();
    assert_eq!(emu.pc(), 0xFFF);
    assert_eq!(emu.tick(), Err(Fault::OutOfBounds));
    assert_eq!(emu.pc(), 0xFFF);
}

#[test]
fn key_index_out_of_range_faults() {
    let mut emu = Emu::new();
    // v0 = 16: no such key.
    emu.load(&[0x60, 0x10, 0xE0, 0x9E]).unwrap();
    emu.tick().unwrap();
    assert_eq!(emu.tick(), Err(Fault::OutOfBounds));
}
