use chip8_core::isa::decode_instr;
use chip8_core::Instr;

#[test]
fn decoder_splits_operand_fields() {
    assert_eq!(decode_instr(0x00E0), Some(Instr::ClearScreen));
    assert_eq!(decode_instr(0x00EE), Some(Instr::Return));
    assert_eq!(decode_instr(0x1345), Some(Instr::Jump(0x345)));
    assert_eq!(decode_instr(0x2ABC), Some(Instr::Call(0xABC)));
    assert_eq!(decode_instr(0x3A7F), Some(Instr::SkipEqImm(10, 0x7F)));
    assert_eq!(decode_instr(0x6A3C), Some(Instr::SetImm(10, 0x3C)));
    assert_eq!(decode_instr(0x8AB4), Some(Instr::AddReg(10, 11)));
    assert_eq!(decode_instr(0x8AB6), Some(Instr::ShiftRight(10)));
    assert_eq!(decode_instr(0xD125), Some(Instr::Draw(1, 2, 5)));
    assert_eq!(decode_instr(0xE29E), Some(Instr::SkipKeyPressed(2)));
    assert_eq!(decode_instr(0xF50A), Some(Instr::WaitKey(5)));
    assert_eq!(decode_instr(0xF365), Some(Instr::LoadRegs(3)));
}

#[test]
fn decoder_rejects_unknown_patterns() {
    assert_eq!(decode_instr(0x0000), None);
    assert_eq!(decode_instr(0x5001), None);
    assert_eq!(decode_instr(0x8008), None);
    assert_eq!(decode_instr(0x9002), None);
    assert_eq!(decode_instr(0xE000), None);
    assert_eq!(decode_instr(0xF0FF), None);
    assert_eq!(decode_instr(0x0123), None);
}
