use vstd::prelude::*;

verus! {

/// One decoded CHIP-8 instruction.  Register operands are 4-bit indices,
/// `nn` is the 8-bit immediate, the 12-bit immediate address is a `u16`
/// below 4096, and the sprite height `n` is a 4-bit value.
#[derive(Clone, Copy, Debug, PartialEq, Eq, Structural)]
pub enum Instr {
    /// 00E0: zero the whole framebuffer.
    ClearScreen,
    /// 00EE: pop an address off the call stack and jump there.
    Return,
    /// 1NNN: jump to the immediate address.
    Jump(u16),
    /// 2NNN: push the current program counter, then jump.
    Call(u16),
    /// 3XNN: skip the next instruction when `v[x] == nn`.
    SkipEqImm(u8, u8),
    /// 4XNN: skip the next instruction when `v[x] != nn`.
    SkipNeImm(u8, u8),
    /// 5XY0: skip the next instruction when `v[x] == v[y]`.
    SkipEqReg(u8, u8),
    /// 6XNN: `v[x] = nn`.
    SetImm(u8, u8),
    /// 7XNN: `v[x] += nn`, wrapping, no flag update.
    AddImm(u8, u8),
    /// 8XY0: `v[x] = v[y]`.
    Copy(u8, u8),
    /// 8XY1: `v[x] |= v[y]`.
    Or(u8, u8),
    /// 8XY2: `v[x] &= v[y]`.
    And(u8, u8),
    /// 8XY3: `v[x] ^= v[y]`.
    Xor(u8, u8),
    /// 8XY4: `v[x] += v[y]`, flag 1 on unsigned overflow else 0.
    AddReg(u8, u8),
    /// 8XY5: `v[x] -= v[y]`, flag 1 when no borrow (`v[x] >= v[y]`) else 0.
    SubReg(u8, u8),
    /// 8XY6: flag takes the pre-shift least-significant bit, then `v[x] >>= 1`.
    ShiftRight(u8),
    /// 8XY7: `v[x] = v[y] - v[x]`, flag 1 when no borrow (`v[y] >= v[x]`) else 0.
    SubFrom(u8, u8),
    /// 8XYE: flag takes the pre-shift most-significant bit, then `v[x] <<= 1`.
    ShiftLeft(u8),
    /// 9XY0: skip the next instruction when `v[x] != v[y]`.
    SkipNeReg(u8, u8),
    /// ANNN: `i = nnn`.
    SetIndex(u16),
    /// BNNN: jump to `v[0] + nnn`.
    JumpPlus(u16),
    /// CXNN: `v[x] = random byte & nn`.
    Random(u8, u8),
    /// DXYN: draw the 8-wide, `n`-tall sprite at memory `i` to `(v[x], v[y])`.
    Draw(u8, u8, u8),
    /// EX9E: skip the next instruction when key `v[x]` is pressed.
    SkipKeyPressed(u8),
    /// EXA1: skip the next instruction when key `v[x]` is released.
    SkipKeyReleased(u8),
    /// FX07: `v[x] = delay timer`.
    ReadDelay(u8),
    /// FX0A: block until a key is pressed, then store its index in `v[x]`.
    WaitKey(u8),
    /// FX15: `delay timer = v[x]`.
    SetDelay(u8),
    /// FX18: `sound timer = v[x]`.
    SetSound(u8),
    /// FX1E: `i += v[x]`, wrapping, no flag update.
    AddIndex(u8),
    /// FX29: point `i` at the font glyph for the low nibble of `v[x]`.
    FontAddr(u8),
    /// FX33: store the decimal digits of `v[x]` at `i`, `i+1`, `i+2`.
    StoreDigits(u8),
    /// FX55: store `v[0]..=v[x]` to memory starting at `i`.
    StoreRegs(u8),
    /// FX65: load `v[0]..=v[x]` from memory starting at `i`.
    LoadRegs(u8),
}

/// Leading nibble of an opcode: the instruction family.
pub open spec fn op_n1(op: u16) -> u16 {
    op / 0x1000
}

/// Second nibble: the `x` register operand.
pub open spec fn op_n2(op: u16) -> u16 {
    (op / 0x100) % 0x10
}

/// Third nibble: the `y` register operand.
pub open spec fn op_n3(op: u16) -> u16 {
    (op / 0x10) % 0x10
}

/// Trailing nibble: a sub-selector or the sprite height.
pub open spec fn op_n4(op: u16) -> u16 {
    op % 0x10
}

/// 12-bit immediate address formed from the low three nibbles.
pub open spec fn op_nnn(op: u16) -> u16 {
    op % 0x1000
}

/// 8-bit immediate formed from the low two nibbles.
pub open spec fn op_nn(op: u16) -> u8 {
    (op % 0x100) as u8
}

/// Decode an opcode word.  Exactly one instruction matches, or none: an
/// opcode outside the instruction set — the all-zero word included —
/// decodes to `None` and execution surfaces it as a fault.
pub open spec fn decode(op: u16) -> Option<Instr> {
    let x = op_n2(op) as u8;
    let y = op_n3(op) as u8;
    let n = op_n4(op) as u8;
    let nn = op_nn(op);
    let nnn = op_nnn(op);
    if op == 0x00E0 {
        Some(Instr::ClearScreen)
    } else if op == 0x00EE {
        Some(Instr::Return)
    } else if op_n1(op) == 0x1 {
        Some(Instr::Jump(nnn))
    } else if op_n1(op) == 0x2 {
        Some(Instr::Call(nnn))
    } else if op_n1(op) == 0x3 {
        Some(Instr::SkipEqImm(x, nn))
    } else if op_n1(op) == 0x4 {
        Some(Instr::SkipNeImm(x, nn))
    } else if op_n1(op) == 0x5 && op_n4(op) == 0x0 {
        Some(Instr::SkipEqReg(x, y))
    } else if op_n1(op) == 0x6 {
        Some(Instr::SetImm(x, nn))
    } else if op_n1(op) == 0x7 {
        Some(Instr::AddImm(x, nn))
    } else if op_n1(op) == 0x8 && op_n4(op) == 0x0 {
        Some(Instr::Copy(x, y))
    } else if op_n1(op) == 0x8 && op_n4(op) == 0x1 {
        Some(Instr::Or(x, y))
    } else if op_n1(op) == 0x8 && op_n4(op) == 0x2 {
        Some(Instr::And(x, y))
    } else if op_n1(op) == 0x8 && op_n4(op) == 0x3 {
        Some(Instr::Xor(x, y))
    } else if op_n1(op) == 0x8 && op_n4(op) == 0x4 {
        Some(Instr::AddReg(x, y))
    } else if op_n1(op) == 0x8 && op_n4(op) == 0x5 {
        Some(Instr::SubReg(x, y))
    } else if op_n1(op) == 0x8 && op_n4(op) == 0x6 {
        Some(Instr::ShiftRight(x))
    } else if op_n1(op) == 0x8 && op_n4(op) == 0x7 {
        Some(Instr::SubFrom(x, y))
    } else if op_n1(op) == 0x8 && op_n4(op) == 0xE {
        Some(Instr::ShiftLeft(x))
    } else if op_n1(op) == 0x9 && op_n4(op) == 0x0 {
        Some(Instr::SkipNeReg(x, y))
    } else if op_n1(op) == 0xA {
        Some(Instr::SetIndex(nnn))
    } else if op_n1(op) == 0xB {
        Some(Instr::JumpPlus(nnn))
    } else if op_n1(op) == 0xC {
        Some(Instr::Random(x, nn))
    } else if op_n1(op) == 0xD {
        Some(Instr::Draw(x, y, n))
    } else if op_n1(op) == 0xE && nn == 0x9E {
        Some(Instr::SkipKeyPressed(x))
    } else if op_n1(op) == 0xE && nn == 0xA1 {
        Some(Instr::SkipKeyReleased(x))
    } else if op_n1(op) == 0xF && nn == 0x07 {
        Some(Instr::ReadDelay(x))
    } else if op_n1(op) == 0xF && nn == 0x0A {
        Some(Instr::WaitKey(x))
    } else if op_n1(op) == 0xF && nn == 0x15 {
        Some(Instr::SetDelay(x))
    } else if op_n1(op) == 0xF && nn == 0x18 {
        Some(Instr::SetSound(x))
    } else if op_n1(op) == 0xF && nn == 0x1E {
        Some(Instr::AddIndex(x))
    } else if op_n1(op) == 0xF && nn == 0x29 {
        Some(Instr::FontAddr(x))
    } else if op_n1(op) == 0xF && nn == 0x33 {
        Some(Instr::StoreDigits(x))
    } else if op_n1(op) == 0xF && nn == 0x55 {
        Some(Instr::StoreRegs(x))
    } else if op_n1(op) == 0xF && nn == 0x65 {
        Some(Instr::LoadRegs(x))
    } else {
        None
    }
}

/// Every operand a decoded instruction carries is within its field's range.
pub open spec fn instr_wf(instr: Instr) -> bool {
    match instr {
        Instr::ClearScreen => true,
        Instr::Return => true,
        Instr::Jump(nnn) => nnn < 0x1000,
        Instr::Call(nnn) => nnn < 0x1000,
        Instr::SkipEqImm(x, _) => x < 16,
        Instr::SkipNeImm(x, _) => x < 16,
        Instr::SkipEqReg(x, y) => x < 16 && y < 16,
        Instr::SetImm(x, _) => x < 16,
        Instr::AddImm(x, _) => x < 16,
        Instr::Copy(x, y) => x < 16 && y < 16,
        Instr::Or(x, y) => x < 16 && y < 16,
        Instr::And(x, y) => x < 16 && y < 16,
        Instr::Xor(x, y) => x < 16 && y < 16,
        Instr::AddReg(x, y) => x < 16 && y < 16,
        Instr::SubReg(x, y) => x < 16 && y < 16,
        Instr::ShiftRight(x) => x < 16,
        Instr::SubFrom(x, y) => x < 16 && y < 16,
        Instr::ShiftLeft(x) => x < 16,
        Instr::SkipNeReg(x, y) => x < 16 && y < 16,
        Instr::SetIndex(nnn) => nnn < 0x1000,
        Instr::JumpPlus(nnn) => nnn < 0x1000,
        Instr::Random(x, _) => x < 16,
        Instr::Draw(x, y, n) => x < 16 && y < 16 && n < 16,
        Instr::SkipKeyPressed(x) => x < 16,
        Instr::SkipKeyReleased(x) => x < 16,
        Instr::ReadDelay(x) => x < 16,
        Instr::WaitKey(x) => x < 16,
        Instr::SetDelay(x) => x < 16,
        Instr::SetSound(x) => x < 16,
        Instr::AddIndex(x) => x < 16,
        Instr::FontAddr(x) => x < 16,
        Instr::StoreDigits(x) => x < 16,
        Instr::StoreRegs(x) => x < 16,
        Instr::LoadRegs(x) => x < 16,
    }
}

/// Whatever `decode` produces carries well-formed operands.
pub proof fn lemma_decode_wf(op: u16)
    ensures
        decode(op) matches Some(instr) ==> instr_wf(instr),
{
}

/// Executable decoder, equal to the specification `decode` on every opcode.
pub fn decode_instr(op: u16) -> (r: Option<Instr>)
    ensures
        r == decode(op),
{
    let n1 = op / 0x1000;
    let x = ((op / 0x100) % 0x10) as u8;
    let y = ((op / 0x10) % 0x10) as u8;
    let n = (op % 0x10) as u8;
    let nn = (op % 0x100) as u8;
    let nnn = op % 0x1000;
    if op == 0x00E0 {
        Some(Instr::ClearScreen)
    } else if op == 0x00EE {
        Some(Instr::Return)
    } else if n1 == 0x1 {
        Some(Instr::Jump(nnn))
    } else if n1 == 0x2 {
        Some(Instr::Call(nnn))
    } else if n1 == 0x3 {
        Some(Instr::SkipEqImm(x, nn))
    } else if n1 == 0x4 {
        Some(Instr::SkipNeImm(x, nn))
    } else if n1 == 0x5 && n == 0x0 {
        Some(Instr::SkipEqReg(x, y))
    } else if n1 == 0x6 {
        Some(Instr::SetImm(x, nn))
    } else if n1 == 0x7 {
        Some(Instr::AddImm(x, nn))
    } else if n1 == 0x8 && n == 0x0 {
        Some(Instr::Copy(x, y))
    } else if n1 == 0x8 && n == 0x1 {
        Some(Instr::Or(x, y))
    } else if n1 == 0x8 && n == 0x2 {
        Some(Instr::And(x, y))
    } else if n1 == 0x8 && n == 0x3 {
        Some(Instr::Xor(x, y))
    } else if n1 == 0x8 && n == 0x4 {
        Some(Instr::AddReg(x, y))
    } else if n1 == 0x8 && n == 0x5 {
        Some(Instr::SubReg(x, y))
    } else if n1 == 0x8 && n == 0x6 {
        Some(Instr::ShiftRight(x))
    } else if n1 == 0x8 && n == 0x7 {
        Some(Instr::SubFrom(x, y))
    } else if n1 == 0x8 && n == 0xE {
        Some(Instr::ShiftLeft(x))
    } else if n1 == 0x9 && n == 0x0 {
        Some(Instr::SkipNeReg(x, y))
    } else if n1 == 0xA {
        Some(Instr::SetIndex(nnn))
    } else if n1 == 0xB {
        Some(Instr::JumpPlus(nnn))
    } else if n1 == 0xC {
        Some(Instr::Random(x, nn))
    } else if n1 == 0xD {
        Some(Instr::Draw(x, y, n))
    } else if n1 == 0xE && nn == 0x9E {
        Some(Instr::SkipKeyPressed(x))
    } else if n1 == 0xE && nn == 0xA1 {
        Some(Instr::SkipKeyReleased(x))
    } else if n1 == 0xF && nn == 0x07 {
        Some(Instr::ReadDelay(x))
    } else if n1 == 0xF && nn == 0x0A {
        Some(Instr::WaitKey(x))
    } else if n1 == 0xF && nn == 0x15 {
        Some(Instr::SetDelay(x))
    } else if n1 == 0xF && nn == 0x18 {
        Some(Instr::SetSound(x))
    } else if n1 == 0xF && nn == 0x1E {
        Some(Instr::AddIndex(x))
    } else if n1 == 0xF && nn == 0x29 {
        Some(Instr::FontAddr(x))
    } else if n1 == 0xF && nn == 0x33 {
        Some(Instr::StoreDigits(x))
    } else if n1 == 0xF && nn == 0x55 {
        Some(Instr::StoreRegs(x))
    } else if n1 == 0xF && nn == 0x65 {
        Some(Instr::LoadRegs(x))
    } else {
        None
    }
}

} // verus!
