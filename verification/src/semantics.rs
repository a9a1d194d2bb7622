use vstd::prelude::*;

use crate::isa::{decode, Instr};
use crate::machine::{Fault, MachineState, NUM_KEYS, RAM_SIZE, SCREEN_HEIGHT, SCREEN_SIZE,
    SCREEN_WIDTH, STACK_SIZE};

verus! {

/// Write one general-purpose register, leaving the rest of the state alone.
pub open spec fn set_reg(s: MachineState, x: int, val: u8) -> MachineState {
    MachineState { v_reg: s.v_reg.update(x, val), ..s }
}

/// Write the flag register (register 15).
pub open spec fn set_flag(s: MachineState, flag: u8) -> MachineState {
    set_reg(s, 15, flag)
}

/// Skip the next instruction (advance the program counter one more word)
/// when `cond` holds.
pub open spec fn skip_if(s: MachineState, cond: bool) -> MachineState {
    if cond {
        MachineState { pc: (s.pc + 2) as u16, ..s }
    } else {
        s
    }
}

/// The 8-bit wrapped sum of two register values.
pub open spec fn wrap_add(a: u8, b: u8) -> u8 {
    ((a + b) % 256) as u8
}

/// The 16-bit wrapped sum, for the index register.
pub open spec fn wrap_add16(a: u16, b: u16) -> u16 {
    if a + b > 0xFFFF {
        (a + b - 0x10000) as u16
    } else {
        (a + b) as u16
    }
}

/// The 8-bit wrapped difference `a - b` (inverted-borrow convention leaves
/// the flag handling to the instruction itself).
pub open spec fn wrap_sub(a: u8, b: u8) -> u8 {
    if a >= b {
        (a - b) as u8
    } else {
        (a - b + 256) as u8
    }
}

/// Whether the sprite row byte `row` has its bit for column offset `c` set,
/// counting column 0 as the most significant bit.
pub open spec fn sprite_row_bit(row: u8, c: int) -> bool {
    row & (0x80u8 >> (c as u8)) != 0
}

/// The framebuffer cell a sprite bit at row offset `r`, column offset `c`
/// lands on when the sprite is drawn at `(x0, y0)`: both coordinates wrap.
pub open spec fn target_cell(x0: u8, y0: u8, r: int, c: int) -> int {
    (x0 + c) % (SCREEN_WIDTH as int) + (SCREEN_WIDTH as int) * ((y0 + r) % (SCREEN_HEIGHT as int))
}

/// Whether the draw of the `n`-row sprite at memory `i_reg`, drawn at
/// `(x0, y0)`, flips the framebuffer cell `cell`.
pub open spec fn sprite_hits_cell(
    ram: Seq<u8>,
    i_reg: int,
    x0: u8,
    y0: u8,
    n: int,
    cell: int,
) -> bool {
    exists|r: int, c: int|
        0 <= r < n && 0 <= c < 8 && cell == target_cell(x0, y0, r, c) && sprite_row_bit(
            ram[i_reg + r],
            c,
        )
}

/// The framebuffer after a draw: each flipped cell is XORed, the rest keep
/// their value.
pub open spec fn draw_screen_spec(
    screen: Seq<bool>,
    ram: Seq<u8>,
    i_reg: int,
    x0: u8,
    y0: u8,
    n: int,
) -> Seq<bool> {
    Seq::new(
        screen.len(),
        |cell: int| screen[cell] != sprite_hits_cell(ram, i_reg, x0, y0, n, cell),
    )
}

/// Whether a draw turns at least one lit cell dark: some sprite bit is set
/// and lands on a cell that is already lit.
pub open spec fn draw_collision(
    screen: Seq<bool>,
    ram: Seq<u8>,
    i_reg: int,
    x0: u8,
    y0: u8,
    n: int,
) -> bool {
    exists|r: int, c: int|
        0 <= r < n && 0 <= c < 8 && sprite_row_bit(ram[i_reg + r], c) && screen[target_cell(
            x0,
            y0,
            r,
            c,
        )]
}

/// The lowest pressed key index at or above `i`, or `NUM_KEYS` when no key
/// at or above `i` is pressed.
pub open spec fn first_pressed(keys: Seq<bool>, i: int) -> int
    decreases NUM_KEYS - i,
{
    if i < 0 || i >= NUM_KEYS {
        NUM_KEYS as int
    } else if keys[i] {
        i
    } else {
        first_pressed(keys, i + 1)
    }
}

/// Scanning for the lowest pressed key may start anywhere at or before the
/// first pressed index without changing what it finds.
pub proof fn lemma_first_pressed_skip(keys: Seq<bool>, i: int)
    requires
        0 <= i <= NUM_KEYS,
        forall|j: int| 0 <= j < i ==> !keys[j],
    ensures
        first_pressed(keys, 0) == first_pressed(keys, i),
    decreases i,
{
    if i > 0 {
        lemma_first_pressed_skip(keys, i - 1);
    }
}

/// The effect of one decoded instruction on the machine state `s`, where
/// `s` is the state after fetch (program counter already past the
/// instruction word).  `rnd` is the byte drawn by the random-number
/// instruction; every other instruction ignores it.  A fault leaves the
/// state unchanged.
pub open spec fn instr_step(s: MachineState, instr: Instr, rnd: u8) -> Result<MachineState, Fault> {
    match instr {
        Instr::ClearScreen => Ok(
            MachineState { screen: Seq::new(SCREEN_SIZE as nat, |i: int| false), ..s },
        ),
        Instr::Return => {
            if s.sp == 0 {
                Err(Fault::StackUnderflow)
            } else {
                Ok(MachineState { pc: s.stack[s.sp - 1], sp: (s.sp - 1) as u16, ..s })
            }
        },
        Instr::Jump(nnn) => Ok(MachineState { pc: nnn, ..s }),
        Instr::Call(nnn) => {
            if s.sp >= STACK_SIZE {
                Err(Fault::StackOverflow)
            } else {
                Ok(
                    MachineState {
                        stack: s.stack.update(s.sp as int, s.pc),
                        sp: (s.sp + 1) as u16,
                        pc: nnn,
                        ..s
                    },
                )
            }
        },
        Instr::SkipEqImm(x, nn) => Ok(skip_if(s, s.v_reg[x as int] == nn)),
        Instr::SkipNeImm(x, nn) => Ok(skip_if(s, s.v_reg[x as int] != nn)),
        Instr::SkipEqReg(x, y) => Ok(skip_if(s, s.v_reg[x as int] == s.v_reg[y as int])),
        Instr::SetImm(x, nn) => Ok(set_reg(s, x as int, nn)),
        Instr::AddImm(x, nn) => Ok(set_reg(s, x as int, wrap_add(s.v_reg[x as int], nn))),
        Instr::Copy(x, y) => Ok(set_reg(s, x as int, s.v_reg[y as int])),
        Instr::Or(x, y) => Ok(set_reg(s, x as int, s.v_reg[x as int] | s.v_reg[y as int])),
        Instr::And(x, y) => Ok(set_reg(s, x as int, s.v_reg[x as int] & s.v_reg[y as int])),
        Instr::Xor(x, y) => Ok(set_reg(s, x as int, s.v_reg[x as int] ^ s.v_reg[y as int])),
        Instr::AddReg(x, y) => {
            let vx = s.v_reg[x as int];
            let vy = s.v_reg[y as int];
            Ok(
                set_flag(
                    set_reg(s, x as int, wrap_add(vx, vy)),
                    if vx + vy > 255 {
                        1u8
                    } else {
                        0u8
                    },
                ),
            )
        },
        Instr::SubReg(x, y) => {
            let vx = s.v_reg[x as int];
            let vy = s.v_reg[y as int];
            Ok(
                set_flag(
                    set_reg(s, x as int, wrap_sub(vx, vy)),
                    if vx >= vy {
                        1u8
                    } else {
                        0u8
                    },
                ),
            )
        },
        Instr::ShiftRight(x) => {
            let vx = s.v_reg[x as int];
            Ok(set_flag(set_reg(s, x as int, (vx / 2) as u8), (vx % 2) as u8))
        },
        Instr::SubFrom(x, y) => {
            let vx = s.v_reg[x as int];
            let vy = s.v_reg[y as int];
            Ok(
                set_flag(
                    set_reg(s, x as int, wrap_sub(vy, vx)),
                    if vy >= vx {
                        1u8
                    } else {
                        0u8
                    },
                ),
            )
        },
        Instr::ShiftLeft(x) => {
            let vx = s.v_reg[x as int];
            Ok(set_flag(set_reg(s, x as int, ((vx * 2) % 256) as u8), (vx / 128) as u8))
        },
        Instr::SkipNeReg(x, y) => Ok(skip_if(s, s.v_reg[x as int] != s.v_reg[y as int])),
        Instr::SetIndex(nnn) => Ok(MachineState { i_reg: nnn, ..s }),
        Instr::JumpPlus(nnn) => Ok(MachineState { pc: (s.v_reg[0] + nnn) as u16, ..s }),
        Instr::Random(x, nn) => Ok(set_reg(s, x as int, rnd & nn)),
        Instr::Draw(x, y, n) => {
            if s.i_reg + n > RAM_SIZE {
                Err(Fault::OutOfBounds)
            } else {
                let x0 = s.v_reg[x as int];
                let y0 = s.v_reg[y as int];
                Ok(
                    set_flag(
                        MachineState {
                            screen: draw_screen_spec(
                                s.screen,
                                s.ram,
                                s.i_reg as int,
                                x0,
                                y0,
                                n as int,
                            ),
                            ..s
                        },
                        if draw_collision(s.screen, s.ram, s.i_reg as int, x0, y0, n as int) {
                            1u8
                        } else {
                            0u8
                        },
                    ),
                )
            }
        },
        Instr::SkipKeyPressed(x) => {
            if s.v_reg[x as int] >= NUM_KEYS {
                Err(Fault::OutOfBounds)
            } else {
                Ok(skip_if(s, s.keys[s.v_reg[x as int] as int]))
            }
        },
        Instr::SkipKeyReleased(x) => {
            if s.v_reg[x as int] >= NUM_KEYS {
                Err(Fault::OutOfBounds)
            } else {
                Ok(skip_if(s, !s.keys[s.v_reg[x as int] as int]))
            }
        },
        Instr::ReadDelay(x) => Ok(set_reg(s, x as int, s.dt)),
        Instr::WaitKey(x) => {
            let k = first_pressed(s.keys, 0);
            if k < NUM_KEYS {
                Ok(set_reg(s, x as int, k as u8))
            } else {
                Ok(MachineState { pc: (s.pc - 2) as u16, ..s })
            }
        },
        Instr::SetDelay(x) => Ok(MachineState { dt: s.v_reg[x as int], ..s }),
        Instr::SetSound(x) => Ok(MachineState { st: s.v_reg[x as int], ..s }),
        Instr::AddIndex(x) => Ok(
            MachineState { i_reg: wrap_add16(s.i_reg, s.v_reg[x as int] as u16), ..s },
        ),
        Instr::FontAddr(x) => Ok(
            MachineState { i_reg: ((s.v_reg[x as int] % 16) * 5) as u16, ..s },
        ),
        Instr::StoreDigits(x) => {
            if s.i_reg + 3 > RAM_SIZE {
                Err(Fault::OutOfBounds)
            } else {
                let vx = s.v_reg[x as int];
                let i = s.i_reg as int;
                Ok(
                    MachineState {
                        ram: s.ram.update(i, (vx / 100) as u8).update(
                            i + 1,
                            ((vx / 10) % 10) as u8,
                        ).update(i + 2, (vx % 10) as u8),
                        ..s
                    },
                )
            }
        },
        Instr::StoreRegs(x) => {
            if s.i_reg + x + 1 > RAM_SIZE {
                Err(Fault::OutOfBounds)
            } else {
                let i = s.i_reg as int;
                Ok(
                    MachineState {
                        ram: Seq::new(
                            s.ram.len(),
                            |j: int|
                                if i <= j <= i + x {
                                    s.v_reg[j - i]
                                } else {
                                    s.ram[j]
                                },
                        ),
                        ..s
                    },
                )
            }
        },
        Instr::LoadRegs(x) => {
            if s.i_reg + x + 1 > RAM_SIZE {
                Err(Fault::OutOfBounds)
            } else {
                let i = s.i_reg as int;
                Ok(
                    MachineState {
                        v_reg: Seq::new(
                            s.v_reg.len(),
                            |k: int|
                                if k <= x {
                                    s.ram[i + k]
                                } else {
                                    s.v_reg[k]
                                },
                        ),
                        ..s
                    },
                )
            }
        },
    }
}

/// Fetch faults exactly when the two bytes at the program counter do not
/// both lie inside memory.
pub open spec fn fetch_fault(s: MachineState) -> bool {
    s.pc + 1 >= RAM_SIZE
}

/// The opcode word at the program counter, big-endian.
pub open spec fn fetched_op(s: MachineState) -> u16 {
    (s.ram[s.pc as int] * 256 + s.ram[s.pc as int + 1]) as u16
}

/// The state right after a successful fetch: the program counter has moved
/// past the instruction word.
pub open spec fn post_fetch(s: MachineState) -> MachineState {
    MachineState { pc: (s.pc + 2) as u16, ..s }
}

/// Decode and execute one already-fetched opcode against the post-fetch
/// state `s`.
pub open spec fn op_step(s: MachineState, op: u16, rnd: u8) -> Result<MachineState, Fault> {
    match decode(op) {
        Some(instr) => instr_step(s, instr, rnd),
        None => Err(Fault::UnknownOpcode(op)),
    }
}

/// One whole cycle: fetch, decode, execute.  `rnd` is the byte the
/// random-number instruction would draw this cycle.
pub open spec fn step(s: MachineState, rnd: u8) -> Result<MachineState, Fault> {
    if fetch_fault(s) {
        Err(Fault::OutOfBounds)
    } else {
        op_step(post_fetch(s), fetched_op(s), rnd)
    }
}

/// The sprite bits a draw walks before reaching row `rows`, column `cols`:
/// rows are walked outermost, columns within a row from 0 to 7.
pub open spec fn prefix_pair(rows: int, cols: int, r: int, c: int) -> bool {
    0 <= r && 0 <= c < 8 && (r < rows || (r == rows && c < cols))
}

/// Whether a sprite bit walked before `(rows, cols)` flips `cell`.
pub open spec fn hit_by_prefix(
    ram: Seq<u8>,
    i_reg: int,
    x0: u8,
    y0: u8,
    rows: int,
    cols: int,
    cell: int,
) -> bool {
    exists|r: int, c: int|
        prefix_pair(rows, cols, r, c) && cell == target_cell(x0, y0, r, c) && sprite_row_bit(
            ram[i_reg + r],
            c,
        )
}

/// Whether a sprite bit walked before `(rows, cols)` lands on a cell of
/// `screen` that is lit.
pub open spec fn collision_prefix(
    screen: Seq<bool>,
    ram: Seq<u8>,
    i_reg: int,
    x0: u8,
    y0: u8,
    rows: int,
    cols: int,
) -> bool {
    exists|r: int, c: int|
        prefix_pair(rows, cols, r, c) && sprite_row_bit(ram[i_reg + r], c) && screen[target_cell(
            x0,
            y0,
            r,
            c,
        )]
}

/// Two distinct sprite bits of one draw never land on the same framebuffer
/// cell: with at most 32 rows and 8 columns, wrapped rows and columns stay
/// distinct.
pub proof fn lemma_target_cell_injective(x0: u8, y0: u8, r1: int, c1: int, r2: int, c2: int)
    requires
        0 <= r1 < 32,
        0 <= r2 < 32,
        0 <= c1 < 8,
        0 <= c2 < 8,
        target_cell(x0, y0, r1, c1) == target_cell(x0, y0, r2, c2),
    ensures
        r1 == r2,
        c1 == c2,
{
    let a1 = (x0 + c1) % 64;
    let b1 = (y0 + r1) % 32;
    let a2 = (x0 + c2) % 64;
    let b2 = (y0 + r2) % 32;
    assert(0 <= a1 < 64 && 0 <= a2 < 64 && 0 <= b1 < 32 && 0 <= b2 < 32);
    assert(a1 + 64 * b1 == a2 + 64 * b2);
    assert(a1 == a2 && b1 == b2);
    vstd::arithmetic::div_mod::lemma_fundamental_div_mod(x0 + c1, 64);
    vstd::arithmetic::div_mod::lemma_fundamental_div_mod(x0 + c2, 64);
    let qc1 = (x0 + c1) / 64;
    let qc2 = (x0 + c2) / 64;
    assert(c1 - c2 == 64 * (qc1 - qc2));
    assert(qc1 == qc2) by {
        if qc1 > qc2 {
            assert(64 * (qc1 - qc2) >= 64);
        }
        if qc1 < qc2 {
            assert(64 * (qc1 - qc2) <= -64);
        }
    }
    vstd::arithmetic::div_mod::lemma_fundamental_div_mod(y0 + r1, 32);
    vstd::arithmetic::div_mod::lemma_fundamental_div_mod(y0 + r2, 32);
    let qr1 = (y0 + r1) / 32;
    let qr2 = (y0 + r2) / 32;
    assert(r1 - r2 == 32 * (qr1 - qr2));
    assert(qr1 == qr2) by {
        if qr1 > qr2 {
            assert(32 * (qr1 - qr2) >= 32);
        }
        if qr1 < qr2 {
            assert(32 * (qr1 - qr2) <= -32);
        }
    }
}

/// Walking one more sprite bit extends the set of flipped cells by at most
/// that bit's own target.
pub proof fn lemma_hit_prefix_step(
    ram: Seq<u8>,
    i_reg: int,
    x0: u8,
    y0: u8,
    row: int,
    col: int,
    cell: int,
)
    requires
        0 <= row,
        0 <= col < 8,
    ensures
        hit_by_prefix(ram, i_reg, x0, y0, row, col + 1, cell) == (hit_by_prefix(
            ram,
            i_reg,
            x0,
            y0,
            row,
            col,
            cell,
        ) || (cell == target_cell(x0, y0, row, col) && sprite_row_bit(ram[i_reg + row], col))),
{
    if hit_by_prefix(ram, i_reg, x0, y0, row, col + 1, cell) {
        let (r, c) = choose|r: int, c: int|
            prefix_pair(row, col + 1, r, c) && cell == target_cell(x0, y0, r, c) && sprite_row_bit(
                ram[i_reg + r],
                c,
            );
        if !(r == row && c == col) {
            assert(prefix_pair(row, col, r, c));
            assert(hit_by_prefix(ram, i_reg, x0, y0, row, col, cell));
        }
    }
    if hit_by_prefix(ram, i_reg, x0, y0, row, col, cell) {
        let (r, c) = choose|r: int, c: int|
            prefix_pair(row, col, r, c) && cell == target_cell(x0, y0, r, c) && sprite_row_bit(
                ram[i_reg + r],
                c,
            );
        assert(prefix_pair(row, col + 1, r, c));
        assert(hit_by_prefix(ram, i_reg, x0, y0, row, col + 1, cell));
    }
    if cell == target_cell(x0, y0, row, col) && sprite_row_bit(ram[i_reg + row], col) {
        assert(prefix_pair(row, col + 1, row, col));
        assert(hit_by_prefix(ram, i_reg, x0, y0, row, col + 1, cell));
    }
}

/// Finishing a row's eight columns is the same as standing at the start of
/// the next row.
pub proof fn lemma_hit_prefix_row_end(
    ram: Seq<u8>,
    i_reg: int,
    x0: u8,
    y0: u8,
    row: int,
    cell: int,
)
    requires
        0 <= row,
    ensures
        hit_by_prefix(ram, i_reg, x0, y0, row, 8, cell) == hit_by_prefix(
            ram,
            i_reg,
            x0,
            y0,
            row + 1,
            0,
            cell,
        ),
{
    if hit_by_prefix(ram, i_reg, x0, y0, row, 8, cell) {
        let (r, c) = choose|r: int, c: int|
            prefix_pair(row, 8, r, c) && cell == target_cell(x0, y0, r, c) && sprite_row_bit(
                ram[i_reg + r],
                c,
            );
        assert(prefix_pair(row + 1, 0, r, c));
        assert(hit_by_prefix(ram, i_reg, x0, y0, row + 1, 0, cell));
    }
    if hit_by_prefix(ram, i_reg, x0, y0, row + 1, 0, cell) {
        let (r, c) = choose|r: int, c: int|
            prefix_pair(row + 1, 0, r, c) && cell == target_cell(x0, y0, r, c) && sprite_row_bit(
                ram[i_reg + r],
                c,
            );
        assert(prefix_pair(row, 8, r, c));
        assert(hit_by_prefix(ram, i_reg, x0, y0, row, 8, cell));
    }
}

/// Having walked all `n` rows, the flipped cells are exactly those the
/// whole sprite hits.
pub proof fn lemma_hit_prefix_full(ram: Seq<u8>, i_reg: int, x0: u8, y0: u8, n: int, cell: int)
    ensures
        hit_by_prefix(ram, i_reg, x0, y0, n, 0, cell) == sprite_hits_cell(
            ram,
            i_reg,
            x0,
            y0,
            n,
            cell,
        ),
{
    if hit_by_prefix(ram, i_reg, x0, y0, n, 0, cell) {
        let (r, c) = choose|r: int, c: int|
            prefix_pair(n, 0, r, c) && cell == target_cell(x0, y0, r, c) && sprite_row_bit(
                ram[i_reg + r],
                c,
            );
        assert(0 <= r < n && 0 <= c < 8 && cell == target_cell(x0, y0, r, c) && sprite_row_bit(
            ram[i_reg + r],
            c,
        ));
        assert(sprite_hits_cell(ram, i_reg, x0, y0, n, cell));
    }
    if sprite_hits_cell(ram, i_reg, x0, y0, n, cell) {
        let (r, c) = choose|r: int, c: int|
            0 <= r < n && 0 <= c < 8 && cell == target_cell(x0, y0, r, c) && sprite_row_bit(
                ram[i_reg + r],
                c,
            );
        assert(prefix_pair(n, 0, r, c));
        assert(hit_by_prefix(ram, i_reg, x0, y0, n, 0, cell));
    }
}

/// Walking one more sprite bit extends the collisions seen by at most that
/// bit's own target.
pub proof fn lemma_collision_prefix_step(
    screen: Seq<bool>,
    ram: Seq<u8>,
    i_reg: int,
    x0: u8,
    y0: u8,
    row: int,
    col: int,
)
    requires
        0 <= row,
        0 <= col < 8,
    ensures
        collision_prefix(screen, ram, i_reg, x0, y0, row, col + 1) == (collision_prefix(
            screen,
            ram,
            i_reg,
            x0,
            y0,
            row,
            col,
        ) || (sprite_row_bit(ram[i_reg + row], col) && screen[target_cell(x0, y0, row, col)])),
{
    if collision_prefix(screen, ram, i_reg, x0, y0, row, col + 1) {
        let (r, c) = choose|r: int, c: int|
            prefix_pair(row, col + 1, r, c) && sprite_row_bit(ram[i_reg + r], c)
                && screen[target_cell(x0, y0, r, c)];
        if !(r == row && c == col) {
            assert(prefix_pair(row, col, r, c));
            assert(collision_prefix(screen, ram, i_reg, x0, y0, row, col));
        }
    }
    if collision_prefix(screen, ram, i_reg, x0, y0, row, col) {
        let (r, c) = choose|r: int, c: int|
            prefix_pair(row, col, r, c) && sprite_row_bit(ram[i_reg + r], c) && screen[target_cell(
                x0,
                y0,
                r,
                c,
            )];
        assert(prefix_pair(row, col + 1, r, c));
        assert(collision_prefix(screen, ram, i_reg, x0, y0, row, col + 1));
    }
    if sprite_row_bit(ram[i_reg + row], col) && screen[target_cell(x0, y0, row, col)] {
        assert(prefix_pair(row, col + 1, row, col));
        assert(collision_prefix(screen, ram, i_reg, x0, y0, row, col + 1));
    }
}

/// Collision analogue of finishing a row.
pub proof fn lemma_collision_prefix_row_end(
    screen: Seq<bool>,
    ram: Seq<u8>,
    i_reg: int,
    x0: u8,
    y0: u8,
    row: int,
)
    requires
        0 <= row,
    ensures
        collision_prefix(screen, ram, i_reg, x0, y0, row, 8) == collision_prefix(
            screen,
            ram,
            i_reg,
            x0,
            y0,
            row + 1,
            0,
        ),
{
    if collision_prefix(screen, ram, i_reg, x0, y0, row, 8) {
        let (r, c) = choose|r: int, c: int|
            prefix_pair(row, 8, r, c) && sprite_row_bit(ram[i_reg + r], c) && screen[target_cell(
                x0,
                y0,
                r,
                c,
            )];
        assert(prefix_pair(row + 1, 0, r, c));
        assert(collision_prefix(screen, ram, i_reg, x0, y0, row + 1, 0));
    }
    if collision_prefix(screen, ram, i_reg, x0, y0, row + 1, 0) {
        let (r, c) = choose|r: int, c: int|
            prefix_pair(row + 1, 0, r, c) && sprite_row_bit(ram[i_reg + r], c) && screen[
                target_cell(x0, y0, r, c)];
        assert(prefix_pair(row, 8, r, c));
        assert(collision_prefix(screen, ram, i_reg, x0, y0, row, 8));
    }
}

/// Having walked all `n` rows, the collisions seen are exactly the draw's
/// collisions.
pub proof fn lemma_collision_prefix_full(
    screen: Seq<bool>,
    ram: Seq<u8>,
    i_reg: int,
    x0: u8,
    y0: u8,
    n: int,
)
    ensures
        collision_prefix(screen, ram, i_reg, x0, y0, n, 0) == draw_collision(
            screen,
            ram,
            i_reg,
            x0,
            y0,
            n,
        ),
{
    if collision_prefix(screen, ram, i_reg, x0, y0, n, 0) {
        let (r, c) = choose|r: int, c: int|
            prefix_pair(n, 0, r, c) && sprite_row_bit(ram[i_reg + r], c) && screen[target_cell(
                x0,
                y0,
                r,
                c,
            )];
        assert(0 <= r < n && 0 <= c < 8 && sprite_row_bit(ram[i_reg + r], c) && screen[target_cell(
            x0,
            y0,
            r,
            c,
        )]);
        assert(draw_collision(screen, ram, i_reg, x0, y0, n));
    }
    if draw_collision(screen, ram, i_reg, x0, y0, n) {
        let (r, c) = choose|r: int, c: int|
            0 <= r < n && 0 <= c < 8 && sprite_row_bit(ram[i_reg + r], c) && screen[target_cell(
                x0,
                y0,
                r,
                c,
            )];
        assert(prefix_pair(n, 0, r, c));
        assert(collision_prefix(screen, ram, i_reg, x0, y0, n, 0));
    }
}

} // verus!
