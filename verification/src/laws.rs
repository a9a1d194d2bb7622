use vstd::prelude::*;

use crate::isa::{decode, lemma_decode_wf, Instr};
use crate::machine::{initial_state, load_spec, Fault, MachineState, PROGRAM_SPACE, SCREEN_SIZE,
    START_ADDR};
use crate::semantics::{draw_collision, draw_screen_spec, fetch_fault, fetched_op, first_pressed,
    instr_step, lemma_first_pressed_skip, post_fetch, sprite_hits_cell, sprite_row_bit, step,
    target_cell};

verus! {

/// Register-register add leaves the flag register at 1 exactly when the
/// unsigned sum of the two 8-bit inputs exceeds 255, and at 0 otherwise,
/// and the destination holds the sum modulo 256.  `s` is the state the add
/// executes against (program counter already past the instruction).  The
/// destination clause asks the destination not to be the flag register
/// itself, which the flag write overrules.
pub proof fn lemma_add_reg_flag(s: MachineState, x: u8, y: u8, rnd: u8)
    requires
        s.wf(),
        x < 16,
        y < 16,
        x != 15,
    ensures
        ({
            let vx = s.v_reg[x as int];
            let vy = s.v_reg[y as int];
            let t = instr_step(s, Instr::AddReg(x, y), rnd);
            &&& t is Ok
            &&& t->Ok_0.v_reg[15] == (if vx + vy > 255 {
                1u8
            } else {
                0u8
            })
            &&& t->Ok_0.v_reg[x as int] == (vx + vy) % 256
            &&& t->Ok_0.wf()
        }),
{
}

/// Register-register subtract sets the flag to 1 exactly when the minuend
/// is at least the subtrahend (no borrow), and to 0 otherwise, with the
/// destination holding the wrapped difference.  The destination clause asks
/// the destination not to be the flag register itself.
pub proof fn lemma_sub_reg_flag(s: MachineState, x: u8, y: u8, rnd: u8)
    requires
        s.wf(),
        x < 16,
        y < 16,
        x != 15,
    ensures
        ({
            let vx = s.v_reg[x as int];
            let vy = s.v_reg[y as int];
            let t = instr_step(s, Instr::SubReg(x, y), rnd);
            &&& t is Ok
            &&& t->Ok_0.v_reg[15] == (if vx >= vy {
                1u8
            } else {
                0u8
            })
            &&& t->Ok_0.v_reg[x as int] == (if vx >= vy {
                vx - vy
            } else {
                vx - vy + 256
            })
            &&& t->Ok_0.wf()
        }),
{
}

/// Right-shift captures into the flag register exactly the bit it is about
/// to discard: the flag is the old low bit, and the shifted register and
/// the flag together reconstruct the old value.
pub proof fn lemma_shift_right_flag(s: MachineState, x: u8, rnd: u8)
    requires
        s.wf(),
        x < 16,
        x != 15,
    ensures
        ({
            let vx = s.v_reg[x as int];
            let t = instr_step(s, Instr::ShiftRight(x), rnd);
            &&& t is Ok
            &&& t->Ok_0.v_reg[15] == vx % 2
            &&& t->Ok_0.v_reg[x as int] == vx / 2
            &&& t->Ok_0.v_reg[x as int] * 2 + t->Ok_0.v_reg[15] == vx
        }),
{
}

/// Left-shift captures into the flag register exactly the bit it is about
/// to discard: the flag is the old high bit, and the shifted register and
/// the flag together reconstruct the old value.
pub proof fn lemma_shift_left_flag(s: MachineState, x: u8, rnd: u8)
    requires
        s.wf(),
        x < 16,
        x != 15,
    ensures
        ({
            let vx = s.v_reg[x as int];
            let t = instr_step(s, Instr::ShiftLeft(x), rnd);
            &&& t is Ok
            &&& t->Ok_0.v_reg[15] == vx / 128
            &&& t->Ok_0.v_reg[x as int] == (vx * 2) % 256
            &&& t->Ok_0.v_reg[15] * 128 + t->Ok_0.v_reg[x as int] / 2 == vx
        }),
{
    let vx = s.v_reg[x as int];
    vstd::arithmetic::div_mod::lemma_fundamental_div_mod(vx as int, 128);
    let q = vx as int / 128;
    let r = vx as int % 128;
    assert(q <= 1) by {
        if q >= 2 {
            assert(128 * q >= 256);
        }
    }
    assert(vx * 2 == 256 * q + 2 * r);
    vstd::arithmetic::div_mod::lemma_fundamental_div_mod_converse(vx * 2, 256, q, 2 * r);
    assert((vx * 2) % 256 == 2 * r);
}

/// Draw is an involution on the framebuffer: drawing the same sprite at the
/// same place twice returns every cell to its prior state.
pub proof fn lemma_draw_involutive(
    screen: Seq<bool>,
    ram: Seq<u8>,
    i_reg: int,
    x0: u8,
    y0: u8,
    n: int,
)
    requires
        screen.len() == SCREEN_SIZE,
    ensures
        draw_screen_spec(
            draw_screen_spec(screen, ram, i_reg, x0, y0, n),
            ram,
            i_reg,
            x0,
            y0,
            n,
        ) == screen,
{
    assert(draw_screen_spec(
        draw_screen_spec(screen, ram, i_reg, x0, y0, n),
        ram,
        i_reg,
        x0,
        y0,
        n,
    ) =~= screen);
}

/// The draw collision flag is 1 exactly when at least one framebuffer cell
/// goes from lit to unlit.
pub proof fn lemma_draw_collision_iff(
    screen: Seq<bool>,
    ram: Seq<u8>,
    i_reg: int,
    x0: u8,
    y0: u8,
    n: int,
)
    requires
        screen.len() == SCREEN_SIZE,
    ensures
        draw_collision(screen, ram, i_reg, x0, y0, n) <==> exists|cell: int|
            0 <= cell < SCREEN_SIZE && screen[cell] && !draw_screen_spec(
                screen,
                ram,
                i_reg,
                x0,
                y0,
                n,
            )[cell],
{
    if draw_collision(screen, ram, i_reg, x0, y0, n) {
        let (r, c) = choose|r: int, c: int|
            0 <= r < n && 0 <= c < 8 && sprite_row_bit(ram[i_reg + r], c) && screen[target_cell(
                x0,
                y0,
                r,
                c,
            )];
        let cell = target_cell(x0, y0, r, c);
        assert(0 <= cell < SCREEN_SIZE);
        assert(sprite_hits_cell(ram, i_reg, x0, y0, n, cell));
        assert(screen[cell] && !draw_screen_spec(screen, ram, i_reg, x0, y0, n)[cell]);
    }
    if exists|cell: int|
        0 <= cell < SCREEN_SIZE && screen[cell] && !draw_screen_spec(
            screen,
            ram,
            i_reg,
            x0,
            y0,
            n,
        )[cell] {
        let cell = choose|cell: int|
            0 <= cell < SCREEN_SIZE && screen[cell] && !draw_screen_spec(
                screen,
                ram,
                i_reg,
                x0,
                y0,
                n,
            )[cell];
        assert(sprite_hits_cell(ram, i_reg, x0, y0, n, cell));
        let (r, c) = choose|r: int, c: int|
            0 <= r < n && 0 <= c < 8 && cell == target_cell(x0, y0, r, c) && sprite_row_bit(
                ram[i_reg + r],
                c,
            );
        assert(0 <= r < n && 0 <= c < 8 && sprite_row_bit(ram[i_reg + r], c) && screen[target_cell(
            x0,
            y0,
            r,
            c,
        )]);
        assert(draw_collision(screen, ram, i_reg, x0, y0, n));
    }
}

/// The lowest pressed key exists and is lowest: when some key at or above
/// `i` is pressed, the scan finds a pressed key and nothing below it is
/// pressed.
pub proof fn lemma_first_pressed_found(keys: Seq<bool>, i: int)
    requires
        0 <= i <= 16,
    ensures
        ({
            let f = first_pressed(keys, i);
            &&& i <= f <= 16
            &&& f < 16 ==> keys[f]
            &&& forall|j: int| i <= j < f ==> !keys[j]
            &&& f == 16 ==> forall|j: int| i <= j < 16 ==> !keys[j]
        }),
    decreases 16 - i,
{
    if i < 16 && !keys[i] {
        lemma_first_pressed_found(keys, i + 1);
    }
}

/// While no key is pressed, the key-wait instruction leaves the machine
/// exactly as it was: the program counter is unchanged net of the
/// instruction's own width, so the same instruction re-executes next cycle.
pub proof fn lemma_key_wait_blocks(s: MachineState, x: u8, rnd: u8)
    requires
        s.wf(),
        !fetch_fault(s),
        decode(fetched_op(s)) == Some(Instr::WaitKey(x)),
        forall|k: int| 0 <= k < 16 ==> !s.keys[k],
    ensures
        step(s, rnd) == Ok::<MachineState, Fault>(s),
{
    lemma_decode_wf(fetched_op(s));
    lemma_first_pressed_skip(s.keys, 16);
    let s1 = post_fetch(s);
    assert(first_pressed(s1.keys, 0) == 16);
    assert((MachineState { pc: (s1.pc - 2) as u16, ..s1 }) =~~= s);
}

/// Once some key is pressed, the key-wait instruction advances normally
/// and stores the lowest-indexed pressed key in its destination register.
pub proof fn lemma_key_wait_advances(s: MachineState, x: u8, rnd: u8)
    requires
        s.wf(),
        !fetch_fault(s),
        decode(fetched_op(s)) == Some(Instr::WaitKey(x)),
        exists|k: int| 0 <= k < 16 && s.keys[k],
    ensures
        ({
            let k = first_pressed(s.keys, 0);
            &&& 0 <= k < 16
            &&& s.keys[k]
            &&& (forall|j: int| 0 <= j < k ==> !s.keys[j])
            &&& step(s, rnd) == Ok::<MachineState, Fault>(
                MachineState {
                    pc: (s.pc + 2) as u16,
                    v_reg: s.v_reg.update(x as int, k as u8),
                    ..s
                },
            )
        }),
{
    lemma_decode_wf(fetched_op(s));
    lemma_first_pressed_found(s.keys, 0);
    let k = first_pressed(s.keys, 0);
    if k == 16 {
        let k0 = choose|k0: int| 0 <= k0 < 16 && s.keys[k0];
        assert(!s.keys[k0]);
    }
    let s1 = post_fetch(s);
    assert(first_pressed(s1.keys, 0) == k);
    assert(instr_step(s1, Instr::WaitKey(x), rnd) == Ok::<MachineState, Fault>(
        MachineState { pc: (s.pc + 2) as u16, v_reg: s.v_reg.update(x as int, k as u8), ..s },
    )) by {
        assert((MachineState { v_reg: s1.v_reg.update(x as int, k as u8), ..s1 }) =~~= (
        MachineState { pc: (s.pc + 2) as u16, v_reg: s.v_reg.update(x as int, k as u8), ..s }));
    }
}

/// Round trip: loading a program image into a fresh machine and fetching
/// immediately reproduces the image's first two bytes as the opcode, with
/// the program counter one word past the start address.
pub proof fn lemma_load_fetch_round_trip(prog: Seq<u8>)
    requires
        2 <= prog.len() <= PROGRAM_SPACE,
    ensures
        ({
            let s = load_spec(initial_state(), prog);
            &&& s.wf()
            &&& !fetch_fault(s)
            &&& fetched_op(s) == prog[0] * 256 + prog[1]
            &&& post_fetch(s).pc == START_ADDR + 2
        }),
{
    let s = load_spec(initial_state(), prog);
    assert(s.ram[START_ADDR as int] == prog[0]);
    assert(s.ram[START_ADDR as int + 1] == prog[1]);
}

} // verus!
