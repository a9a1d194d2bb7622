use vstd::prelude::*;

use crate::isa::{decode_instr, lemma_decode_wf, Instr};
use crate::machine::{filled, Emu, Fault, MachineState, NUM_KEYS, NUM_REGS, RAM_SIZE,
    SCREEN_HEIGHT, SCREEN_SIZE, SCREEN_WIDTH, STACK_SIZE};
use crate::semantics::{collision_prefix, draw_collision, draw_screen_spec, fetch_fault,
    fetched_op, first_pressed, hit_by_prefix, instr_step, lemma_collision_prefix_full,
    lemma_collision_prefix_row_end, lemma_collision_prefix_step, lemma_first_pressed_skip,
    lemma_hit_prefix_full, lemma_hit_prefix_row_end, lemma_hit_prefix_step,
    lemma_target_cell_injective, op_step, post_fetch, prefix_pair, set_flag, set_reg, skip_if,
    sprite_hits_cell, sprite_row_bit, step, target_cell, wrap_add, wrap_add16, wrap_sub};

verus! {

broadcast use crate::machine::lemma_view_fields;

/// Relies on `rand::random`: one byte from the thread's random-number
/// generator.  Nothing is promised of the value; every caller must be
/// correct for all 256 outcomes.
#[verifier::external_body]
fn random_byte() -> u8 {
    rand::random()
}

impl Emu {
    /// Read the two bytes at the program counter, combine them big-endian
    /// into one opcode word, and advance the program counter past them.
    /// This is the only unconditional program-counter advance; control-flow
    /// instructions override it afterwards.
    pub fn fetch(&mut self) -> (r: Result<u16, Fault>)
        requires
            old(self).wf(),
        ensures
            final(self).wf(),
            if fetch_fault(old(self)@) {
                r == Err::<u16, Fault>(Fault::OutOfBounds) && final(self)@ == old(self)@
            } else {
                r == Ok::<u16, Fault>(fetched_op(old(self)@)) && final(self)@ == post_fetch(
                    old(self)@,
                )
            },
    {
        if self.pc as usize + 1 >= RAM_SIZE {
            return Err(Fault::OutOfBounds);
        }
        let hi = self.ram[self.pc as usize] as u16;
        let lo = self.ram[self.pc as usize + 1] as u16;
        let op = hi * 256 + lo;
        self.pc = self.pc + 2;
        proof {
            assert(self@ =~~= post_fetch(old(self)@));
        }
        Ok(op)
    }

    /// One whole cycle: fetch one opcode, decode it, execute it.  On
    /// success the machine has taken exactly the step that `step`
    /// describes, for some value of the byte the random-number instruction
    /// draws.  On a fault the step function faults the same way whatever
    /// that byte would have been, and the machine is untouched but for the
    /// program counter a committed fetch advanced.
    pub fn tick(&mut self) -> (r: Result<(), Fault>)
        requires
            old(self).wf(),
        ensures
            final(self).wf(),
            match r {
                Ok(_) => exists|rnd: u8|
                    #[trigger] step(old(self)@, rnd) == Ok::<MachineState, Fault>(final(self)@),
                Err(f) => (forall|rnd: u8|
                    #[trigger] step(old(self)@, rnd) == Err::<MachineState, Fault>(f))
                    && final(self)@ == (if fetch_fault(old(self)@) {
                    old(self)@
                } else {
                    post_fetch(old(self)@)
                }),
            },
    {
        let op = match self.fetch() {
            Ok(op) => op,
            Err(f) => {
                return Err(f);
            },
        };
        let res = self.execute(op);
        proof {
            match res {
                Ok(_) => {
                    let rnd = choose|rnd: u8|
                        #[trigger] op_step(post_fetch(old(self)@), op, rnd)
                            == Ok::<MachineState, Fault>(self@);
                    assert(step(old(self)@, rnd) == Ok::<MachineState, Fault>(self@));
                },
                Err(_) => {},
            }
        }
        res
    }

    /// Decode and execute one already-fetched opcode.  The program counter
    /// already points past the opcode's word and therefore lies between 2
    /// and `RAM_SIZE`.  A fault leaves the machine exactly as it was.
    fn execute(&mut self, op: u16) -> (r: Result<(), Fault>)
        requires
            old(self).wf(),
            2 <= old(self)@.pc <= RAM_SIZE,
        ensures
            final(self).wf(),
            match r {
                Ok(_) => exists|rnd: u8|
                    #[trigger] op_step(old(self)@, op, rnd) == Ok::<MachineState, Fault>(
                        final(self)@,
                    ),
                Err(f) => final(self)@ == old(self)@ && forall|rnd: u8|
                    #[trigger] op_step(old(self)@, op, rnd) == Err::<MachineState, Fault>(f),
            },
    {
        proof {
            lemma_decode_wf(op);
        }
        let instr = match decode_instr(op) {
            Some(instr) => instr,
            None => {
                return Err(Fault::UnknownOpcode(op));
            },
        };
        match instr {
            Instr::ClearScreen => {
                self.screen = filled(SCREEN_SIZE, false);
                proof {
                    assert((MachineState {
                        screen: Seq::new(SCREEN_SIZE as nat, |i: int| false),
                        ..old(self)@
                    }) =~~= self@);
                    assert(op_step(old(self)@, op, 0u8) == Ok::<MachineState, Fault>(self@));
                }
                Ok(())
            },
            Instr::Return => {
                if self.sp == 0 {
                    return Err(Fault::StackUnderflow);
                }
                let addr = self.pop();
                self.pc = addr;
                proof {
                    assert((MachineState {
                        pc: old(self)@.stack[old(self)@.sp - 1],
                        sp: (old(self)@.sp - 1) as u16,
                        ..old(self)@
                    }) =~~= self@);
                    assert(op_step(old(self)@, op, 0u8) == Ok::<MachineState, Fault>(self@));
                }
                Ok(())
            },
            Instr::Jump(nnn) => {
                self.pc = nnn;
                proof {
                    assert((MachineState { pc: nnn, ..old(self)@ }) =~~= self@);
                    assert(op_step(old(self)@, op, 0u8) == Ok::<MachineState, Fault>(self@));
                }
                Ok(())
            },
            Instr::Call(nnn) => {
                if self.sp >= STACK_SIZE as u16 {
                    return Err(Fault::StackOverflow);
                }
                let cur = self.pc;
                self.push(cur);
                self.pc = nnn;
                proof {
                    assert((MachineState {
                        stack: old(self)@.stack.update(old(self)@.sp as int, old(self)@.pc),
                        sp: (old(self)@.sp + 1) as u16,
                        pc: nnn,
                        ..old(self)@
                    }) =~~= self@);
                    assert(op_step(old(self)@, op, 0u8) == Ok::<MachineState, Fault>(self@));
                }
                Ok(())
            },
            Instr::SkipEqImm(x, nn) => {
                if self.v_reg[x as usize] == nn {
                    self.pc = self.pc + 2;
                }
                proof {
                    assert(skip_if(old(self)@, old(self)@.v_reg[x as int] == nn) =~~= self@);
                    assert(op_step(old(self)@, op, 0u8) == Ok::<MachineState, Fault>(self@));
                }
                Ok(())
            },
            Instr::SkipNeImm(x, nn) => {
                if self.v_reg[x as usize] != nn {
                    self.pc = self.pc + 2;
                }
                proof {
                    assert(skip_if(old(self)@, old(self)@.v_reg[x as int] != nn) =~~= self@);
                    assert(op_step(old(self)@, op, 0u8) == Ok::<MachineState, Fault>(self@));
                }
                Ok(())
            },
            Instr::SkipEqReg(x, y) => {
                if self.v_reg[x as usize] == self.v_reg[y as usize] {
                    self.pc = self.pc + 2;
                }
                proof {
                    assert(skip_if(
                        old(self)@,
                        old(self)@.v_reg[x as int] == old(self)@.v_reg[y as int],
                    ) =~~= self@);
                    assert(op_step(old(self)@, op, 0u8) == Ok::<MachineState, Fault>(self@));
                }
                Ok(())
            },
            Instr::SetImm(x, nn) => {
                self.v_reg[x as usize] = nn;
                proof {
                    assert(set_reg(old(self)@, x as int, nn) =~~= self@);
                    assert(op_step(old(self)@, op, 0u8) == Ok::<MachineState, Fault>(self@));
                }
                Ok(())
            },
            Instr::AddImm(x, nn) => {
                let vx = self.v_reg[x as usize];
                let sum = vx as u16 + nn as u16;
                self.v_reg[x as usize] = (sum % 256) as u8;
                proof {
                    assert(set_reg(old(self)@, x as int, wrap_add(vx, nn)) =~~= self@);
                    assert(op_step(old(self)@, op, 0u8) == Ok::<MachineState, Fault>(self@));
                }
                Ok(())
            },
            Instr::Copy(x, y) => {
                let vy = self.v_reg[y as usize];
                self.v_reg[x as usize] = vy;
                proof {
                    assert(set_reg(old(self)@, x as int, old(self)@.v_reg[y as int]) =~~= self@);
                    assert(op_step(old(self)@, op, 0u8) == Ok::<MachineState, Fault>(self@));
                }
                Ok(())
            },
            Instr::Or(x, y) => {
                let vx = self.v_reg[x as usize];
                let vy = self.v_reg[y as usize];
                self.v_reg[x as usize] = vx | vy;
                proof {
                    assert(set_reg(
                        old(self)@,
                        x as int,
                        old(self)@.v_reg[x as int] | old(self)@.v_reg[y as int],
                    ) =~~= self@);
                    assert(op_step(old(self)@, op, 0u8) == Ok::<MachineState, Fault>(self@));
                }
                Ok(())
            },
            Instr::And(x, y) => {
                let vx = self.v_reg[x as usize];
                let vy = self.v_reg[y as usize];
                self.v_reg[x as usize] = vx & vy;
                proof {
                    assert(set_reg(
                        old(self)@,
                        x as int,
                        old(self)@.v_reg[x as int] & old(self)@.v_reg[y as int],
                    ) =~~= self@);
                    assert(op_step(old(self)@, op, 0u8) == Ok::<MachineState, Fault>(self@));
                }
                Ok(())
            },
            Instr::Xor(x, y) => {
                let vx = self.v_reg[x as usize];
                let vy = self.v_reg[y as usize];
                self.v_reg[x as usize] = vx ^ vy;
                proof {
                    assert(set_reg(
                        old(self)@,
                        x as int,
                        old(self)@.v_reg[x as int] ^ old(self)@.v_reg[y as int],
                    ) =~~= self@);
                    assert(op_step(old(self)@, op, 0u8) == Ok::<MachineState, Fault>(self@));
                }
                Ok(())
            },
            Instr::AddReg(x, y) => {
                let vx = self.v_reg[x as usize];
                let vy = self.v_reg[y as usize];
                let sum = vx as u16 + vy as u16;
                self.v_reg[x as usize] = (sum % 256) as u8;
                self.v_reg[15] = if sum > 255 {
                    1
                } else {
                    0
                };
                proof {
                    assert(set_flag(
                        set_reg(old(self)@, x as int, wrap_add(vx, vy)),
                        if vx + vy > 255 {
                            1u8
                        } else {
                            0u8
                        },
                    ) =~~= self@);
                    assert(op_step(old(self)@, op, 0u8) == Ok::<MachineState, Fault>(self@));
                }
                Ok(())
            },
            Instr::SubReg(x, y) => {
                let vx = self.v_reg[x as usize];
                let vy = self.v_reg[y as usize];
                let nv = if vx >= vy {
                    vx - vy
                } else {
                    (vx as u16 + 256 - vy as u16) as u8
                };
                self.v_reg[x as usize] = nv;
                self.v_reg[15] = if vx >= vy {
                    1
                } else {
                    0
                };
                proof {
                    assert(set_flag(
                        set_reg(old(self)@, x as int, wrap_sub(vx, vy)),
                        if vx >= vy {
                            1u8
                        } else {
                            0u8
                        },
                    ) =~~= self@);
                    assert(op_step(old(self)@, op, 0u8) == Ok::<MachineState, Fault>(self@));
                }
                Ok(())
            },
            Instr::ShiftRight(x) => {
                let vx = self.v_reg[x as usize];
                self.v_reg[x as usize] = vx / 2;
                self.v_reg[15] = vx % 2;
                proof {
                    assert(set_flag(
                        set_reg(old(self)@, x as int, (vx / 2) as u8),
                        (vx % 2) as u8,
                    ) =~~= self@);
                    assert(op_step(old(self)@, op, 0u8) == Ok::<MachineState, Fault>(self@));
                }
                Ok(())
            },
            Instr::SubFrom(x, y) => {
                let vx = self.v_reg[x as usize];
                let vy = self.v_reg[y as usize];
                let nv = if vy >= vx {
                    vy - vx
                } else {
                    (vy as u16 + 256 - vx as u16) as u8
                };
                self.v_reg[x as usize] = nv;
                self.v_reg[15] = if vy >= vx {
                    1
                } else {
                    0
                };
                proof {
                    assert(set_flag(
                        set_reg(old(self)@, x as int, wrap_sub(vy, vx)),
                        if vy >= vx {
                            1u8
                        } else {
                            0u8
                        },
                    ) =~~= self@);
                    assert(op_step(old(self)@, op, 0u8) == Ok::<MachineState, Fault>(self@));
                }
                Ok(())
            },
            Instr::ShiftLeft(x) => {
                let vx = self.v_reg[x as usize];
                let doubled = vx as u16 * 2;
                self.v_reg[x as usize] = (doubled % 256) as u8;
                self.v_reg[15] = vx / 128;
                proof {
                    assert(set_flag(
                        set_reg(old(self)@, x as int, ((vx * 2) % 256) as u8),
                        (vx / 128) as u8,
                    ) =~~= self@);
                    assert(op_step(old(self)@, op, 0u8) == Ok::<MachineState, Fault>(self@));
                }
                Ok(())
            },
            Instr::SkipNeReg(x, y) => {
                if self.v_reg[x as usize] != self.v_reg[y as usize] {
                    self.pc = self.pc + 2;
                }
                proof {
                    assert(skip_if(
                        old(self)@,
                        old(self)@.v_reg[x as int] != old(self)@.v_reg[y as int],
                    ) =~~= self@);
                    assert(op_step(old(self)@, op, 0u8) == Ok::<MachineState, Fault>(self@));
                }
                Ok(())
            },
            Instr::SetIndex(nnn) => {
                self.i_reg = nnn;
                proof {
                    assert((MachineState { i_reg: nnn, ..old(self)@ }) =~~= self@);
                    assert(op_step(old(self)@, op, 0u8) == Ok::<MachineState, Fault>(self@));
                }
                Ok(())
            },
            Instr::JumpPlus(nnn) => {
                self.pc = self.v_reg[0] as u16 + nnn;
                proof {
                    assert((MachineState {
                        pc: (old(self)@.v_reg[0] + nnn) as u16,
                        ..old(self)@
                    }) =~~= self@);
                    assert(op_step(old(self)@, op, 0u8) == Ok::<MachineState, Fault>(self@));
                }
                Ok(())
            },
            Instr::Random(x, nn) => {
                let rb = random_byte();
                self.v_reg[x as usize] = rb & nn;
                proof {
                    assert(set_reg(old(self)@, x as int, rb & nn) =~~= self@);
                    assert(op_step(old(self)@, op, rb) == Ok::<MachineState, Fault>(self@));
                }
                Ok(())
            },
            Instr::Draw(x, y, n) => {
                let res = self.op_draw(x, y, n);
                proof {
                    match res {
                        Ok(_) => {
                            assert(op_step(old(self)@, op, 0u8) == Ok::<MachineState, Fault>(
                                self@,
                            ));
                        },
                        Err(f) => {
                            assert forall|rnd: u8|
                                #[trigger] op_step(old(self)@, op, rnd) == Err::<
                                    MachineState,
                                    Fault,
                                >(f) by {}
                        },
                    }
                }
                res
            },
            Instr::SkipKeyPressed(x) => {
                let vx = self.v_reg[x as usize];
                if vx as usize >= NUM_KEYS {
                    return Err(Fault::OutOfBounds);
                }
                if self.keys[vx as usize] {
                    self.pc = self.pc + 2;
                }
                proof {
                    assert(skip_if(
                        old(self)@,
                        old(self)@.keys[old(self)@.v_reg[x as int] as int],
                    ) =~~= self@);
                    assert(op_step(old(self)@, op, 0u8) == Ok::<MachineState, Fault>(self@));
                }
                Ok(())
            },
            Instr::SkipKeyReleased(x) => {
                let vx = self.v_reg[x as usize];
                if vx as usize >= NUM_KEYS {
                    return Err(Fault::OutOfBounds);
                }
                if !self.keys[vx as usize] {
                    self.pc = self.pc + 2;
                }
                proof {
                    assert(skip_if(
                        old(self)@,
                        !old(self)@.keys[old(self)@.v_reg[x as int] as int],
                    ) =~~= self@);
                    assert(op_step(old(self)@, op, 0u8) == Ok::<MachineState, Fault>(self@));
                }
                Ok(())
            },
            Instr::ReadDelay(x) => {
                let dt = self.dt;
                self.v_reg[x as usize] = dt;
                proof {
                    assert(set_reg(old(self)@, x as int, old(self)@.dt) =~~= self@);
                    assert(op_step(old(self)@, op, 0u8) == Ok::<MachineState, Fault>(self@));
                }
                Ok(())
            },
            Instr::WaitKey(x) => {
                self.op_wait_key(x);
                proof {
                    assert(op_step(old(self)@, op, 0u8) == Ok::<MachineState, Fault>(self@));
                }
                Ok(())
            },
            Instr::SetDelay(x) => {
                self.dt = self.v_reg[x as usize];
                proof {
                    assert((MachineState { dt: old(self)@.v_reg[x as int], ..old(self)@ })
                        =~~= self@);
                    assert(op_step(old(self)@, op, 0u8) == Ok::<MachineState, Fault>(self@));
                }
                Ok(())
            },
            Instr::SetSound(x) => {
                self.st = self.v_reg[x as usize];
                proof {
                    assert((MachineState { st: old(self)@.v_reg[x as int], ..old(self)@ })
                        =~~= self@);
                    assert(op_step(old(self)@, op, 0u8) == Ok::<MachineState, Fault>(self@));
                }
                Ok(())
            },
            Instr::AddIndex(x) => {
                let vx = self.v_reg[x as usize];
                let sum = self.i_reg as u32 + vx as u32;
                self.i_reg = if sum > 0xFFFF {
                    (sum - 0x10000) as u16
                } else {
                    sum as u16
                };
                proof {
                    assert((MachineState {
                        i_reg: wrap_add16(old(self)@.i_reg, old(self)@.v_reg[x as int] as u16),
                        ..old(self)@
                    }) =~~= self@);
                    assert(op_step(old(self)@, op, 0u8) == Ok::<MachineState, Fault>(self@));
                }
                Ok(())
            },
            Instr::FontAddr(x) => {
                let vx = self.v_reg[x as usize];
                self.i_reg = (vx % 16) as u16 * 5;
                proof {
                    assert((MachineState {
                        i_reg: ((old(self)@.v_reg[x as int] % 16) * 5) as u16,
                        ..old(self)@
                    }) =~~= self@);
                    assert(op_step(old(self)@, op, 0u8) == Ok::<MachineState, Fault>(self@));
                }
                Ok(())
            },
            Instr::StoreDigits(x) => {
                let i = self.i_reg as usize;
                if i + 3 > RAM_SIZE {
                    return Err(Fault::OutOfBounds);
                }
                let vx = self.v_reg[x as usize];
                self.ram[i] = vx / 100;
                self.ram[i + 1] = (vx / 10) % 10;
                self.ram[i + 2] = vx % 10;
                proof {
                    assert((MachineState {
                        ram: old(self)@.ram.update(i as int, (vx / 100) as u8).update(
                            i + 1,
                            ((vx / 10) % 10) as u8,
                        ).update(i + 2, (vx % 10) as u8),
                        ..old(self)@
                    }) =~~= self@);
                    assert(op_step(old(self)@, op, 0u8) == Ok::<MachineState, Fault>(self@));
                }
                Ok(())
            },
            Instr::StoreRegs(x) => {
                let res = self.op_store_regs(x);
                proof {
                    match res {
                        Ok(_) => {
                            assert(op_step(old(self)@, op, 0u8) == Ok::<MachineState, Fault>(
                                self@,
                            ));
                        },
                        Err(f) => {
                            assert forall|rnd: u8|
                                #[trigger] op_step(old(self)@, op, rnd) == Err::<
                                    MachineState,
                                    Fault,
                                >(f) by {}
                        },
                    }
                }
                res
            },
            Instr::LoadRegs(x) => {
                let res = self.op_load_regs(x);
                proof {
                    match res {
                        Ok(_) => {
                            assert(op_step(old(self)@, op, 0u8) == Ok::<MachineState, Fault>(
                                self@,
                            ));
                        },
                        Err(f) => {
                            assert forall|rnd: u8|
                                #[trigger] op_step(old(self)@, op, rnd) == Err::<
                                    MachineState,
                                    Fault,
                                >(f) by {}
                        },
                    }
                }
                res
            },
        }
    }

    /// Draw an 8-wide, `n`-tall sprite read from memory at the index
    /// register to the wrapped coordinates named by two registers, XORing
    /// each set sprite bit onto the framebuffer, and set the flag register
    /// to 1 exactly when some lit cell went dark.
    fn op_draw(&mut self, x: u8, y: u8, n: u8) -> (r: Result<(), Fault>)
        requires
            old(self).wf(),
            x < 16,
            y < 16,
            n < 16,
        ensures
            final(self).wf(),
            match r {
                Ok(_) => instr_step(old(self)@, Instr::Draw(x, y, n), 0u8) == Ok::<
                    MachineState,
                    Fault,
                >(final(self)@),
                Err(f) => final(self)@ == old(self)@ && instr_step(
                    old(self)@,
                    Instr::Draw(x, y, n),
                    0u8,
                ) == Err::<MachineState, Fault>(f),
            },
    {
        if self.i_reg as usize + n as usize > RAM_SIZE {
            return Err(Fault::OutOfBounds);
        }
        let x0 = self.v_reg[x as usize];
        let y0 = self.v_reg[y as usize];
        let ghost s0 = self@;
        let ghost ii = s0.i_reg as int;
        let mut flipped = false;
        let mut row: usize = 0;
        while row < n as usize
            invariant
                s0.wf(),
                self@.wf(),
                x < 16,
                y < 16,
                n < 16,
                x0 == s0.v_reg[x as int],
                y0 == s0.v_reg[y as int],
                s0.i_reg + n <= RAM_SIZE,
                ii == s0.i_reg as int,
                row <= n as usize,
                self@ == (MachineState { screen: self@.screen, ..s0 }),
                forall|cell: int|
                    0 <= cell < SCREEN_SIZE ==> self@.screen[cell] == (s0.screen[cell]
                        != hit_by_prefix(s0.ram, ii, x0, y0, row as int, 0, cell)),
                flipped == collision_prefix(s0.screen, s0.ram, ii, x0, y0, row as int, 0),
            decreases n as usize - row,
        {
            let pixels = self.ram[self.i_reg as usize + row];
            let mut col: usize = 0;
            while col < 8
                invariant
                    s0.wf(),
                    self@.wf(),
                    x < 16,
                    y < 16,
                    n < 16,
                    x0 == s0.v_reg[x as int],
                    y0 == s0.v_reg[y as int],
                    s0.i_reg + n <= RAM_SIZE,
                    ii == s0.i_reg as int,
                    row < n as usize,
                    col <= 8,
                    pixels == s0.ram[ii + row],
                    self@ == (MachineState { screen: self@.screen, ..s0 }),
                    forall|cell: int|
                        0 <= cell < SCREEN_SIZE ==> self@.screen[cell] == (s0.screen[cell]
                            != hit_by_prefix(s0.ram, ii, x0, y0, row as int, col as int, cell)),
                    flipped == collision_prefix(
                        s0.screen,
                        s0.ram,
                        ii,
                        x0,
                        y0,
                        row as int,
                        col as int,
                    ),
                decreases 8 - col,
            {
                let mask: u8 = 0x80u8 >> (col as u8);
                if pixels & mask != 0 {
                    let px = (x0 as usize + col) % SCREEN_WIDTH;
                    let py = (y0 as usize + row) % SCREEN_HEIGHT;
                    let idx = px + SCREEN_WIDTH * py;
                    proof {
                        assert(sprite_row_bit(s0.ram[ii + row], col as int));
                        assert(idx < SCREEN_SIZE);
                        assert(idx as int == target_cell(x0, y0, row as int, col as int));
                        assert(!hit_by_prefix(
                            s0.ram,
                            ii,
                            x0,
                            y0,
                            row as int,
                            col as int,
                            idx as int,
                        )) by {
                            if hit_by_prefix(s0.ram, ii, x0, y0, row as int, col as int, idx as int) {
                                let (r, c) = choose|r: int, c: int|
                                    prefix_pair(row as int, col as int, r, c) && idx as int
                                        == target_cell(x0, y0, r, c) && sprite_row_bit(
                                        s0.ram[ii + r],
                                        c,
                                    );
                                lemma_target_cell_injective(
                                    x0,
                                    y0,
                                    r,
                                    c,
                                    row as int,
                                    col as int,
                                );
                            }
                        }
                    }
                    let cur = self.screen[idx];
                    flipped = flipped || cur;
                    self.screen[idx] = !cur;
                    proof {
                        assert forall|cell: int| 0 <= cell < SCREEN_SIZE implies self@.screen[cell]
                            == (s0.screen[cell] != hit_by_prefix(
                            s0.ram,
                            ii,
                            x0,
                            y0,
                            row as int,
                            col as int + 1,
                            cell,
                        )) by {
                            lemma_hit_prefix_step(s0.ram, ii, x0, y0, row as int, col as int, cell);
                        }
                        lemma_collision_prefix_step(
                            s0.screen,
                            s0.ram,
                            ii,
                            x0,
                            y0,
                            row as int,
                            col as int,
                        );
                    }
                } else {
                    proof {
                        assert(!sprite_row_bit(s0.ram[ii + row], col as int));
                        assert forall|cell: int| 0 <= cell < SCREEN_SIZE implies self@.screen[cell]
                            == (s0.screen[cell] != hit_by_prefix(
                            s0.ram,
                            ii,
                            x0,
                            y0,
                            row as int,
                            col as int + 1,
                            cell,
                        )) by {
                            lemma_hit_prefix_step(s0.ram, ii, x0, y0, row as int, col as int, cell);
                        }
                        lemma_collision_prefix_step(
                            s0.screen,
                            s0.ram,
                            ii,
                            x0,
                            y0,
                            row as int,
                            col as int,
                        );
                    }
                }
                col = col + 1;
            }
            proof {
                assert forall|cell: int| 0 <= cell < SCREEN_SIZE implies hit_by_prefix(
                    s0.ram,
                    ii,
                    x0,
                    y0,
                    row as int,
                    8,
                    cell,
                ) == hit_by_prefix(s0.ram, ii, x0, y0, row as int + 1, 0, cell) by {
                    lemma_hit_prefix_row_end(s0.ram, ii, x0, y0, row as int, cell);
                }
                lemma_collision_prefix_row_end(s0.screen, s0.ram, ii, x0, y0, row as int);
            }
            row = row + 1;
        }
        let flag: u8 = if flipped {
            1
        } else {
            0
        };
        self.v_reg[15] = flag;
        proof {
            assert forall|cell: int| 0 <= cell < SCREEN_SIZE implies hit_by_prefix(
                s0.ram,
                ii,
                x0,
                y0,
                n as int,
                0,
                cell,
            ) == sprite_hits_cell(s0.ram, ii, x0, y0, n as int, cell) by {
                lemma_hit_prefix_full(s0.ram, ii, x0, y0, n as int, cell);
            }
            lemma_collision_prefix_full(s0.screen, s0.ram, ii, x0, y0, n as int);
            assert(self@.screen =~= draw_screen_spec(s0.screen, s0.ram, ii, x0, y0, n as int));
            assert(set_flag(
                MachineState {
                    screen: draw_screen_spec(s0.screen, s0.ram, ii, x0, y0, n as int),
                    ..s0
                },
                if draw_collision(s0.screen, s0.ram, ii, x0, y0, n as int) {
                    1u8
                } else {
                    0u8
                },
            ) =~~= self@);
            assert(instr_step(old(self)@, Instr::Draw(x, y, n), 0u8) == Ok::<MachineState, Fault>(
                self@,
            ));
        }
        Ok(())
    }

    /// Scan the keypad in ascending order.  When some key is pressed, store
    /// the lowest pressed index in register `x`; when none is, rewind the
    /// program counter one word so the same instruction re-executes next
    /// cycle.
    fn op_wait_key(&mut self, x: u8)
        requires
            old(self).wf(),
            x < 16,
            2 <= old(self)@.pc,
        ensures
            final(self).wf(),
            instr_step(old(self)@, Instr::WaitKey(x), 0u8) == Ok::<MachineState, Fault>(
                final(self)@,
            ),
    {
        let mut first: usize = NUM_KEYS;
        let mut i: usize = 0;
        while i < NUM_KEYS
            invariant
                old(self).wf(),
                self@ == old(self)@,
                i <= NUM_KEYS,
                first <= NUM_KEYS,
                first < NUM_KEYS ==> first as int == first_pressed(old(self)@.keys, 0),
                first == NUM_KEYS ==> forall|j: int| 0 <= j < i ==> !old(self)@.keys[j],
            decreases NUM_KEYS - i,
        {
            if first == NUM_KEYS && self.keys[i] {
                first = i;
                proof {
                    lemma_first_pressed_skip(old(self)@.keys, i as int);
                }
            }
            i = i + 1;
        }
        if first < NUM_KEYS {
            self.v_reg[x as usize] = first as u8;
            proof {
                assert(set_reg(
                    old(self)@,
                    x as int,
                    first_pressed(old(self)@.keys, 0) as u8,
                ) =~~= self@);
            }
        } else {
            proof {
                lemma_first_pressed_skip(old(self)@.keys, NUM_KEYS as int);
                assert(first_pressed(old(self)@.keys, 0) == NUM_KEYS);
            }
            self.pc = self.pc - 2;
            proof {
                assert((MachineState { pc: (old(self)@.pc - 2) as u16, ..old(self)@ }) =~~= self@);
            }
        }
    }

    /// Store registers 0 through `x` to memory starting at the index
    /// register, which itself is left untouched.
    fn op_store_regs(&mut self, x: u8) -> (r: Result<(), Fault>)
        requires
            old(self).wf(),
            x < 16,
        ensures
            final(self).wf(),
            match r {
                Ok(_) => instr_step(old(self)@, Instr::StoreRegs(x), 0u8) == Ok::<
                    MachineState,
                    Fault,
                >(final(self)@),
                Err(f) => final(self)@ == old(self)@ && instr_step(
                    old(self)@,
                    Instr::StoreRegs(x),
                    0u8,
                ) == Err::<MachineState, Fault>(f),
            },
    {
        let i = self.i_reg as usize;
        if i + x as usize + 1 > RAM_SIZE {
            return Err(Fault::OutOfBounds);
        }
        let mut k: usize = 0;
        while k <= x as usize
            invariant
                old(self).wf(),
                x < 16,
                i == old(self)@.i_reg,
                i + x + 1 <= RAM_SIZE,
                k <= x as usize + 1,
                self@ == (MachineState { ram: self@.ram, ..old(self)@ }),
                self@.ram.len() == RAM_SIZE,
                forall|j: int|
                    0 <= j < RAM_SIZE ==> self@.ram[j] == (if i <= j < i + k {
                        old(self)@.v_reg[j - i]
                    } else {
                        old(self)@.ram[j]
                    }),
            decreases x as usize + 1 - k,
        {
            let val = self.v_reg[k];
            self.ram[i + k] = val;
            k = k + 1;
        }
        proof {
            let ir = old(self)@.i_reg as int;
            let t = Seq::new(
                old(self)@.ram.len(),
                |j: int|
                    if ir <= j <= ir + x {
                        old(self)@.v_reg[j - ir]
                    } else {
                        old(self)@.ram[j]
                    },
            );
            assert(self@.ram =~= t);
            assert((MachineState { ram: t, ..old(self)@ }) =~~= self@);
            assert(instr_step(old(self)@, Instr::StoreRegs(x), 0u8) == Ok::<MachineState, Fault>(
                self@,
            ));
        }
        Ok(())
    }

    /// Load registers 0 through `x` from memory starting at the index
    /// register, which itself is left untouched.
    fn op_load_regs(&mut self, x: u8) -> (r: Result<(), Fault>)
        requires
            old(self).wf(),
            x < 16,
        ensures
            final(self).wf(),
            match r {
                Ok(_) => instr_step(old(self)@, Instr::LoadRegs(x), 0u8) == Ok::<
                    MachineState,
                    Fault,
                >(final(self)@),
                Err(f) => final(self)@ == old(self)@ && instr_step(
                    old(self)@,
                    Instr::LoadRegs(x),
                    0u8,
                ) == Err::<MachineState, Fault>(f),
            },
    {
        let i = self.i_reg as usize;
        if i + x as usize + 1 > RAM_SIZE {
            return Err(Fault::OutOfBounds);
        }
        let mut k: usize = 0;
        while k <= x as usize
            invariant
                old(self).wf(),
                x < 16,
                i == old(self)@.i_reg,
                i + x + 1 <= RAM_SIZE,
                k <= x as usize + 1,
                self@ == (MachineState { v_reg: self@.v_reg, ..old(self)@ }),
                self@.v_reg.len() == NUM_REGS,
                forall|t: int|
                    0 <= t < NUM_REGS ==> self@.v_reg[t] == (if t < k {
                        old(self)@.ram[i + t]
                    } else {
                        old(self)@.v_reg[t]
                    }),
            decreases x as usize + 1 - k,
        {
            let val = self.ram[i + k];
            self.v_reg[k] = val;
            k = k + 1;
        }
        proof {
            let ir = old(self)@.i_reg as int;
            let t = Seq::new(
                old(self)@.v_reg.len(),
                |t: int|
                    if t <= x {
                        old(self)@.ram[ir + t]
                    } else {
                        old(self)@.v_reg[t]
                    },
            );
            assert(self@.v_reg =~= t);
            assert((MachineState { v_reg: t, ..old(self)@ }) =~~= self@);
            assert(instr_step(old(self)@, Instr::LoadRegs(x), 0u8) == Ok::<MachineState, Fault>(
                self@,
            ));
        }
        Ok(())
    }
}

} // verus!
