use vstd::prelude::*;

verus! {

/// Width of the monochrome framebuffer, in pixels.
pub const SCREEN_WIDTH: usize = 64;

/// Height of the monochrome framebuffer, in pixels.
pub const SCREEN_HEIGHT: usize = 32;

/// Number of framebuffer cells (`SCREEN_WIDTH * SCREEN_HEIGHT`).
pub const SCREEN_SIZE: usize = 2048;

/// Size of the machine's memory, in bytes.
pub const RAM_SIZE: usize = 4096;

/// Number of general-purpose registers.
pub const NUM_REGS: usize = 16;

/// Capacity of the call stack, in return addresses.
pub const STACK_SIZE: usize = 16;

/// Number of keypad keys.
pub const NUM_KEYS: usize = 16;

/// Size of the built-in font table: 16 glyphs, 5 bytes each.
pub const FONTSET_SIZE: usize = 80;

/// Address at which a program image is loaded and execution starts.
pub const START_ADDR: u16 = 512;

/// Largest program image that fits between `START_ADDR` and the end of memory.
pub const PROGRAM_SPACE: usize = 3584;

/// A terminal condition of the current run.  Every fault leaves the machine
/// in a state the caller can inspect; none is recoverable inside the core.
#[derive(Clone, Copy, Debug, PartialEq, Eq, Structural)]
pub enum Fault {
    /// The decoder met an opcode that matches no known instruction pattern.
    UnknownOpcode(u16),
    /// An address-bearing operation would touch memory outside the 4096
    /// bytes, or a key index outside the keypad.
    OutOfBounds,
    /// A return was executed with an empty call stack.
    StackUnderflow,
    /// A call was executed with the call stack already full.
    StackOverflow,
    /// A program image larger than `PROGRAM_SPACE` was handed to `load`.
    ProgramTooLarge,
}

/// The mathematical model of the whole machine: the view of an [`Emu`].
#[verifier::ext_equal]
pub ghost struct MachineState {
    pub pc: u16,
    pub ram: Seq<u8>,
    pub screen: Seq<bool>,
    pub v_reg: Seq<u8>,
    pub i_reg: u16,
    pub sp: u16,
    pub stack: Seq<u16>,
    pub keys: Seq<bool>,
    pub dt: u8,
    pub st: u8,
}

impl MachineState {
    /// Well-formedness: every buffer has its fixed hardware size and the
    /// stack pointer stays within the stack.
    pub open spec fn wf(self) -> bool {
        &&& self.ram.len() == RAM_SIZE
        &&& self.screen.len() == SCREEN_SIZE
        &&& self.v_reg.len() == NUM_REGS
        &&& self.stack.len() == STACK_SIZE
        &&& self.keys.len() == NUM_KEYS
        &&& self.sp <= STACK_SIZE
    }
}

/// The built-in hexadecimal font: 16 glyphs of 5 bytes, one row per byte.
pub open spec fn font_seq() -> Seq<u8> {
    seq![
        0xF0u8, 0x90, 0x90, 0x90, 0xF0, // 0
        0x20, 0x60, 0x20, 0x20, 0x70, // 1
        0xF0, 0x10, 0xF0, 0x80, 0xF0, // 2
        0xF0, 0x10, 0xF0, 0x10, 0xF0, // 3
        0x90, 0x90, 0xF0, 0x10, 0x10, // 4
        0xF0, 0x80, 0xF0, 0x10, 0xF0, // 5
        0xF0, 0x80, 0xF0, 0x90, 0xF0, // 6
        0xF0, 0x10, 0x20, 0x40, 0x40, // 7
        0xF0, 0x90, 0xF0, 0x90, 0xF0, // 8
        0xF0, 0x90, 0xF0, 0x10, 0xF0, // 9
        0xF0, 0x90, 0xF0, 0x90, 0x90, // A
        0xE0, 0x90, 0xE0, 0x90, 0xE0, // B
        0xF0, 0x80, 0x80, 0x80, 0xF0, // C
        0xE0, 0x90, 0x90, 0x90, 0xE0, // D
        0xF0, 0x80, 0xF0, 0x80, 0xF0, // E
        0xF0, 0x80, 0xF0, 0x80, 0x80, // F
    ]
}

/// Memory as it looks right after power-on or reset: the font table at
/// address 0, all other bytes zero.
pub open spec fn initial_ram() -> Seq<u8> {
    Seq::new(RAM_SIZE as nat, |i: int| if i < FONTSET_SIZE { font_seq()[i] } else { 0u8 })
}

/// The machine state produced by `new` and restored by `reset`.
pub open spec fn initial_state() -> MachineState {
    MachineState {
        pc: START_ADDR,
        ram: initial_ram(),
        screen: Seq::new(SCREEN_SIZE as nat, |i: int| false),
        v_reg: Seq::new(NUM_REGS as nat, |i: int| 0u8),
        i_reg: 0,
        sp: 0,
        stack: Seq::new(STACK_SIZE as nat, |i: int| 0u16),
        keys: Seq::new(NUM_KEYS as nat, |i: int| false),
        dt: 0,
        st: 0,
    }
}

/// The effect of `load`: the image is copied verbatim to `START_ADDR`,
/// everything else is untouched.
pub open spec fn load_spec(s: MachineState, data: Seq<u8>) -> MachineState {
    MachineState {
        ram: Seq::new(
            s.ram.len(),
            |i: int|
                if START_ADDR <= i < START_ADDR + data.len() {
                    data[i - START_ADDR]
                } else {
                    s.ram[i]
                },
        ),
        ..s
    }
}

/// The virtual CPU: the single owner of all machine state.
pub struct Emu {
    pub(crate) pc: u16,
    pub(crate) ram: Vec<u8>,
    pub(crate) screen: Vec<bool>,
    pub(crate) v_reg: Vec<u8>,
    pub(crate) i_reg: u16,
    pub(crate) sp: u16,
    pub(crate) stack: Vec<u16>,
    pub(crate) keys: Vec<bool>,
    pub(crate) dt: u8,
    pub(crate) st: u8,
}

impl View for Emu {
    type V = MachineState;

    closed spec fn view(&self) -> MachineState {
        MachineState {
            pc: self.pc,
            ram: self.ram@,
            screen: self.screen@,
            v_reg: self.v_reg@,
            i_reg: self.i_reg,
            sp: self.sp,
            stack: self.stack@,
            keys: self.keys@,
            dt: self.dt,
            st: self.st,
        }
    }
}

/// The model of a machine is exactly its fields, component for component.
/// The rest of the crate proves the instruction bodies through this; outside
/// the crate the fields, and with them the view's composition, are hidden,
/// so machine state changes only through the machine's own operations.
pub(crate) broadcast proof fn lemma_view_fields(e: &Emu)
    ensures
        #[trigger] e@ == (MachineState {
            pc: e.pc,
            ram: e.ram@,
            screen: e.screen@,
            v_reg: e.v_reg@,
            i_reg: e.i_reg,
            sp: e.sp,
            stack: e.stack@,
            keys: e.keys@,
            dt: e.dt,
            st: e.st,
        }),
{
}

impl Emu {
    /// Well-formedness of the executable machine: its model is well-formed.
    pub open spec fn wf(&self) -> bool {
        self@.wf()
    }

    /// The program counter.
    pub fn pc(&self) -> (r: u16)
        ensures
            r == self@.pc,
    {
        self.pc
    }

    /// One general-purpose register.
    pub fn v_reg(&self, idx: usize) -> (r: u8)
        requires
            self.wf(),
            idx < NUM_REGS,
        ensures
            r == self@.v_reg[idx as int],
    {
        self.v_reg[idx]
    }

    /// One byte of memory.
    pub fn ram_at(&self, addr: usize) -> (r: u8)
        requires
            self.wf(),
            addr < RAM_SIZE,
        ensures
            r == self@.ram[addr as int],
    {
        self.ram[addr]
    }

    /// The index register.
    pub fn i_reg(&self) -> (r: u16)
        ensures
            r == self@.i_reg,
    {
        self.i_reg
    }

    /// The stack pointer: how many return addresses are on the call stack.
    pub fn sp(&self) -> (r: u16)
        ensures
            r == self@.sp,
    {
        self.sp
    }

    /// One call-stack slot.
    pub fn stack_at(&self, idx: usize) -> (r: u16)
        requires
            self.wf(),
            idx < STACK_SIZE,
        ensures
            r == self@.stack[idx as int],
    {
        self.stack[idx]
    }

    /// One keypad entry.
    pub fn key(&self, idx: usize) -> (r: bool)
        requires
            self.wf(),
            idx < NUM_KEYS,
        ensures
            r == self@.keys[idx as int],
    {
        self.keys[idx]
    }

    /// The delay timer's current value.
    pub fn delay_timer(&self) -> (r: u8)
        ensures
            r == self@.dt,
    {
        self.dt
    }

    /// The sound timer's current value: its crossing from nonzero to zero
    /// is the signal to stop the tone.
    pub fn sound_timer(&self) -> (r: u8)
        ensures
            r == self@.st,
    {
        self.st
    }
}

/// A vector of `n` copies of `val`.
pub(crate) fn filled<T: Copy>(n: usize, val: T) -> (v: Vec<T>)
    ensures
        v@ == Seq::new(n as nat, |i: int| val),
{
    let mut v: Vec<T> = Vec::new();
    while v.len() < n
        invariant
            v@.len() <= n,
            forall|i: int| 0 <= i < v@.len() ==> v@[i] == val,
        decreases n - v.len(),
    {
        v.push(val);
    }
    proof {
        assert(v@ =~= Seq::new(n as nat, |i: int| val));
    }
    v
}

/// The font table as bytes, in glyph order.
fn font_data() -> (v: Vec<u8>)
    ensures
        v@ == font_seq(),
{
    let mut v: Vec<u8> = Vec::new();
    v.push(0xF0); v.push(0x90); v.push(0x90); v.push(0x90); v.push(0xF0);
    v.push(0x20); v.push(0x60); v.push(0x20); v.push(0x20); v.push(0x70);
    v.push(0xF0); v.push(0x10); v.push(0xF0); v.push(0x80); v.push(0xF0);
    v.push(0xF0); v.push(0x10); v.push(0xF0); v.push(0x10); v.push(0xF0);
    v.push(0x90); v.push(0x90); v.push(0xF0); v.push(0x10); v.push(0x10);
    v.push(0xF0); v.push(0x80); v.push(0xF0); v.push(0x10); v.push(0xF0);
    v.push(0xF0); v.push(0x80); v.push(0xF0); v.push(0x90); v.push(0xF0);
    v.push(0xF0); v.push(0x10); v.push(0x20); v.push(0x40); v.push(0x40);
    v.push(0xF0); v.push(0x90); v.push(0xF0); v.push(0x90); v.push(0xF0);
    v.push(0xF0); v.push(0x90); v.push(0xF0); v.push(0x10); v.push(0xF0);
    v.push(0xF0); v.push(0x90); v.push(0xF0); v.push(0x90); v.push(0x90);
    v.push(0xE0); v.push(0x90); v.push(0xE0); v.push(0x90); v.push(0xE0);
    v.push(0xF0); v.push(0x80); v.push(0x80); v.push(0x80); v.push(0xF0);
    v.push(0xE0); v.push(0x90); v.push(0x90); v.push(0x90); v.push(0xE0);
    v.push(0xF0); v.push(0x80); v.push(0xF0); v.push(0x80); v.push(0xF0);
    v.push(0xF0); v.push(0x80); v.push(0xF0); v.push(0x80); v.push(0x80);
    proof {
        assert(v@ =~= font_seq());
    }
    v
}

impl Emu {
    /// A machine in its power-on state: everything zeroed except the font
    /// table at address 0 and the program counter at `START_ADDR`.
    pub fn new() -> (result: Self)
        ensures
            result.wf(),
            result@ == initial_state(),
    {
        let mut ram = font_data();
        while ram.len() < RAM_SIZE
            invariant
                FONTSET_SIZE <= ram@.len() <= RAM_SIZE,
                forall|i: int| 0 <= i < ram@.len() ==> ram@[i] == initial_ram()[i],
            decreases RAM_SIZE - ram.len(),
        {
            ram.push(0u8);
        }
        let emu = Emu {
            pc: START_ADDR,
            ram,
            screen: filled(SCREEN_SIZE, false),
            v_reg: filled(NUM_REGS, 0u8),
            i_reg: 0,
            sp: 0,
            stack: filled(STACK_SIZE, 0u16),
            keys: filled(NUM_KEYS, false),
            dt: 0,
            st: 0,
        };
        proof {
            assert(emu@.ram =~= initial_ram());
            assert(emu@ =~~= initial_state());
        }
        emu
    }

    /// Return the machine to exactly its power-on state, mid-session.
    pub fn reset(&mut self)
        ensures
            final(self).wf(),
            final(self)@ == initial_state(),
    {
        *self = Emu::new();
    }

    /// Copy a program image into memory at `START_ADDR`.  An image larger
    /// than the remaining memory is rejected before any state is touched.
    pub fn load(&mut self, data: &[u8]) -> (r: Result<(), Fault>)
        requires
            old(self).wf(),
        ensures
            final(self).wf(),
            match r {
                Ok(_) => data@.len() <= PROGRAM_SPACE && final(self)@ == load_spec(
                    old(self)@,
                    data@,
                ),
                Err(f) => f == Fault::ProgramTooLarge && data@.len() > PROGRAM_SPACE
                    && final(self)@ == old(self)@,
            },
    {
        if data.len() > PROGRAM_SPACE {
            return Err(Fault::ProgramTooLarge);
        }
        let mut k: usize = 0;
        while k < data.len()
            invariant
                old(self).wf(),
                data@.len() <= PROGRAM_SPACE,
                k <= data@.len(),
                self@ == (MachineState { ram: self@.ram, ..old(self)@ }),
                self@.ram.len() == RAM_SIZE,
                forall|i: int|
                    0 <= i < RAM_SIZE ==> self@.ram[i] == (if START_ADDR <= i < START_ADDR + k {
                        data@[i - START_ADDR]
                    } else {
                        old(self)@.ram[i]
                    }),
            decreases data.len() - k,
        {
            self.ram[START_ADDR as usize + k] = data[k];
            k = k + 1;
        }
        proof {
            assert(self@.ram =~= load_spec(old(self)@, data@).ram);
            assert(self@ =~~= load_spec(old(self)@, data@));
        }
        Ok(())
    }

    /// Read-only view of the framebuffer, row-major, `SCREEN_SIZE` cells.
    pub fn get_display(&self) -> (r: &[bool])
        ensures
            r@ == self@.screen,
    {
        self.screen.as_slice()
    }

    /// Set one keypad entry.  The index names a hexadecimal key, 0 to 15.
    pub fn keypress(&mut self, idx: usize, pressed: bool)
        requires
            old(self).wf(),
            idx < NUM_KEYS,
        ensures
            final(self).wf(),
            final(self)@ == (MachineState {
                keys: old(self)@.keys.update(idx as int, pressed),
                ..old(self)@
            }),
    {
        self.keys[idx] = pressed;
    }

    /// The once-per-frame timer step: each timer counts down to zero and
    /// stays there.  The sound timer's crossing from 1 to 0 is the moment a
    /// frontend should stop its tone.
    pub fn tick_timers(&mut self)
        requires
            old(self).wf(),
        ensures
            final(self).wf(),
            final(self)@ == (MachineState {
                dt: if old(self)@.dt > 0 {
                    (old(self)@.dt - 1) as u8
                } else {
                    0u8
                },
                st: if old(self)@.st > 0 {
                    (old(self)@.st - 1) as u8
                } else {
                    0u8
                },
                ..old(self)@
            }),
    {
        if self.dt > 0 {
            self.dt = self.dt - 1;
        }
        if self.st > 0 {
            self.st = self.st - 1;
        }
    }

    /// Push a return address.  The caller has checked that the stack has room.
    pub(crate) fn push(&mut self, val: u16)
        requires
            old(self).wf(),
            old(self)@.sp < STACK_SIZE,
        ensures
            final(self).wf(),
            final(self)@ == (MachineState {
                stack: old(self)@.stack.update(old(self)@.sp as int, val),
                sp: (old(self)@.sp + 1) as u16,
                ..old(self)@
            }),
    {
        self.stack[self.sp as usize] = val;
        self.sp = self.sp + 1;
    }

    /// Pop the most recently pushed return address.  The caller has checked
    /// that the stack is not empty.
    pub(crate) fn pop(&mut self) -> (r: u16)
        requires
            old(self).wf(),
            old(self)@.sp > 0,
        ensures
            final(self).wf(),
            r == old(self)@.stack[old(self)@.sp - 1],
            final(self)@ == (MachineState { sp: (old(self)@.sp - 1) as u16, ..old(self)@ }),
    {
        self.sp = self.sp - 1;
        self.stack[self.sp as usize]
    }
}

} // verus!
