//! A verified CHIP-8 virtual machine: the state container and the
//! fetch/decode/execute cycle that interprets CHIP-8 instructions.

pub mod cycle;
pub mod isa;
pub mod laws;
pub mod machine;
pub mod semantics;

pub use isa::Instr;
pub use machine::Emu;
pub use machine::Fault;
pub use machine::MachineState;
pub use machine::SCREEN_WIDTH;
pub use machine::SCREEN_HEIGHT;
pub use machine::SCREEN_SIZE;
pub use machine::RAM_SIZE;
pub use machine::NUM_REGS;
pub use machine::STACK_SIZE;
pub use machine::NUM_KEYS;
pub use machine::FONTSET_SIZE;
pub use machine::START_ADDR;
pub use machine::PROGRAM_SPACE;
