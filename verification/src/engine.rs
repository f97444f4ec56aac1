//! The interpreter engine, from its leaves (keys, registers, memory, display)
//! up to the stepping machine and the scheduler that feeds it input.

pub mod cpu;
pub mod display;
pub mod fault;
pub mod key;
pub mod keypad;
pub mod machine;
pub mod memory;
pub mod opcode;
pub mod register;
pub mod scheduler;
pub mod vm;
