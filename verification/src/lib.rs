//! An interpreter for a simple 8-bit virtual machine: sixteen byte registers,
//! a 4 KB address space, a 64x32 monochrome display, a sixteen-key keypad and
//! two countdown timers.
//!
//! Every function carries a contract over a mathematical model of the machine,
//! and every contract is machine-checked.

pub mod engine;
