//! The register file: sixteen byte registers, the address register and the
//! two countdown timers.

use vstd::prelude::*;

verus! {

/// The number of general registers.
pub const REGISTER_COUNT: usize = 16;

/// The name of one of the sixteen general registers.
#[derive(Debug, Clone, Copy, PartialEq, Eq, Structural)]
pub struct Register {
    pub id: u8,
}

impl Register {
    /// A register name is well formed when it names one of the sixteen registers.
    pub open spec fn wf(self) -> bool {
        self.id < REGISTER_COUNT
    }

    /// The register with the given index.
    pub fn new(id: u16) -> (register: Register)
        requires
            id <= 15,
        ensures
            register.id == id,
            register.wf(),
    {
        Register { id: id as u8 }
    }

    /// The flag register, overwritten by arithmetic, shift and draw operations.
    pub fn vf() -> (register: Register)
        ensures
            register.id == 15,
            register.wf(),
    {
        Register::new(0xf)
    }
}

/// The mathematical content of the register file.
pub struct RegisterFile {
    /// The sixteen general registers, `V0` to `VF`.
    pub v: Seq<u8>,
    /// The address register.
    pub i: u16,
    /// The delay timer.
    pub dt: u8,
    /// The sound timer.
    pub st: u8,
}

/// A timer one tick later: one less, and never below zero.
pub open spec fn ticked(timer: u8) -> u8 {
    if timer > 0 {
        (timer - 1) as u8
    } else {
        0
    }
}

impl RegisterFile {
    /// The register file at power-on: everything is zero.
    pub open spec fn zeroed() -> RegisterFile {
        RegisterFile { v: Seq::new(REGISTER_COUNT as nat, |k: int| 0u8), i: 0, dt: 0, st: 0 }
    }

    /// A register file holds exactly sixteen general registers.
    pub open spec fn wf(self) -> bool {
        self.v.len() == REGISTER_COUNT
    }

    /// The value of a general register.
    pub open spec fn get(self, register: Register) -> u8 {
        self.v[register.id as int]
    }

    /// The register file with one general register overwritten.
    pub open spec fn set(self, register: Register, value: u8) -> RegisterFile {
        RegisterFile { v: self.v.update(register.id as int, value), ..self }
    }

    /// The register file with the address register overwritten.
    pub open spec fn set_i(self, i: u16) -> RegisterFile {
        RegisterFile { i, ..self }
    }

    /// The register file after one timer tick.
    pub open spec fn tick(self) -> RegisterFile {
        RegisterFile { dt: ticked(self.dt), st: ticked(self.st), ..self }
    }

    /// The register file after `n` timer ticks.
    pub open spec fn tick_n(self, n: nat) -> RegisterFile
        decreases n,
    {
        if n == 0 {
            self
        } else {
            self.tick().tick_n((n - 1) as nat)
        }
    }
}

/// The register file of the machine.
pub struct Registers {
    /// The sixteen general registers, `V0` to `VF`.
    pub registers: [u8; 16],
    /// The address register.
    pub i: u16,
    /// The delay timer.
    pub dt: u8,
    /// The sound timer.
    pub st: u8,
}

impl View for Registers {
    type V = RegisterFile;

    open spec fn view(&self) -> RegisterFile {
        RegisterFile { v: self.registers@, i: self.i, dt: self.dt, st: self.st }
    }
}

impl Registers {
    /// A register file with every register and timer at zero.
    pub fn new() -> (registers: Registers)
        ensures
            registers@ == RegisterFile::zeroed(),
    {
        let registers = Registers { registers: [0; 16], i: 0, dt: 0, st: 0 };
        assert(registers@.v =~= RegisterFile::zeroed().v);
        registers
    }

    /// Every register file holds sixteen general registers.
    pub proof fn lemma_wf(&self)
        ensures
            self@.wf(),
    {
    }

    /// Reads a general register.
    pub fn read(&self, register: &Register) -> (value: u8)
        requires
            register.wf(),
        ensures
            value == self@.get(*register),
    {
        self.registers[register.id as usize]
    }

    /// Overwrites a general register and nothing else.
    pub fn write(&mut self, register: &Register, value: u8)
        requires
            register.wf(),
        ensures
            final(self)@ == old(self)@.set(*register, value),
    {
        self.registers[register.id as usize] = value;
    }

    /// Counts both timers down by one, stopping at zero.
    pub fn tick(&mut self)
        ensures
            final(self)@ == old(self)@.tick(),
    {
        if self.dt > 0 {
            self.dt -= 1;
        }
        if self.st > 0 {
            self.st -= 1;
        }
    }
}

/// After `n` ticks each timer has lost `n`, or has reached zero and stayed
/// there; the general registers and the address register are untouched.
pub proof fn lemma_timers_after_ticks(registers: RegisterFile, n: nat)
    ensures
        registers.tick_n(n).dt == if registers.dt >= n { registers.dt - n } else { 0 },
        registers.tick_n(n).st == if registers.st >= n { registers.st - n } else { 0 },
        registers.tick_n(n).v == registers.v,
        registers.tick_n(n).i == registers.i,
    decreases n,
{
    if n > 0 {
        lemma_timers_after_ticks(registers.tick(), (n - 1) as nat);
    }
}

} // verus!
