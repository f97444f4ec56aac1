//! The whole machine: processor, memory and display.

use vstd::prelude::*;
use super::cpu::CPU;
use super::display::{blank, blank_frame, well_formed};
use super::fault::Fault;
use super::key::Key;
use super::machine::{agrees, draws_random, machine, stepped, CpuState, Machine};
use super::memory::{loaded, Memory, MEMORY_LENGTH};

verus! {

/// The width of the display in pixels.
pub const WIDTH: usize = 64;

/// The height of the display in pixels.
pub const HEIGHT: usize = 32;

/// The first writable address, where programs are loaded and start.
pub const PROGRAM_OFFSET: u16 = 0x200;

/// The longest program that fits into memory.
pub const MAX_ROM_LENGTH: usize = 0xfff - 0x200;

/// The glyphs of the sixteen hexadecimal digits, five rows each, in the order
/// of the digits.
pub const FONT_SET: [u8; 80] = [
    0xF0, 0x90, 0x90, 0x90, 0xF0,
    0x20, 0x60, 0x20, 0x20, 0x70,
    0xF0, 0x10, 0xF0, 0x80, 0xF0,
    0xF0, 0x10, 0xF0, 0x10, 0xF0,
    0x90, 0x90, 0xF0, 0x10, 0x10,
    0xF0, 0x80, 0xF0, 0x10, 0xF0,
    0xF0, 0x80, 0xF0, 0x90, 0xF0,
    0xF0, 0x10, 0x20, 0x40, 0x40,
    0xF0, 0x90, 0xF0, 0x90, 0xF0,
    0xF0, 0x90, 0xF0, 0x10, 0xF0,
    0xF0, 0x90, 0xF0, 0x90, 0x90,
    0xE0, 0x90, 0xE0, 0x90, 0xE0,
    0xF0, 0x80, 0x80, 0x80, 0xF0,
    0xE0, 0x90, 0x90, 0x90, 0xE0,
    0xF0, 0x80, 0xF0, 0x80, 0xF0,
    0xF0, 0x80, 0xF0, 0x80, 0x80,
];

/// The machine as it is before its first step, with `rom` loaded: the program
/// at `PROGRAM_OFFSET`, the glyphs at address 0, zero elsewhere, the processor
/// at power-on and the display blank.
pub open spec fn booted(rom: Seq<u8>) -> Machine {
    Machine {
        cpu: CpuState::initial(),
        memory: loaded(
            loaded(Seq::new(MEMORY_LENGTH as nat, |a: int| 0u8), rom, PROGRAM_OFFSET as int),
            FONT_SET@,
            0,
        ),
        frame: blank_frame(),
    }
}

/// The virtual machine. Its view is the state of its processor, memory and
/// display.
pub struct VM {
    cpu: CPU,
    memory: Memory,
    frame_buffer: Vec<u32>,
}

impl View for VM {
    type V = Machine;

    closed spec fn view(&self) -> Machine {
        machine(self.cpu@, self.memory@, self.frame_buffer@)
    }
}

impl VM {
    /// The invariant of the machine: its frame has one cell for each pixel,
    /// and each cell is on or off.
    pub closed spec fn wf(&self) -> bool {
        well_formed(self.frame_buffer@)
    }

    /// A machine with `rom` loaded, ready for its first step.
    pub fn new(rom: &[u8]) -> (vm: VM)
        requires
            rom@.len() <= MAX_ROM_LENGTH,
        ensures
            vm.wf(),
            vm@ == booted(rom@),
    {
        let mut memory = Memory::new();
        memory.load(rom, PROGRAM_OFFSET);
        memory.load(&FONT_SET, 0);
        VM { cpu: CPU::new(), memory, frame_buffer: blank() }
    }

    /// The processor.
    pub fn cpu(&self) -> (cpu: &CPU)
        ensures
            cpu@ == self@.cpu,
    {
        &self.cpu
    }

    /// The memory.
    pub fn memory(&self) -> (memory: &Memory)
        ensures
            memory@ == self@.memory,
    {
        &self.memory
    }

    /// A copy of the display as it is now: one cell for each pixel, row after
    /// row, each on or off.
    pub fn get_current_frame(&self) -> (frame: Vec<u32>)
        ensures
            frame@ == self@.frame,
            self.wf() ==> well_formed(frame@),
    {
        self.frame_buffer.clone()
    }

    /// Runs one step of the machine with the given keys held. The step is the
    /// one that `stepped` describes: for the random-number operation with the
    /// byte that was drawn, whichever it is, for every other instruction with
    /// any byte. On a fault nothing has changed.
    pub fn tick(&mut self, keys: &[Key]) -> (result: Result<(), Fault>)
        requires
            old(self).wf(),
        ensures
            final(self).wf(),
            exists|random: u8|
                agrees(
                    #[trigger] stepped(old(self)@, keys@.to_set(), random),
                    old(self)@,
                    result,
                    final(self)@,
                ),
            !draws_random(old(self)@) ==> agrees(
                stepped(old(self)@, keys@.to_set(), 0),
                old(self)@,
                result,
                final(self)@,
            ),
    {
        let ghost before = self@;
        let result = self.cpu.tick(&mut self.memory, &mut self.frame_buffer, keys);
        proof {
            let random = choose|random: u8|
                agrees(#[trigger] stepped(before, keys@.to_set(), random), before, result, self@);
            assert(agrees(stepped(before, keys@.to_set(), random), before, result, self@));
        }
        result
    }
}

} // verus!
