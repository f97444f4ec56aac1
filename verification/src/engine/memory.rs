//! The address space of the machine: a fixed run of bytes whose low region
//! holds the built-in glyphs and is closed to stores.

use vstd::prelude::*;
use super::vm::PROGRAM_OFFSET;

verus! {

/// The number of addressable bytes.
pub const MEMORY_LENGTH: usize = 0xfff;

/// The bytes `memory` holds after `data` has been copied to `offset..`.
pub open spec fn loaded(memory: Seq<u8>, data: Seq<u8>, offset: int) -> Seq<u8> {
    Seq::new(
        memory.len(),
        |a: int|
            if offset <= a < offset + data.len() {
                data[a - offset]
            } else {
                memory[a]
            },
    )
}

/// The memory of the machine. Its view is the sequence of its bytes by address.
pub struct Memory {
    memory: [u8; 0xfff],
}

impl View for Memory {
    type V = Seq<u8>;

    closed spec fn view(&self) -> Seq<u8> {
        self.memory@
    }
}

impl Memory {
    /// A memory of `MEMORY_LENGTH` zero bytes.
    pub fn new() -> (memory: Memory)
        ensures
            memory@ == Seq::new(MEMORY_LENGTH as nat, |a: int| 0u8),
    {
        let memory = Memory { memory: [0; 0xfff] };
        assert(memory@ =~= Seq::new(MEMORY_LENGTH as nat, |a: int| 0u8));
        memory
    }

    /// Every memory has the same length.
    pub proof fn lemma_len(&self)
        ensures
            self@.len() == MEMORY_LENGTH,
    {
    }

    /// Copies `data` into memory starting at `offset`, protected region
    /// included: this is how glyphs and programs are installed.
    pub fn load(&mut self, data: &[u8], offset: u16)
        requires
            offset + data@.len() <= MEMORY_LENGTH,
        ensures
            final(self)@ == loaded(old(self)@, data@, offset as int),
    {
        let mut address: usize = 0;
        while address < data.len()
            invariant
                address <= data@.len(),
                offset + data@.len() <= MEMORY_LENGTH,
                self@ == loaded(old(self)@, data@.take(address as int), offset as int),
            decreases data@.len() - address,
        {
            self.memory[offset as usize + address] = data[address];
            address += 1;
            assert(self@ =~= loaded(old(self)@, data@.take(address as int), offset as int));
        }
        assert(data@.take(address as int) =~= data@);
    }

    /// Reads the byte at `address`.
    pub fn read(&self, address: u16) -> (value: u8)
        requires
            address < MEMORY_LENGTH,
        ensures
            value == self@[address as int],
    {
        self.memory[address as usize]
    }

    /// The `count` bytes at `address..`. Where `count` is zero nothing is
    /// read, whatever the address.
    pub fn span(&self, address: u16, count: u8) -> (bytes: &[u8])
        requires
            count == 0 || address + count <= MEMORY_LENGTH,
        ensures
            bytes@ == Seq::new(count as nat, |k: int| self@[address + k]),
    {
        let start: usize = if count == 0 {
            0
        } else {
            address as usize
        };
        let end: usize = start + count as usize;
        let bytes = &self.memory[start..end];
        assert(bytes@ =~= Seq::new(count as nat, |k: int| self@[address + k]));
        bytes
    }

    /// Stores `value` at `address`, which lies in writable memory.
    pub fn write(&mut self, address: u16, value: u8)
        requires
            PROGRAM_OFFSET <= address < MEMORY_LENGTH,
        ensures
            final(self)@ == old(self)@.update(address as int, value),
    {
        self.memory[address as usize] = value;
    }
}

} // verus!
