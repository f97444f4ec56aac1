//! The processor: it fetches, decodes and executes one instruction per step.

use vstd::prelude::*;
use rand::rngs::ThreadRng;
use rand::Rng;
use super::display::{clear, draw_sprite, well_formed};
use super::fault::Fault;
use super::key::{is_held, lowest, Key};
use super::machine::{
    agrees, bit, block_loaded, decimal_digits, draws_random, executed, fetched, machine, stepped,
    CpuState,
};
use super::memory::{loaded, Memory, MEMORY_LENGTH};
use super::opcode::{decoded, operand_kk, operand_n, operand_nnn, operand_x, operand_y, Opcode};
use super::register::{Register, Registers};
use super::vm::PROGRAM_OFFSET;

verus! {

/// The first register operand of an instruction word.
fn register_x(instruction: u16) -> (register: Register)
    ensures
        register == operand_x(instruction),
        register.wf(),
{
    let id = (instruction >> 8) & 0xf;
    assert(id == (instruction / 0x100) % 0x10 && id <= 15) by (bit_vector)
        requires
            id == (instruction >> 8) & 0xf,
    ;
    Register::new(id)
}

/// The second register operand of an instruction word.
fn register_y(instruction: u16) -> (register: Register)
    ensures
        register == operand_y(instruction),
        register.wf(),
{
    let id = (instruction >> 4) & 0xf;
    assert(id == (instruction / 0x10) % 0x10 && id <= 15) by (bit_vector)
        requires
            id == (instruction >> 4) & 0xf,
    ;
    Register::new(id)
}

/// The low nibble of an instruction word.
fn nibble(instruction: u16) -> (n: u8)
    ensures
        n == operand_n(instruction),
        n <= 15,
{
    let n = instruction & 0xf;
    assert(n == instruction % 0x10 && n <= 15) by (bit_vector)
        requires
            n == instruction & 0xf,
    ;
    n as u8
}

/// The low byte of an instruction word.
fn byte(instruction: u16) -> (kk: u8)
    ensures
        kk == operand_kk(instruction),
{
    let kk = instruction & 0xff;
    assert(kk == instruction % 0x100 && kk <= 0xff) by (bit_vector)
        requires
            kk == instruction & 0xff,
    ;
    kk as u8
}

/// The low twelve bits of an instruction word.
fn address(instruction: u16) -> (nnn: u16)
    ensures
        nnn == operand_nnn(instruction),
{
    let nnn = instruction & 0xfff;
    assert(nnn == instruction % 0x1000) by (bit_vector)
        requires
            nnn == instruction & 0xfff,
    ;
    nnn
}

/// The handle to the random number generator of the current thread.
#[verifier::external_type_specification]
#[verifier::external_body]
pub struct ExThreadRng(ThreadRng);

/// `rand::thread_rng`: the handle to the generator of the current thread,
/// which is seeded by the system on first use. Nothing is claimed of the
/// handle. The call panics if the system's source of randomness cannot be
/// read at that first use, which no argument decides.
pub assume_specification[ rand::thread_rng ]() -> ThreadRng
;

/// `rand::Rng::gen` for `u8`: draws one byte from the generator. Every byte
/// may come out, so nothing is claimed of the result.
#[verifier::external_body]
fn random_byte(rng: &mut ThreadRng) -> u8 {
    rng.gen()
}

/// One for `true`, zero for `false`.
fn flag_value(condition: bool) -> (value: u8)
    ensures
        value == bit(condition),
{
    if condition {
        1
    } else {
        0
    }
}

/// The processor of the machine. Its view is the state of its registers,
/// program counter and call stack.
pub struct CPU {
    registers: Registers,
    program_counter: u16,
    stack: Vec<u16>,
    rng: ThreadRng,
}

impl View for CPU {
    type V = CpuState;

    closed spec fn view(&self) -> CpuState {
        CpuState { registers: self.registers@, pc: self.program_counter, stack: self.stack@ }
    }
}

impl CPU {
    /// A processor at power-on.
    pub fn new() -> (cpu: CPU)
        ensures
            cpu@ == CpuState::initial(),
    {
        CPU {
            registers: Registers::new(),
            program_counter: PROGRAM_OFFSET,
            stack: Vec::new(),
            rng: rand::thread_rng(),
        }
    }

    /// The register file.
    pub fn registers(&self) -> (registers: &Registers)
        ensures
            registers@ == self@.registers,
    {
        &self.registers
    }

    /// The address of the next instruction.
    pub fn program_counter(&self) -> (pc: u16)
        ensures
            pc == self@.pc,
    {
        self.program_counter
    }

    /// The return addresses of the calls in progress, the latest last.
    pub fn stack(&self) -> (stack: &[u16])
        ensures
            stack@ == self@.stack,
    {
        self.stack.as_slice()
    }

    /// Runs one step: fetches the instruction at the program counter, decodes
    /// and executes it, then counts the timers down once. The step is the one
    /// that `stepped` describes: for the random-number operation with the
    /// byte that was drawn, whichever it is, for every other instruction with
    /// any byte. On a fault nothing has changed.
    pub fn tick(&mut self, memory: &mut Memory, frame_buffer: &mut Vec<u32>, keys: &[Key]) -> (result:
        Result<(), Fault>)
        requires
            well_formed(old(frame_buffer)@),
        ensures
            exists|random: u8|
                agrees(
                    #[trigger] stepped(
                        machine(old(self)@, old(memory)@, old(frame_buffer)@),
                        keys@.to_set(),
                        random,
                    ),
                    machine(old(self)@, old(memory)@, old(frame_buffer)@),
                    result,
                    machine(final(self)@, final(memory)@, final(frame_buffer)@),
                ),
            !draws_random(machine(old(self)@, old(memory)@, old(frame_buffer)@)) ==> agrees(
                stepped(machine(old(self)@, old(memory)@, old(frame_buffer)@), keys@.to_set(), 0),
                machine(old(self)@, old(memory)@, old(frame_buffer)@),
                result,
                machine(final(self)@, final(memory)@, final(frame_buffer)@),
            ),
            well_formed(final(frame_buffer)@),
    {
        let ghost before = machine(self@, memory@, frame_buffer@);
        let encoded_instruction: u16 = match self.fetch(memory) {
            Ok(word) => word,
            Err(fault) => {
                assert(agrees(stepped(before, keys@.to_set(), 0), before, Err(fault), before));
                return Err(fault);
            },
        };
        let opcode = match CPU::decode(encoded_instruction) {
            Ok(opcode) => opcode,
            Err(fault) => {
                assert(agrees(stepped(before, keys@.to_set(), 0), before, Err(fault), before));
                return Err(fault);
            },
        };
        let random: u8 = self.random_operand(&opcode);
        let result = self.execute(opcode, memory, frame_buffer, keys, random);
        if result.is_ok() {
            self.registers.tick();
        }
        assert(agrees(
            stepped(before, keys@.to_set(), random),
            before,
            result,
            machine(self@, memory@, frame_buffer@),
        ));
        result
    }

    /// The random byte that the operation consumes: drawn from the generator
    /// for the random-number operation, zero for every other one.
    fn random_operand(&mut self, opcode: &Opcode) -> (random: u8)
        ensures
            final(self)@ == old(self)@,
            !(opcode matches Opcode::RND(_, _)) ==> random == 0,
    {
        match opcode {
            Opcode::RND(_, _) => random_byte(&mut self.rng),
            _ => 0,
        }
    }

    /// Reads the instruction word at the program counter, high byte first.
    /// Fails with `OutOfBounds` exactly when the two bytes do not both lie in
    /// memory.
    pub fn fetch(&self, memory: &Memory) -> (result: Result<u16, Fault>)
        ensures
            match fetched(memory@, self@.pc) {
                Some(word) => result == Ok::<u16, Fault>(word),
                None => result == Err::<u16, Fault>(Fault::OutOfBounds),
            },
    {
        if self.program_counter as usize + 1 >= MEMORY_LENGTH {
            return Err(Fault::OutOfBounds);
        }
        let high: u16 = memory.read(self.program_counter) as u16;
        let low: u16 = memory.read(self.program_counter + 1) as u16;
        let word: u16 = high << 8 | low;
        assert(word == high * 0x100 + low) by (bit_vector)
            requires
                word == high << 8 | low,
                high <= 0xff,
                low <= 0xff,
        ;
        Ok(word)
    }

    /// Executes one operation. `keys` are the keys held during this step and
    /// `random` is the byte that a random draw yields. On a fault nothing has
    /// changed.
    pub fn execute(
        &mut self,
        opcode: Opcode,
        memory: &mut Memory,
        frame_buffer: &mut Vec<u32>,
        keys: &[Key],
        random: u8,
    ) -> (result: Result<(), Fault>)
        requires
            opcode.wf(),
            well_formed(old(frame_buffer)@),
        ensures
            agrees(
                executed(
                    machine(old(self)@, old(memory)@, old(frame_buffer)@),
                    opcode,
                    keys@.to_set(),
                    random,
                ),
                machine(old(self)@, old(memory)@, old(frame_buffer)@),
                result,
                machine(final(self)@, final(memory)@, final(frame_buffer)@),
            ),
            well_formed(final(frame_buffer)@),
    {
        proof {
            self.registers.lemma_wf();
            memory.lemma_len();
        }
        match opcode {
            Opcode::SYS(_) => {},
            Opcode::CLS => clear(frame_buffer),
            Opcode::RET => {
                match self.stack.pop() {
                    Some(address) => {
                        self.program_counter = address;
                        return Ok(());
                    },
                    None => {
                        return Err(Fault::StackUnderflow);
                    },
                }
            },
            Opcode::JP(address) => {
                self.program_counter = address;
                return Ok(());
            },
            Opcode::CALL(address) => {
                self.stack.push(self.program_counter.wrapping_add(2));
                self.program_counter = address;
                return Ok(());
            },
            Opcode::SEI(register, byte) => {
                if self.registers.read(&register) == byte {
                    self.program_counter = self.program_counter.wrapping_add(2);
                }
            },
            Opcode::SNEI(register, byte) => {
                if self.registers.read(&register) != byte {
                    self.program_counter = self.program_counter.wrapping_add(2);
                }
            },
            Opcode::SE(register_1, register_2) => {
                if self.registers.read(&register_1) == self.registers.read(&register_2) {
                    self.program_counter = self.program_counter.wrapping_add(2);
                }
            },
            Opcode::LDI(register, value) => self.registers.write(&register, value),
            Opcode::ADDI(register, value) => {
                let updated: u8 = self.registers.read(&register).wrapping_add(value);
                self.registers.write(&register, updated);
            },
            Opcode::LD(register_1, register_2) => {
                let value: u8 = self.registers.read(&register_2);
                self.registers.write(&register_1, value)
            },
            Opcode::OR(register_1, register_2) => {
                let value_1: u8 = self.registers.read(&register_1);
                let value_2: u8 = self.registers.read(&register_2);
                self.registers.write(&register_1, value_1 | value_2)
            },
            Opcode::AND(register_1, register_2) => {
                let value_1: u8 = self.registers.read(&register_1);
                let value_2: u8 = self.registers.read(&register_2);
                self.registers.write(&register_1, value_1 & value_2)
            },
            Opcode::XOR(register_1, register_2) => {
                let value_1: u8 = self.registers.read(&register_1);
                let value_2: u8 = self.registers.read(&register_2);
                self.registers.write(&register_1, value_1 ^ value_2)
            },
            Opcode::ADD(register_1, register_2) => {
                let value_1: u8 = self.registers.read(&register_1);
                let value_2: u8 = self.registers.read(&register_2);
                let carry: bool = value_1 as u16 + value_2 as u16 > 0xff;
                self.registers.write(&register_1, value_1.wrapping_add(value_2));
                self.registers.write(&Register::vf(), flag_value(carry))
            },
            Opcode::SUBR(register_1, register_2) => {
                let value_1: u8 = self.registers.read(&register_1);
                let value_2: u8 = self.registers.read(&register_2);
                self.registers.write(&Register::vf(), flag_value(value_1 >= value_2));
                self.registers.write(&register_1, value_1.wrapping_sub(value_2))
            },
            Opcode::SHR(register) => {
                let value: u8 = self.registers.read(&register);
                let out: u8 = value & 0x1;
                let shifted: u8 = value >> 1;
                assert(out == value % 2 && shifted == value / 2) by (bit_vector)
                    requires
                        out == value & 0x1,
                        shifted == value >> 1,
                ;
                self.registers.write(&Register::vf(), out);
                self.registers.write(&register, shifted)
            },
            Opcode::SUBN(register_1, register_2) => {
                let value_1: u8 = self.registers.read(&register_1);
                let value_2: u8 = self.registers.read(&register_2);
                self.registers.write(&Register::vf(), flag_value(value_2 >= value_1));
                self.registers.write(&register_1, value_2.wrapping_sub(value_1))
            },
            Opcode::SHL(register) => {
                let value: u8 = self.registers.read(&register);
                let out: u8 = (value >> 7) & 0x1;
                let shifted: u8 = value << 1;
                assert(out == value / 0x80 && shifted == (value * 2) % 0x100) by (bit_vector)
                    requires
                        out == (value >> 7) & 0x1,
                        shifted == value << 1,
                ;
                self.registers.write(&Register::vf(), out);
                self.registers.write(&register, shifted)
            },
            Opcode::SNE(register_1, register_2) => {
                if self.registers.read(&register_1) != self.registers.read(&register_2) {
                    self.program_counter = self.program_counter.wrapping_add(2);
                }
            },
            Opcode::LDII(nnn) => self.registers.i = nnn,
            Opcode::JPA(address) => {
                let value: u8 = self.registers.read(&Register::new(0));
                self.program_counter = address.wrapping_add(value as u16);
                return Ok(());
            },
            Opcode::RND(register, byte) => {
                self.registers.write(&register, random & byte);
            },
            Opcode::DRW(x_register, y_register, n) => {
                let x_offset: u8 = self.registers.read(&x_register);
                let y_offset: u8 = self.registers.read(&y_register);
                let start: u16 = self.registers.i;
                if n > 0 && start as usize + n as usize > MEMORY_LENGTH {
                    return Err(Fault::OutOfBounds);
                }
                let sprite = memory.span(start, n);
                let changed: bool = draw_sprite(frame_buffer, x_offset, y_offset, sprite);
                self.registers.write(&Register::vf(), flag_value(changed));
            },
            Opcode::SKP(register) => {
                let value: u8 = self.registers.read(&register);
                if is_held(keys, value) {
                    self.program_counter = self.program_counter.wrapping_add(2);
                }
            },
            Opcode::SKNP(register) => {
                let value: u8 = self.registers.read(&register);
                if !is_held(keys, value) {
                    self.program_counter = self.program_counter.wrapping_add(2);
                }
            },
            Opcode::LDVDT(register) => self.registers.write(&register, self.registers.dt),
            Opcode::LDK(register) => {
                match lowest(keys) {
                    Some(code) => self.registers.write(&register, code),
                    None => {
                        self.idle_wait();
                        return Ok(());
                    },
                }
            },
            Opcode::LDDTV(register) => self.registers.dt = self.registers.read(&register),
            Opcode::LDST(register) => self.registers.st = self.registers.read(&register),
            Opcode::ADDRI(register) => {
                self.registers.i = self.registers.i.wrapping_add(
                    self.registers.read(&register) as u16,
                )
            },
            Opcode::LDF(register) => {
                self.registers.i = self.registers.read(&register).wrapping_mul(5) as u16
            },
            Opcode::LDB(register) => {
                let value: u8 = self.registers.read(&register);
                let start: u16 = self.registers.i;
                if start < PROGRAM_OFFSET {
                    return Err(Fault::ProtectedWrite(start));
                }
                if start as usize + 3 > MEMORY_LENGTH {
                    return Err(Fault::OutOfBounds);
                }
                memory.write(start, value / 100);
                memory.write(start + 1, (value % 100) / 10);
                memory.write(start + 2, value % 10);
                assert(memory@ =~= loaded(old(memory)@, decimal_digits(value), start as int));
            },
            Opcode::LDIM(register) => {
                let id: u8 = register.id;
                let start: u16 = self.registers.i;
                if start < PROGRAM_OFFSET {
                    return Err(Fault::ProtectedWrite(start));
                }
                if start as usize + id as usize + 1 > MEMORY_LENGTH {
                    return Err(Fault::OutOfBounds);
                }
                let mut i: u8 = 0;
                while i <= id
                    invariant
                        i <= id + 1,
                        id <= 15,
                        PROGRAM_OFFSET <= start,
                        start + id + 1 <= MEMORY_LENGTH,
                        self@ == old(self)@,
                        memory@ == loaded(
                            old(memory)@,
                            self@.registers.v.subrange(0, i as int),
                            start as int,
                        ),
                        self@.registers.wf(),
                        old(memory)@.len() == MEMORY_LENGTH,
                    decreases id + 1 - i,
                {
                    let value: u8 = self.registers.read(&Register::new(i as u16));
                    memory.write(start + i as u16, value);
                    i += 1;
                    assert(memory@ =~= loaded(
                        old(memory)@,
                        self@.registers.v.subrange(0, i as int),
                        start as int,
                    ));
                }
            },
            Opcode::LDMI(register) => {
                let id: u8 = register.id;
                let start: u16 = self.registers.i;
                if start as usize + id as usize + 1 > MEMORY_LENGTH {
                    return Err(Fault::OutOfBounds);
                }
                let mut i: u8 = 0;
                while i <= id
                    invariant
                        i <= id + 1,
                        id <= 15,
                        start + id + 1 <= MEMORY_LENGTH,
                        memory@ == old(memory)@,
                        memory@.len() == MEMORY_LENGTH,
                        self@.pc == old(self)@.pc,
                        self@.stack == old(self)@.stack,
                        self@.registers.i == old(self)@.registers.i,
                        self@.registers.dt == old(self)@.registers.dt,
                        self@.registers.st == old(self)@.registers.st,
                        old(self)@.registers.wf(),
                        i > 0 ==> self@.registers.v == block_loaded(
                            old(self)@.registers.v,
                            memory@,
                            start,
                            Register { id: (i - 1) as u8 },
                        ),
                        i == 0 ==> self@.registers.v == old(self)@.registers.v,
                    decreases id + 1 - i,
                {
                    let value: u8 = memory.read(start + i as u16);
                    self.registers.write(&Register::new(i as u16), value);
                    assert(self@.registers.v =~= block_loaded(
                        old(self)@.registers.v,
                        memory@,
                        start,
                        Register { id: i },
                    ));
                    i += 1;
                }
            },
        }
        self.program_counter = self.program_counter.wrapping_add(2);
        Ok(())
    }

    /// What a wait for a key does when no key is held: it goes on to the next
    /// instruction and leaves the register alone.
    fn idle_wait(&mut self)
        ensures
            machine(final(self)@, Seq::empty(), Seq::empty()) == machine(
                old(self)@,
                Seq::empty(),
                Seq::empty(),
            ).idle_wait(),
    {
        self.program_counter = self.program_counter.wrapping_add(2);
    }

    /// Decodes an instruction word into the opcode that it encodes. Fails with
    /// `MalformedInstruction`, carrying the word, exactly when the word matches
    /// no defined operation.
    pub fn decode(instruction: u16) -> (result: Result<Opcode, Fault>)
        ensures
            match decoded(instruction) {
                Some(opcode) => result == Ok::<Opcode, Fault>(opcode) && opcode.wf(),
                None => result == Err::<Opcode, Fault>(Fault::MalformedInstruction(instruction)),
            },
    {
        let top = instruction >> 12;
        assert(top == instruction / 0x1000) by (bit_vector)
            requires
                top == instruction >> 12,
        ;
        match top {
            0x0 => match instruction {
                0x00e0 => Ok(Opcode::CLS),
                0x00ee => Ok(Opcode::RET),
                _ => Ok(Opcode::SYS(address(instruction))),
            },
            0x1 => Ok(Opcode::JP(address(instruction))),
            0x2 => Ok(Opcode::CALL(address(instruction))),
            0x3 => Ok(Opcode::SEI(register_x(instruction), byte(instruction))),
            0x4 => Ok(Opcode::SNEI(register_x(instruction), byte(instruction))),
            0x5 => Ok(Opcode::SE(register_x(instruction), register_y(instruction))),
            0x6 => Ok(Opcode::LDI(register_x(instruction), byte(instruction))),
            0x7 => Ok(Opcode::ADDI(register_x(instruction), byte(instruction))),
            0x8 => match nibble(instruction) {
                0x0 => Ok(Opcode::LD(register_x(instruction), register_y(instruction))),
                0x1 => Ok(Opcode::OR(register_x(instruction), register_y(instruction))),
                0x2 => Ok(Opcode::AND(register_x(instruction), register_y(instruction))),
                0x3 => Ok(Opcode::XOR(register_x(instruction), register_y(instruction))),
                0x4 => Ok(Opcode::ADD(register_x(instruction), register_y(instruction))),
                0x5 => Ok(Opcode::SUBR(register_x(instruction), register_y(instruction))),
                0x6 => Ok(Opcode::SHR(register_x(instruction))),
                0x7 => Ok(Opcode::SUBN(register_x(instruction), register_y(instruction))),
                0xe => Ok(Opcode::SHL(register_x(instruction))),
                _ => Err(Fault::MalformedInstruction(instruction)),
            },
            0x9 => {
                if nibble(instruction) != 0x0 {
                    return Err(Fault::MalformedInstruction(instruction));
                }
                Ok(Opcode::SNE(register_x(instruction), register_y(instruction)))
            },
            0xa => Ok(Opcode::LDII(address(instruction))),
            0xb => Ok(Opcode::JPA(address(instruction))),
            0xc => Ok(Opcode::RND(register_x(instruction), byte(instruction))),
            0xd => Ok(
                Opcode::DRW(
                    register_x(instruction),
                    register_y(instruction),
                    nibble(instruction),
                ),
            ),
            0xe => match byte(instruction) {
                0x9e => Ok(Opcode::SKP(register_x(instruction))),
                0xa1 => Ok(Opcode::SKNP(register_x(instruction))),
                _ => Err(Fault::MalformedInstruction(instruction)),
            },
            _ => match byte(instruction) {
                0x07 => Ok(Opcode::LDVDT(register_x(instruction))),
                0x0a => Ok(Opcode::LDK(register_x(instruction))),
                0x15 => Ok(Opcode::LDDTV(register_x(instruction))),
                0x18 => Ok(Opcode::LDST(register_x(instruction))),
                0x1e => Ok(Opcode::ADDRI(register_x(instruction))),
                0x29 => Ok(Opcode::LDF(register_x(instruction))),
                0x33 => Ok(Opcode::LDB(register_x(instruction))),
                0x55 => Ok(Opcode::LDIM(register_x(instruction))),
                0x65 => Ok(Opcode::LDMI(register_x(instruction))),
                _ => Err(Fault::MalformedInstruction(instruction)),
            },
        }
    }
}

} // verus!
