//! The mathematical model of the machine and the meaning of every operation:
//! what one instruction, and one whole step, does to the state.

use vstd::prelude::*;
use super::display::{blank_frame, collides, drawn, well_formed, OFF};
use super::fault::Fault;
use super::key::{held, lowest_held, Key};
use super::memory::{loaded, MEMORY_LENGTH};
use super::opcode::{decoded, Opcode};
use super::register::{ticked, Register, RegisterFile};
use super::vm::PROGRAM_OFFSET;

verus! {

/// The state of the processor.
pub struct CpuState {
    /// The register file.
    pub registers: RegisterFile,
    /// The address of the next instruction.
    pub pc: u16,
    /// The return addresses of the calls in progress, the latest last.
    pub stack: Seq<u16>,
}

/// The state that a step of the interpreter reads and changes.
pub struct Machine {
    /// The processor.
    pub cpu: CpuState,
    /// The bytes of memory, by address.
    pub memory: Seq<u8>,
    /// The cells of the display, row after row.
    pub frame: Seq<u32>,
}

/// The machine made of a processor, a memory and a frame.
pub open spec fn machine(cpu: CpuState, memory: Seq<u8>, frame: Seq<u32>) -> Machine {
    Machine { cpu, memory, frame }
}

/// The flag register.
pub open spec fn flag() -> Register {
    Register { id: 0xf }
}

/// An address `by` bytes past `address`, wrapping at sixteen bits.
pub open spec fn advanced(address: u16, by: int) -> u16 {
    ((address + by) % 0x1_0000) as u16
}

/// A value reduced to a byte, wrapping at eight bits.
pub open spec fn wrapped(value: int) -> u8 {
    (value % 0x100) as u8
}

/// One for `true`, zero for `false`.
pub open spec fn bit(condition: bool) -> u8 {
    if condition {
        1
    } else {
        0
    }
}

/// The `rows` bytes of the sprite at `address`.
pub open spec fn sprite_at(memory: Seq<u8>, address: u16, rows: u8) -> Seq<u8> {
    Seq::new(rows as nat, |k: int| memory[address + k])
}

/// The hundreds, tens and units of a byte.
pub open spec fn decimal_digits(value: u8) -> Seq<u8> {
    seq![value / 100, (value % 100) / 10, value % 10]
}

/// The registers after `V0..=Vx` have been loaded from `memory` at `address..`.
pub open spec fn block_loaded(v: Seq<u8>, memory: Seq<u8>, address: u16, x: Register) -> Seq<u8> {
    Seq::new(
        v.len(),
        |k: int|
            if k <= x.id {
                memory[address + k]
            } else {
                v[k]
            },
    )
}

/// Why a store of `count` bytes at `address..` is refused, if it is: it starts
/// below writable memory, or it runs past the end of memory.
pub open spec fn store_fault(address: u16, count: int) -> Option<Fault> {
    if address < PROGRAM_OFFSET {
        Some(Fault::ProtectedWrite(address))
    } else if address + count > MEMORY_LENGTH {
        Some(Fault::OutOfBounds)
    } else {
        None
    }
}

impl CpuState {
    /// The processor at power-on: registers and timers at zero, an empty call
    /// stack, and the program counter at the start of the program.
    pub open spec fn initial() -> CpuState {
        CpuState { registers: RegisterFile::zeroed(), pc: PROGRAM_OFFSET, stack: Seq::empty() }
    }
}

impl Machine {
    /// A machine is well formed when it has sixteen registers, a memory of
    /// `MEMORY_LENGTH` bytes and a well-formed frame.
    pub open spec fn wf(self) -> bool {
        &&& self.cpu.registers.wf()
        &&& self.memory.len() == MEMORY_LENGTH
        &&& well_formed(self.frame)
    }

    /// The value of register `Vx`.
    pub open spec fn v(self, x: Register) -> u8 {
        self.cpu.registers.get(x)
    }

    /// The address register.
    pub open spec fn i(self) -> u16 {
        self.cpu.registers.i
    }

    /// The machine with new contents of the register file.
    pub open spec fn with_registers(self, registers: RegisterFile) -> Machine {
        Machine { cpu: CpuState { registers, ..self.cpu }, ..self }
    }

    /// The machine with `Vx` overwritten.
    pub open spec fn with_v(self, x: Register, value: u8) -> Machine {
        self.with_registers(self.cpu.registers.set(x, value))
    }

    /// The machine with the flag register overwritten.
    pub open spec fn with_flag(self, value: u8) -> Machine {
        self.with_v(flag(), value)
    }

    /// The machine with the address register overwritten.
    pub open spec fn with_i(self, i: u16) -> Machine {
        self.with_registers(self.cpu.registers.set_i(i))
    }

    /// The machine with the program counter at `pc`.
    pub open spec fn at(self, pc: u16) -> Machine {
        Machine { cpu: CpuState { pc, ..self.cpu }, ..self }
    }

    /// The machine with the program counter on the following instruction.
    pub open spec fn next(self) -> Machine {
        self.at(advanced(self.cpu.pc, 2))
    }

    /// The machine with the program counter past the following instruction if
    /// `condition` holds, and on it otherwise.
    pub open spec fn skip_if(self, condition: bool) -> Machine {
        if condition {
            self.at(advanced(self.cpu.pc, 4))
        } else {
            self.next()
        }
    }

    /// The machine after a wait for a key that found no key held. The wait does
    /// not stall: the register is left alone and the program goes on. This is
    /// the one place that decides it.
    pub open spec fn idle_wait(self) -> Machine {
        self.next()
    }

    /// The machine after the timers have counted down once.
    pub open spec fn tick_timers(self) -> Machine {
        self.with_registers(self.cpu.registers.tick())
    }
}

/// The instruction word at the program counter: two bytes, the high one
/// first. `None` where they do not both lie in memory.
pub open spec fn fetched(memory: Seq<u8>, pc: u16) -> Option<u16> {
    if pc + 1 < MEMORY_LENGTH {
        Some((memory[pc as int] * 0x100 + memory[pc + 1]) as u16)
    } else {
        None
    }
}

/// The machine after one operation, or the fault that stops it. `keys` is the
/// set of keys held during this step and `random` is the byte drawn for it.
pub open spec fn executed(m: Machine, opcode: Opcode, keys: Set<Key>, random: u8) -> Result<
    Machine,
    Fault,
> {
    match opcode {
        Opcode::SYS(_) => Ok(m.next()),
        Opcode::CLS => Ok(Machine { frame: Seq::new(m.frame.len(), |p: int| OFF), ..m }.next()),
        Opcode::RET => if m.cpu.stack.len() == 0 {
            Err(Fault::StackUnderflow)
        } else {
            Ok(
                Machine {
                    cpu: CpuState { pc: m.cpu.stack.last(), stack: m.cpu.stack.drop_last(), ..m.cpu },
                    ..m
                },
            )
        },
        Opcode::JP(address) => Ok(m.at(address)),
        Opcode::CALL(address) => Ok(
            Machine {
                cpu: CpuState {
                    pc: address,
                    stack: m.cpu.stack.push(advanced(m.cpu.pc, 2)),
                    ..m.cpu
                },
                ..m
            },
        ),
        Opcode::SEI(x, kk) => Ok(m.skip_if(m.v(x) == kk)),
        Opcode::SNEI(x, kk) => Ok(m.skip_if(m.v(x) != kk)),
        Opcode::SE(x, y) => Ok(m.skip_if(m.v(x) == m.v(y))),
        Opcode::LDI(x, kk) => Ok(m.with_v(x, kk).next()),
        Opcode::ADDI(x, kk) => Ok(m.with_v(x, wrapped(m.v(x) + kk)).next()),
        Opcode::LD(x, y) => Ok(m.with_v(x, m.v(y)).next()),
        Opcode::OR(x, y) => Ok(m.with_v(x, m.v(x) | m.v(y)).next()),
        Opcode::AND(x, y) => Ok(m.with_v(x, m.v(x) & m.v(y)).next()),
        Opcode::XOR(x, y) => Ok(m.with_v(x, m.v(x) ^ m.v(y)).next()),
        Opcode::ADD(x, y) => Ok(
            m.with_v(x, wrapped(m.v(x) + m.v(y))).with_flag(bit(m.v(x) + m.v(y) >= 0x100)).next(),
        ),
        Opcode::SUBR(x, y) => Ok(
            m.with_flag(bit(m.v(x) >= m.v(y))).with_v(x, wrapped(m.v(x) - m.v(y))).next(),
        ),
        Opcode::SHR(x) => Ok(m.with_flag(m.v(x) % 2).with_v(x, m.v(x) / 2).next()),
        Opcode::SUBN(x, y) => Ok(
            m.with_flag(bit(m.v(y) >= m.v(x))).with_v(x, wrapped(m.v(y) - m.v(x))).next(),
        ),
        Opcode::SHL(x) => Ok(m.with_flag(m.v(x) / 0x80).with_v(x, wrapped(m.v(x) * 2)).next()),
        Opcode::SNE(x, y) => Ok(m.skip_if(m.v(x) != m.v(y))),
        Opcode::LDII(address) => Ok(m.with_i(address).next()),
        Opcode::JPA(address) => Ok(m.at(advanced(address, m.v(Register { id: 0 }) as int))),
        Opcode::RND(x, kk) => Ok(m.with_v(x, random & kk).next()),
        Opcode::DRW(x, y, n) => if n > 0 && m.i() + n > MEMORY_LENGTH {
            Err(Fault::OutOfBounds)
        } else {
            let sprite = sprite_at(m.memory, m.i(), n);
            Ok(
                Machine { frame: drawn(m.frame, sprite, m.v(x), m.v(y)), ..m }.with_flag(
                    bit(collides(m.frame, sprite, m.v(x), m.v(y))),
                ).next(),
            )
        },
        Opcode::SKP(x) => Ok(m.skip_if(held(keys, m.v(x)))),
        Opcode::SKNP(x) => Ok(m.skip_if(!held(keys, m.v(x)))),
        Opcode::LDVDT(x) => Ok(m.with_v(x, m.cpu.registers.dt).next()),
        Opcode::LDK(x) => match lowest_held(keys) {
            Some(code) => Ok(m.with_v(x, code).next()),
            None => Ok(m.idle_wait()),
        },
        Opcode::LDDTV(x) => Ok(
            m.with_registers(RegisterFile { dt: m.v(x), ..m.cpu.registers }).next(),
        ),
        Opcode::LDST(x) => Ok(
            m.with_registers(RegisterFile { st: m.v(x), ..m.cpu.registers }).next(),
        ),
        Opcode::ADDRI(x) => Ok(m.with_i(advanced(m.i(), m.v(x) as int)).next()),
        Opcode::LDF(x) => Ok(m.with_i(wrapped(m.v(x) * 5) as u16).next()),
        Opcode::LDB(x) => match store_fault(m.i(), 3) {
            Some(fault) => Err(fault),
            None => Ok(
                Machine { memory: loaded(m.memory, decimal_digits(m.v(x)), m.i() as int), ..m }.next(),
            ),
        },
        Opcode::LDIM(x) => match store_fault(m.i(), x.id + 1) {
            Some(fault) => Err(fault),
            None => Ok(
                Machine {
                    memory: loaded(
                        m.memory,
                        m.cpu.registers.v.subrange(0, x.id + 1),
                        m.i() as int,
                    ),
                    ..m
                }.next(),
            ),
        },
        Opcode::LDMI(x) => if m.i() + x.id + 1 > MEMORY_LENGTH {
            Err(Fault::OutOfBounds)
        } else {
            Ok(
                m.with_registers(
                    RegisterFile {
                        v: block_loaded(m.cpu.registers.v, m.memory, m.i(), x),
                        ..m.cpu.registers
                    },
                ).next(),
            )
        },
    }
}

/// Whether the instruction at the program counter is the random-number
/// operation, the only one whose outcome depends on the random byte.
pub open spec fn draws_random(m: Machine) -> bool {
    fetched(m.memory, m.cpu.pc) matches Some(word) && decoded(word) matches Some(Opcode::RND(_, _))
}

/// The machine after one whole step: fetch the instruction word at the
/// program counter, decode it, execute it, then count the timers down once.
/// A step that faults changes nothing.
pub open spec fn stepped(m: Machine, keys: Set<Key>, random: u8) -> Result<Machine, Fault> {
    match fetched(m.memory, m.cpu.pc) {
        None => Err(Fault::OutOfBounds),
        Some(word) => match decoded(word) {
            None => Err(Fault::MalformedInstruction(word)),
            Some(opcode) => match executed(m, opcode, keys, random) {
                Err(fault) => Err(fault),
                Ok(after) => Ok(after.tick_timers()),
            },
        },
    }
}

/// Whether a call that started on `before` and returned `result`, leaving
/// `after`, did what `expected` says: on success the machine is the expected
/// one, on a fault the fault is the expected one and nothing has changed.
pub open spec fn agrees(
    expected: Result<Machine, Fault>,
    before: Machine,
    result: Result<(), Fault>,
    after: Machine,
) -> bool {
    match expected {
        Ok(machine) => result is Ok && after == machine,
        Err(fault) => result == Err::<(), Fault>(fault) && after == before,
    }
}

/// Whether `after` is `before` one instruction further on, with no register
/// changed but `Vx` and the flag register, and memory, display, timers,
/// address register and call stack as they were.
pub open spec fn touches_only(before: Machine, after: Machine, x: Register) -> bool {
    &&& after.cpu.pc == advanced(before.cpu.pc, 2)
    &&& after.cpu.stack == before.cpu.stack
    &&& after.memory == before.memory
    &&& after.frame == before.frame
    &&& after.cpu.registers.i == before.cpu.registers.i
    &&& after.cpu.registers.dt == before.cpu.registers.dt
    &&& after.cpu.registers.st == before.cpu.registers.st
    &&& after.cpu.registers.v.len() == before.cpu.registers.v.len()
    &&& forall|k: int|
        0 <= k < before.cpu.registers.v.len() && k != x.id && k != flag().id
            ==> after.cpu.registers.v[k] == before.cpu.registers.v[k]
}

/// Addition: `Vx` becomes the sum modulo 256 and the flag register becomes 1
/// if the sum is 256 or more, else 0. Where `Vx` is the flag register itself,
/// the flag is what it holds afterwards.
pub proof fn lemma_add(m: Machine, x: Register, y: Register, keys: Set<Key>, random: u8)
    requires
        m.wf(),
        x.wf(),
        y.wf(),
    ensures
        executed(m, Opcode::ADD(x, y), keys, random) matches Ok(after) && {
            &&& touches_only(m, after, x)
            &&& after.v(flag()) == (if m.v(x) + m.v(y) >= 256 { 1u8 } else { 0u8 })
            &&& x != flag() ==> after.v(x) == (m.v(x) + m.v(y)) % 256
        },
{
}

/// Subtraction, `Vx - Vy` and `Vy - Vx`: `Vx` becomes the difference modulo
/// 256 and the flag register becomes 1 if there was no borrow, else 0. Where
/// `Vx` is the flag register itself, the difference is what it holds
/// afterwards.
pub proof fn lemma_subtract(m: Machine, x: Register, y: Register, keys: Set<Key>, random: u8)
    requires
        m.wf(),
        x.wf(),
        y.wf(),
    ensures
        executed(m, Opcode::SUBR(x, y), keys, random) matches Ok(after) && {
            &&& touches_only(m, after, x)
            &&& after.v(x) == (m.v(x) - m.v(y)) % 256
            &&& x != flag() ==> after.v(flag()) == (if m.v(x) >= m.v(y) { 1u8 } else { 0u8 })
        },
        executed(m, Opcode::SUBN(x, y), keys, random) matches Ok(after) && {
            &&& touches_only(m, after, x)
            &&& after.v(x) == (m.v(y) - m.v(x)) % 256
            &&& x != flag() ==> after.v(flag()) == (if m.v(y) >= m.v(x) { 1u8 } else { 0u8 })
        },
{
}

/// Shifts: `Vx` becomes its half, or its double modulo 256, and the flag
/// register becomes the bit that was shifted out: the lowest bit of the old
/// value for a right shift, the highest for a left shift. Where `Vx` is the
/// flag register itself, the shifted value is what it holds afterwards.
pub proof fn lemma_shift(m: Machine, x: Register, keys: Set<Key>, random: u8)
    requires
        m.wf(),
        x.wf(),
    ensures
        executed(m, Opcode::SHR(x), keys, random) matches Ok(after) && {
            &&& touches_only(m, after, x)
            &&& after.v(x) == m.v(x) / 2
            &&& x != flag() ==> after.v(flag()) == m.v(x) % 2
        },
        executed(m, Opcode::SHL(x), keys, random) matches Ok(after) && {
            &&& touches_only(m, after, x)
            &&& after.v(x) == (m.v(x) * 2) % 256
            &&& x != flag() ==> after.v(flag()) == m.v(x) / 128
        },
{
}

/// The operations that write `Vx` and leave the flag register alone: load,
/// add immediate, copy, and the bitwise ones.
pub proof fn lemma_plain_arithmetic(
    m: Machine,
    x: Register,
    y: Register,
    kk: u8,
    keys: Set<Key>,
    random: u8,
)
    requires
        m.wf(),
        x.wf(),
        y.wf(),
    ensures
        executed(m, Opcode::LDI(x, kk), keys, random) == Ok::<Machine, Fault>(
            m.with_v(x, kk).next(),
        ),
        executed(m, Opcode::ADDI(x, kk), keys, random) == Ok::<Machine, Fault>(
            m.with_v(x, ((m.v(x) + kk) % 256) as u8).next(),
        ),
        executed(m, Opcode::LD(x, y), keys, random) == Ok::<Machine, Fault>(
            m.with_v(x, m.v(y)).next(),
        ),
        executed(m, Opcode::OR(x, y), keys, random) == Ok::<Machine, Fault>(
            m.with_v(x, m.v(x) | m.v(y)).next(),
        ),
        executed(m, Opcode::AND(x, y), keys, random) == Ok::<Machine, Fault>(
            m.with_v(x, m.v(x) & m.v(y)).next(),
        ),
        executed(m, Opcode::XOR(x, y), keys, random) == Ok::<Machine, Fault>(
            m.with_v(x, m.v(x) ^ m.v(y)).next(),
        ),
        executed(m, Opcode::RND(x, kk), keys, random) == Ok::<Machine, Fault>(
            m.with_v(x, random & kk).next(),
        ),
        x != flag() ==> m.with_v(x, kk).v(flag()) == m.v(flag()),
{
}

/// The program counter after each of the six skip operations, where the
/// instruction was fetched from memory: four past the instruction if the
/// condition holds, so that exactly one instruction is skipped, and two past
/// it if not. Nothing else changes.
pub proof fn lemma_skip(m: Machine, opcode: Opcode, keys: Set<Key>, random: u8)
    requires
        m.cpu.pc + 1 < MEMORY_LENGTH,
    ensures
        match opcode {
            Opcode::SEI(x, kk) => executed(m, opcode, keys, random) == Ok::<Machine, Fault>(
                m.at((m.cpu.pc + if m.v(x) == kk { 4int } else { 2int }) as u16),
            ),
            Opcode::SNEI(x, kk) => executed(m, opcode, keys, random) == Ok::<Machine, Fault>(
                m.at((m.cpu.pc + if m.v(x) != kk { 4int } else { 2int }) as u16),
            ),
            Opcode::SE(x, y) => executed(m, opcode, keys, random) == Ok::<Machine, Fault>(
                m.at((m.cpu.pc + if m.v(x) == m.v(y) { 4int } else { 2int }) as u16),
            ),
            Opcode::SNE(x, y) => executed(m, opcode, keys, random) == Ok::<Machine, Fault>(
                m.at((m.cpu.pc + if m.v(x) != m.v(y) { 4int } else { 2int }) as u16),
            ),
            Opcode::SKP(x) => executed(m, opcode, keys, random) == Ok::<Machine, Fault>(
                m.at((m.cpu.pc + if held(keys, m.v(x)) { 4int } else { 2int }) as u16),
            ),
            Opcode::SKNP(x) => executed(m, opcode, keys, random) == Ok::<Machine, Fault>(
                m.at((m.cpu.pc + if !held(keys, m.v(x)) { 4int } else { 2int }) as u16),
            ),
            _ => true,
        },
{
}

/// A call followed at once by a return brings the program counter to the
/// address just after the call instruction and leaves the call stack, and
/// everything else, as it was before the call.
pub proof fn lemma_call_return(m: Machine, address: u16, keys: Set<Key>, random: u8)
    ensures
        executed(m, Opcode::CALL(address), keys, random) matches Ok(called) && {
            &&& called.cpu.pc == address
            &&& executed(called, Opcode::RET, keys, random) == Ok::<Machine, Fault>(
                m.at(advanced(m.cpu.pc, 2)),
            )
        },
        m.cpu.pc + 1 < MEMORY_LENGTH ==> advanced(m.cpu.pc, 2) == m.cpu.pc + 2,
{
    let called = executed(m, Opcode::CALL(address), keys, random)->Ok_0;
    assert(called.cpu.stack.drop_last() =~= m.cpu.stack);
}

/// A block store of `V0..=Vx` followed by a block load of `V0..=Vx` from the
/// same address brings back the stored values, whatever the registers held
/// in between. The store succeeds exactly when its target lies in writable
/// memory, and then the load succeeds too.
pub proof fn lemma_store_load(
    m: Machine,
    other: RegisterFile,
    x: Register,
    keys: Set<Key>,
    random: u8,
)
    requires
        m.wf(),
        other.wf(),
        other.i == m.i(),
        x.wf(),
    ensures
        executed(m, Opcode::LDIM(x), keys, random) is Ok <==> PROGRAM_OFFSET <= m.i() && m.i()
            + x.id < MEMORY_LENGTH,
        executed(m, Opcode::LDIM(x), keys, random) matches Ok(stored) ==> executed(
            stored.with_registers(other),
            Opcode::LDMI(x),
            keys,
            random,
        ) matches Ok(reloaded) && {
            &&& forall|k: int| 0 <= k <= x.id ==> reloaded.cpu.registers.v[k] == m.cpu.registers.v[k]
            &&& forall|k: int| x.id < k < 16 ==> reloaded.cpu.registers.v[k] == other.v[k]
            &&& reloaded.memory == stored.memory
        },
{
}

/// The three digits that the decimal store writes are the hundreds, tens and
/// units of the value: each is below ten and together they make the value.
pub proof fn lemma_decimal_digits(value: u8)
    ensures
        decimal_digits(value).len() == 3,
        forall|k: int| 0 <= k < 3 ==> decimal_digits(value)[k] < 10,
        decimal_digits(value)[0] * 100 + decimal_digits(value)[1] * 10 + decimal_digits(value)[2]
            == value,
{
}

/// Clearing the display turns every cell off.
pub proof fn lemma_clear(m: Machine, keys: Set<Key>, random: u8)
    requires
        m.wf(),
    ensures
        executed(m, Opcode::CLS, keys, random) matches Ok(after) && {
            &&& after.frame == blank_frame()
            &&& after.cpu == m.next().cpu
            &&& after.memory == m.memory
        },
{
    let after = executed(m, Opcode::CLS, keys, random)->Ok_0;
    assert(after.frame =~= blank_frame());
}

/// Each successful step counts each timer down exactly once, whatever the
/// instruction was: a timer ends one below the value it had, or the value the
/// instruction gave it, and stays at zero once there.
pub proof fn lemma_step_timers(m: Machine, keys: Set<Key>, random: u8)
    requires
        stepped(m, keys, random) is Ok,
    ensures
        ({
            let after = stepped(m, keys, random)->Ok_0;
            let opcode = decoded(fetched(m.memory, m.cpu.pc)->Some_0)->Some_0;
            &&& after.cpu.registers.dt == ticked(
                match opcode {
                    Opcode::LDDTV(x) => m.v(x),
                    _ => m.cpu.registers.dt,
                },
            )
            &&& after.cpu.registers.st == ticked(
                match opcode {
                    Opcode::LDST(x) => m.v(x),
                    _ => m.cpu.registers.st,
                },
            )
        }),
{
}

/// Only the random-number operation looks at the random byte: a step on any
/// other instruction is the same for every byte.
pub proof fn lemma_random_only(m: Machine, keys: Set<Key>, first: u8, second: u8)
    requires
        !draws_random(m),
    ensures
        stepped(m, keys, first) == stepped(m, keys, second),
{
}

/// A step faults exactly in these cases, and then changes nothing: the
/// instruction does not lie in memory; its word matches no operation; it is a
/// return on an empty call stack; it reads a sprite, or loads registers, from
/// past the end of memory; it stores below writable memory or past the end of
/// memory.
pub proof fn lemma_step_faults(m: Machine, keys: Set<Key>, random: u8)
    ensures
        match stepped(m, keys, random) {
            Ok(_) => true,
            Err(Fault::MalformedInstruction(word)) => fetched(m.memory, m.cpu.pc) == Some(word)
                && decoded(word) is None,
            Err(Fault::StackUnderflow) => fetched(m.memory, m.cpu.pc) matches Some(word)
                && decoded(word) == Some(Opcode::RET) && m.cpu.stack.len() == 0,
            Err(Fault::ProtectedWrite(address)) => fetched(m.memory, m.cpu.pc) matches Some(word)
                && (decoded(word) matches Some(Opcode::LDB(_)) || decoded(word) matches Some(
                Opcode::LDIM(_),
            )) && address == m.i() && address < PROGRAM_OFFSET,
            Err(Fault::OutOfBounds) => fetched(m.memory, m.cpu.pc) matches Some(word) ==> (
            match decoded(word) {
                Some(Opcode::DRW(_, _, n)) => n > 0 && m.i() + n > MEMORY_LENGTH,
                Some(Opcode::LDB(_)) => PROGRAM_OFFSET <= m.i() && m.i() + 3 > MEMORY_LENGTH,
                Some(Opcode::LDIM(x)) => PROGRAM_OFFSET <= m.i() && m.i() + x.id + 1
                    > MEMORY_LENGTH,
                Some(Opcode::LDMI(x)) => m.i() + x.id + 1 > MEMORY_LENGTH,
                _ => false,
            }),
        },
{
}

} // verus!
