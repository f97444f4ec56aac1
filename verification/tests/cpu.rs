use chip8::engine::cpu::CPU;
use chip8::engine::display::{blank, OFF, ON};
use chip8::engine::fault::Fault;
use chip8::engine::key::Key;
use chip8::engine::memory::Memory;
use chip8::engine::opcode::Opcode;
use chip8::engine::register::Register;

struct Rig {
    cpu: CPU,
    memory: Memory,
    frame: Vec<u32>,
}

impl Rig {
    fn new() -> Rig {
        Rig { cpu: CPU::new(), memory: Memory::new(), frame: blank() }
    }

    fn run(&mut self, opcode: Opcode) -> Result<(), Fault> {
        self.run_with(opcode, &[], 0)
    }

    fn run_with(&mut self, opcode: Opcode, keys: &[Key], random: u8) -> Result<(), Fault> {
        self.cpu.execute(opcode, &mut self.memory, &mut self.frame, keys, random)
    }

    fn set(&mut self, id: u16, value: u8) {
        self.run(Opcode::LDI(r(id), value)).unwrap();
    }

    fn v(&self, id: u16) -> u8 {
        self.cpu.registers().read(&r(id))
    }

    fn pc(&self) -> u16 {
        self.cpu.program_counter()
    }

    fn all_v(&self) -> Vec<u8> {
        (0u16..16).map(|id| self.v(id)).collect()
    }
}

fn r(id: u16) -> Register {
    Register::new(id)
}

#[test]
fn a_new_processor_starts_at_the_program_offset() {
    let cpu = CPU::new();
    assert_eq!(cpu.program_counter(), 0x200);
    assert_eq!(cpu.stack(), &[] as &[u16]);
    assert_eq!(cpu.registers().i, 0);
    assert_eq!(cpu.registers().dt, 0);
    assert_eq!(cpu.registers().st, 0);
    for id in 0u16..16 {
        assert_eq!(cpu.registers().read(&r(id)), 0);
    }
}

#[test]
fn fetch_reads_two_bytes_high_byte_first() {
    let mut memory = Memory::new();
    memory.load(&[0x12, 0x34], 0x200);
    assert_eq!(CPU::new().fetch(&memory), Ok(0x1234));
}

#[test]
fn fetch_past_the_end_of_memory_is_out_of_bounds() {
    let mut rig = Rig::new();
    rig.memory.load(&[0xab, 0xcd], 0xffd);
    rig.run(Opcode::JP(0xffd)).unwrap();
    assert_eq!(rig.cpu.fetch(&rig.memory), Ok(0xabcd));
    rig.run(Opcode::JP(0xffe)).unwrap();
    assert_eq!(rig.cpu.fetch(&rig.memory), Err(Fault::OutOfBounds));
    rig.run(Opcode::JP(0xffff)).unwrap();
    assert_eq!(rig.cpu.fetch(&rig.memory), Err(Fault::OutOfBounds));
}

#[test]
fn a_system_call_only_advances() {
    let mut rig = Rig::new();
    assert_eq!(rig.run(Opcode::SYS(0x123)), Ok(()));
    assert_eq!(rig.pc(), 0x202);
    assert_eq!(rig.all_v(), vec![0; 16]);
    assert_eq!(rig.frame, blank());
}

#[test]
fn clear_turns_the_display_off() {
    let mut rig = Rig::new();
    rig.frame[0] = ON;
    rig.frame[2047] = ON;
    assert_eq!(rig.run(Opcode::CLS), Ok(()));
    assert_eq!(rig.frame, vec![OFF; 2048]);
    assert_eq!(rig.pc(), 0x202);
}

#[test]
fn jump_sets_the_program_counter() {
    let mut rig = Rig::new();
    rig.run(Opcode::JP(0x345)).unwrap();
    assert_eq!(rig.pc(), 0x345);
}

#[test]
fn indexed_jump_adds_register_zero() {
    let mut rig = Rig::new();
    rig.set(0, 0xff);
    rig.run(Opcode::JPA(0xfff)).unwrap();
    assert_eq!(rig.pc(), 0x10fe);
}

#[test]
fn a_call_followed_by_a_return_resumes_after_the_call() {
    let mut rig = Rig::new();
    rig.run(Opcode::JP(0x300)).unwrap();
    rig.run(Opcode::CALL(0x400)).unwrap();
    assert_eq!(rig.pc(), 0x400);
    assert_eq!(rig.cpu.stack(), &[0x302]);
    rig.run(Opcode::RET).unwrap();
    assert_eq!(rig.pc(), 0x302);
    assert_eq!(rig.cpu.stack(), &[] as &[u16]);
}

#[test]
fn calls_nest_beyond_sixteen_levels() {
    let mut rig = Rig::new();
    for depth in 0u16..40 {
        rig.run(Opcode::CALL(0x200 + 2 * depth)).unwrap();
    }
    assert_eq!(rig.cpu.stack().len(), 40);
    for _ in 0..40 {
        rig.run(Opcode::RET).unwrap();
    }
    assert_eq!(rig.pc(), 0x202);
}

#[test]
fn a_return_on_an_empty_stack_is_a_stack_underflow() {
    let mut rig = Rig::new();
    assert_eq!(rig.run(Opcode::RET), Err(Fault::StackUnderflow));
    assert_eq!(rig.pc(), 0x200);
}

#[test]
fn skip_if_equal_advances_by_four_when_equal_and_by_two_when_not() {
    let mut rig = Rig::new();
    rig.set(1, 0x42);
    let start = rig.pc();
    rig.run(Opcode::SEI(r(1), 0x42)).unwrap();
    assert_eq!(rig.pc(), start + 4);
    rig.run(Opcode::SEI(r(1), 0x43)).unwrap();
    assert_eq!(rig.pc(), start + 6);
}

#[test]
fn the_other_skips_follow_their_conditions() {
    let mut rig = Rig::new();
    rig.set(1, 7);
    rig.set(2, 7);
    rig.set(3, 8);
    let mut expected = rig.pc();
    for (opcode, skips) in [
        (Opcode::SNEI(r(1), 7), false),
        (Opcode::SNEI(r(1), 8), true),
        (Opcode::SE(r(1), r(2)), true),
        (Opcode::SE(r(1), r(3)), false),
        (Opcode::SNE(r(1), r(2)), false),
        (Opcode::SNE(r(1), r(3)), true),
    ] {
        rig.run(opcode).unwrap();
        expected += if skips { 4 } else { 2 };
        assert_eq!(rig.pc(), expected);
    }
}

#[test]
fn key_skips_look_at_the_held_keys() {
    let mut rig = Rig::new();
    rig.set(4, 0xb);
    let keys = [Key::Key1, Key::KeyB];
    let mut expected = rig.pc();
    for (opcode, held, skips) in [
        (Opcode::SKP(r(4)), &keys[..], true),
        (Opcode::SKP(r(4)), &keys[..1], false),
        (Opcode::SKP(r(4)), &[][..], false),
        (Opcode::SKNP(r(4)), &keys[..], false),
        (Opcode::SKNP(r(4)), &keys[..1], true),
        (Opcode::SKNP(r(4)), &[][..], true),
    ] {
        rig.run_with(opcode, held, 0).unwrap();
        expected += if skips { 4 } else { 2 };
        assert_eq!(rig.pc(), expected);
    }
}

#[test]
fn a_key_skip_on_a_value_that_names_no_key_sees_it_as_not_held() {
    let mut rig = Rig::new();
    rig.set(4, 0x1b);
    rig.run_with(Opcode::SKP(r(4)), &[Key::KeyB], 0).unwrap();
    assert_eq!(rig.pc(), 0x204);
    rig.run_with(Opcode::SKNP(r(4)), &[Key::KeyB], 0).unwrap();
    assert_eq!(rig.pc(), 0x208);
}

#[test]
fn load_and_add_immediate_leave_the_flag_alone() {
    let mut rig = Rig::new();
    rig.set(0xf, 9);
    rig.set(2, 0xf0);
    rig.run(Opcode::ADDI(r(2), 0x20)).unwrap();
    assert_eq!(rig.v(2), 0x10);
    assert_eq!(rig.v(0xf), 9);
    rig.run(Opcode::LD(r(3), r(2))).unwrap();
    assert_eq!(rig.v(3), 0x10);
    assert_eq!(rig.pc(), 0x200 + 2 * 4);
}

#[test]
fn bitwise_operations_combine_the_two_registers() {
    let mut rig = Rig::new();
    for (opcode, expected) in [
        (Opcode::OR(r(1), r(2)), 0b1110u8),
        (Opcode::AND(r(1), r(2)), 0b1000),
        (Opcode::XOR(r(1), r(2)), 0b0110),
    ] {
        rig.set(1, 0b1100);
        rig.set(2, 0b1010);
        rig.run(opcode).unwrap();
        assert_eq!(rig.v(1), expected);
        assert_eq!(rig.v(2), 0b1010);
        assert_eq!(rig.v(0xf), 0);
    }
}

#[test]
fn add_sets_the_flag_to_the_carry() {
    let mut rig = Rig::new();
    for (a, b, sum, carry) in
        [(1u8, 2u8, 3u8, 0u8), (255, 1, 0, 1), (200, 100, 44, 1), (255, 255, 254, 1), (128, 127, 255, 0)]
    {
        rig.set(1, a);
        rig.set(2, b);
        rig.run(Opcode::ADD(r(1), r(2))).unwrap();
        assert_eq!((rig.v(1), rig.v(0xf)), (sum, carry));
        assert_eq!(rig.v(2), b);
    }
}

#[test]
fn subtract_sets_the_flag_when_there_is_no_borrow() {
    let mut rig = Rig::new();
    for (a, b, difference, flag) in
        [(5u8, 3u8, 2u8, 1u8), (3, 5, 254, 0), (7, 7, 0, 1), (0, 255, 1, 0), (255, 0, 255, 1)]
    {
        rig.set(1, a);
        rig.set(2, b);
        rig.run(Opcode::SUBR(r(1), r(2))).unwrap();
        assert_eq!((rig.v(1), rig.v(0xf)), (difference, flag));
        assert_eq!(rig.v(2), b);
    }
}

#[test]
fn reverse_subtract_swaps_the_operands() {
    let mut rig = Rig::new();
    for (a, b, difference, flag) in
        [(3u8, 5u8, 2u8, 1u8), (5, 3, 254, 0), (7, 7, 0, 1), (255, 0, 1, 0)]
    {
        rig.set(1, a);
        rig.set(2, b);
        rig.run(Opcode::SUBN(r(1), r(2))).unwrap();
        assert_eq!((rig.v(1), rig.v(0xf)), (difference, flag));
        assert_eq!(rig.v(2), b);
    }
}

#[test]
fn shift_right_puts_the_lowest_bit_in_the_flag() {
    let mut rig = Rig::new();
    for (value, shifted, out) in [(0b101u8, 0b10u8, 1u8), (0b100, 0b10, 0), (0xff, 0x7f, 1), (0, 0, 0)] {
        rig.set(1, value);
        rig.run(Opcode::SHR(r(1))).unwrap();
        assert_eq!((rig.v(1), rig.v(0xf)), (shifted, out));
    }
}

#[test]
fn shift_left_puts_the_highest_bit_in_the_flag() {
    let mut rig = Rig::new();
    for (value, shifted, out) in
        [(0x81u8, 0x02u8, 1u8), (0x41, 0x82, 0), (0xff, 0xfe, 1), (0x80, 0, 1), (0, 0, 0)]
    {
        rig.set(1, value);
        rig.run(Opcode::SHL(r(1))).unwrap();
        assert_eq!((rig.v(1), rig.v(0xf)), (shifted, out));
    }
}

#[test]
fn arithmetic_on_the_flag_register_itself() {
    let mut rig = Rig::new();
    rig.set(0xf, 200);
    rig.set(1, 100);
    rig.run(Opcode::ADD(r(0xf), r(1))).unwrap();
    assert_eq!(rig.v(0xf), 1);
    rig.set(0xf, 5);
    rig.set(1, 3);
    rig.run(Opcode::SUBR(r(0xf), r(1))).unwrap();
    assert_eq!(rig.v(0xf), 2);
    rig.set(0xf, 0x81);
    rig.run(Opcode::SHR(r(0xf))).unwrap();
    assert_eq!(rig.v(0xf), 0x40);
    rig.set(0xf, 0x81);
    rig.run(Opcode::SHL(r(0xf))).unwrap();
    assert_eq!(rig.v(0xf), 0x02);
}

#[test]
fn random_is_masked_by_the_immediate() {
    let mut rig = Rig::new();
    rig.run_with(Opcode::RND(r(5), 0x0f), &[], 0xa7).unwrap();
    assert_eq!(rig.v(5), 0x07);
    rig.run_with(Opcode::RND(r(5), 0xff), &[], 0xa7).unwrap();
    assert_eq!(rig.v(5), 0xa7);
    rig.run_with(Opcode::RND(r(5), 0x00), &[], 0xa7).unwrap();
    assert_eq!(rig.v(5), 0x00);
    assert_eq!(rig.pc(), 0x206);
}

#[test]
fn address_register_operations() {
    let mut rig = Rig::new();
    rig.run(Opcode::LDII(0xffe)).unwrap();
    assert_eq!(rig.cpu.registers().i, 0xffe);
    rig.set(1, 0xff);
    rig.run(Opcode::ADDRI(r(1))).unwrap();
    assert_eq!(rig.cpu.registers().i, 0x10fd);
    rig.set(2, 0xa);
    rig.run(Opcode::LDF(r(2))).unwrap();
    assert_eq!(rig.cpu.registers().i, 50);
    rig.set(2, 52);
    rig.run(Opcode::LDF(r(2))).unwrap();
    assert_eq!(rig.cpu.registers().i, 4);
}

#[test]
fn the_address_register_wraps_at_sixteen_bits() {
    let mut rig = Rig::new();
    rig.run(Opcode::LDII(0xfff)).unwrap();
    rig.set(1, 0xff);
    for _ in 0..240 {
        rig.run(Opcode::ADDRI(r(1))).unwrap();
    }
    assert_eq!(rig.cpu.registers().i, 0xff0f);
    rig.set(1, 0xf1);
    rig.run(Opcode::ADDRI(r(1))).unwrap();
    assert_eq!(rig.cpu.registers().i, 0);
    rig.run(Opcode::LDII(0xfff)).unwrap();
    rig.set(1, 0xff);
    for _ in 0..241 {
        rig.run(Opcode::ADDRI(r(1))).unwrap();
    }
    assert_eq!(rig.cpu.registers().i, 0x000e);
}

#[test]
fn timer_operations_move_values_between_registers_and_timers() {
    let mut rig = Rig::new();
    rig.set(1, 30);
    rig.run(Opcode::LDDTV(r(1))).unwrap();
    rig.set(2, 40);
    rig.run(Opcode::LDST(r(2))).unwrap();
    assert_eq!(rig.cpu.registers().dt, 30);
    assert_eq!(rig.cpu.registers().st, 40);
    rig.run(Opcode::LDVDT(r(3))).unwrap();
    assert_eq!(rig.v(3), 30);
}

#[test]
fn wait_for_key_stores_the_lowest_held_key() {
    let mut rig = Rig::new();
    rig.run_with(Opcode::LDK(r(6)), &[Key::KeyC, Key::Key3, Key::Key9], 0).unwrap();
    assert_eq!(rig.v(6), 3);
    assert_eq!(rig.pc(), 0x202);
}

#[test]
fn wait_for_key_without_a_key_goes_on_and_leaves_the_register() {
    let mut rig = Rig::new();
    rig.set(6, 0x77);
    let before = rig.pc();
    rig.run_with(Opcode::LDK(r(6)), &[], 0).unwrap();
    assert_eq!(rig.v(6), 0x77);
    assert_eq!(rig.pc(), before + 2);
}

#[test]
fn decimal_store_writes_hundreds_tens_and_units() {
    let mut rig = Rig::new();
    for (value, digits) in [(234u8, [2u8, 3, 4]), (7, [0, 0, 7]), (255, [2, 5, 5]), (0, [0, 0, 0]), (100, [1, 0, 0])] {
        rig.set(1, value);
        rig.run(Opcode::LDII(0x300)).unwrap();
        rig.run(Opcode::LDB(r(1))).unwrap();
        assert_eq!(rig.memory.span(0x300, 3), &digits);
        assert_eq!(rig.memory.read(0x303), 0);
        assert_eq!(rig.memory.read(0x2ff), 0);
    }
}

#[test]
fn decimal_store_below_writable_memory_is_a_protected_write() {
    let mut rig = Rig::new();
    rig.set(1, 234);
    rig.run(Opcode::LDII(0x1ff)).unwrap();
    let pc = rig.pc();
    assert_eq!(rig.run(Opcode::LDB(r(1))), Err(Fault::ProtectedWrite(0x1ff)));
    assert_eq!(rig.pc(), pc);
    assert_eq!(rig.memory.span(0x1ff, 3), &[0, 0, 0]);
}

#[test]
fn decimal_store_past_the_end_of_memory_is_out_of_bounds() {
    let mut rig = Rig::new();
    rig.set(1, 234);
    rig.run(Opcode::LDII(0xffc)).unwrap();
    assert_eq!(rig.run(Opcode::LDB(r(1))), Ok(()));
    assert_eq!(rig.memory.span(0xffc, 3), &[2, 3, 4]);
    rig.run(Opcode::LDII(0xffd)).unwrap();
    rig.set(1, 111);
    assert_eq!(rig.run(Opcode::LDB(r(1))), Err(Fault::OutOfBounds));
    assert_eq!(rig.memory.span(0xffc, 3), &[2, 3, 4]);
}

#[test]
fn block_store_then_block_load_brings_the_registers_back() {
    for x in 0u16..16 {
        let mut rig = Rig::new();
        for id in 0u16..16 {
            rig.set(id, 0x10 + id as u8);
        }
        rig.run(Opcode::LDII(0x400)).unwrap();
        rig.run(Opcode::LDIM(r(x))).unwrap();
        for id in 0u16..16 {
            let expected = if id <= x { 0x10 + id as u8 } else { 0 };
            assert_eq!(rig.memory.read(0x400 + id), expected);
        }
        assert_eq!(rig.cpu.registers().i, 0x400);
        for id in 0u16..16 {
            rig.set(id, 0xee);
        }
        rig.run(Opcode::LDMI(r(x))).unwrap();
        for id in 0u16..16 {
            let expected = if id <= x { 0x10 + id as u8 } else { 0xee };
            assert_eq!(rig.v(id), expected);
        }
    }
}

#[test]
fn block_store_faults_leave_memory_untouched() {
    let mut rig = Rig::new();
    for id in 0u16..16 {
        rig.set(id, 0xaa);
    }
    rig.run(Opcode::LDII(0x1f8)).unwrap();
    assert_eq!(rig.run(Opcode::LDIM(r(0xf))), Err(Fault::ProtectedWrite(0x1f8)));
    rig.run(Opcode::LDII(0xff8)).unwrap();
    assert_eq!(rig.run(Opcode::LDIM(r(7))), Err(Fault::OutOfBounds));
    for address in 0u16..0xfff {
        assert_eq!(rig.memory.read(address), 0);
    }
    assert_eq!(rig.run(Opcode::LDIM(r(6))), Ok(()));
    assert_eq!(rig.memory.span(0xff8, 7), &[0xaa; 7]);
}

#[test]
fn block_load_past_the_end_of_memory_is_out_of_bounds() {
    let mut rig = Rig::new();
    rig.memory.load(&[1, 2, 3], 0xffc);
    rig.run(Opcode::LDII(0xffc)).unwrap();
    assert_eq!(rig.run(Opcode::LDMI(r(3))), Err(Fault::OutOfBounds));
    assert_eq!(rig.all_v(), vec![0; 16]);
    assert_eq!(rig.run(Opcode::LDMI(r(2))), Ok(()));
    assert_eq!(&rig.all_v()[..4], &[1, 2, 3, 0]);
}

#[test]
fn block_load_may_read_the_protected_region() {
    let mut rig = Rig::new();
    rig.memory.load(&[0xf0, 0x90], 0);
    rig.run(Opcode::LDMI(r(1))).unwrap();
    assert_eq!(&rig.all_v()[..3], &[0xf0, 0x90, 0]);
}

#[test]
fn draw_reads_the_sprite_at_the_address_register() {
    let mut rig = Rig::new();
    rig.memory.load(&[0xff, 0x81], 0x300);
    rig.run(Opcode::LDII(0x300)).unwrap();
    rig.set(1, 60);
    rig.set(2, 31);
    rig.set(0xf, 9);
    rig.run(Opcode::DRW(r(1), r(2), 2)).unwrap();
    assert_eq!(rig.v(0xf), 0);
    let lit: Vec<usize> = (0..2048).filter(|p| rig.frame[*p] == ON).collect();
    assert_eq!(lit, vec![3, 60, 31 * 64, 31 * 64 + 1, 31 * 64 + 2, 31 * 64 + 3, 31 * 64 + 60, 31 * 64 + 61, 31 * 64 + 62, 31 * 64 + 63]);
    rig.run(Opcode::DRW(r(1), r(2), 2)).unwrap();
    assert_eq!(rig.v(0xf), 1);
    assert_eq!(rig.frame, blank());
    assert_eq!(rig.pc(), 0x200 + 2 * 6);
}

#[test]
fn draw_of_no_rows_clears_the_flag_and_reads_nothing() {
    let mut rig = Rig::new();
    rig.set(0xf, 1);
    rig.run(Opcode::LDII(0xfff)).unwrap();
    assert_eq!(rig.run(Opcode::DRW(r(0), r(0), 0)), Ok(()));
    assert_eq!(rig.v(0xf), 0);
    assert_eq!(rig.frame, blank());
}

#[test]
fn draw_past_the_end_of_memory_is_out_of_bounds() {
    let mut rig = Rig::new();
    rig.memory.load(&[0x80, 0x80], 0xffd);
    rig.run(Opcode::LDII(0xffd)).unwrap();
    assert_eq!(rig.run(Opcode::DRW(r(0), r(0), 3)), Err(Fault::OutOfBounds));
    assert_eq!(rig.frame, blank());
    assert_eq!(rig.run(Opcode::DRW(r(0), r(0), 2)), Ok(()));
    assert_eq!(rig.frame[0], ON);
    assert_eq!(rig.frame[64], ON);
}

#[test]
fn a_tick_fetches_decodes_executes_and_counts_the_timers_down() {
    let mut rig = Rig::new();
    rig.memory.load(&[0x61, 0x05, 0xf1, 0x15, 0xf1, 0x18, 0x00, 0x00, 0x12, 0x06], 0x200);
    assert_eq!(rig.cpu.tick(&mut rig.memory, &mut rig.frame, &[]), Ok(()));
    assert_eq!(rig.v(1), 5);
    assert_eq!(rig.pc(), 0x202);
    rig.cpu.tick(&mut rig.memory, &mut rig.frame, &[]).unwrap();
    assert_eq!((rig.cpu.registers().dt, rig.cpu.registers().st), (4, 0));
    rig.cpu.tick(&mut rig.memory, &mut rig.frame, &[]).unwrap();
    assert_eq!((rig.cpu.registers().dt, rig.cpu.registers().st), (3, 4));
    for _ in 0..4 {
        rig.cpu.tick(&mut rig.memory, &mut rig.frame, &[]).unwrap();
    }
    assert_eq!((rig.cpu.registers().dt, rig.cpu.registers().st), (0, 0));
    rig.cpu.tick(&mut rig.memory, &mut rig.frame, &[]).unwrap();
    assert_eq!((rig.cpu.registers().dt, rig.cpu.registers().st), (0, 0));
}

#[test]
fn a_tick_on_a_malformed_word_faults_and_changes_nothing() {
    let mut rig = Rig::new();
    rig.memory.load(&[0x6a, 0x09, 0xfa, 0x15, 0x81, 0x28], 0x200);
    rig.cpu.tick(&mut rig.memory, &mut rig.frame, &[]).unwrap();
    rig.cpu.tick(&mut rig.memory, &mut rig.frame, &[]).unwrap();
    assert_eq!(rig.cpu.registers().dt, 8);
    for _ in 0..3 {
        assert_eq!(
            rig.cpu.tick(&mut rig.memory, &mut rig.frame, &[]),
            Err(Fault::MalformedInstruction(0x8128))
        );
        assert_eq!(rig.pc(), 0x204);
        assert_eq!(rig.cpu.registers().dt, 8);
    }
}

#[test]
fn a_tick_on_a_random_instruction_stores_a_masked_byte() {
    let mut rig = Rig::new();
    rig.memory.load(&[0xc1, 0x0f, 0xc2, 0x00, 0xc3, 0xf0], 0x200);
    for _ in 0..3 {
        rig.cpu.tick(&mut rig.memory, &mut rig.frame, &[]).unwrap();
    }
    assert_eq!(rig.v(1) & 0xf0, 0);
    assert_eq!(rig.v(2), 0);
    assert_eq!(rig.v(3) & 0x0f, 0);
    assert_eq!(rig.pc(), 0x206);
}

#[test]
fn draw_of_a_sprite_taller_than_the_display_wraps_onto_itself() {
    let mut rig = Rig::new();
    let mut sprite = [0u8; 40];
    sprite[3] = 0xc0;
    sprite[35] = 0x80;
    rig.memory.load(&sprite, 0x300);
    rig.run(Opcode::LDII(0x300)).unwrap();
    assert_eq!(rig.run(Opcode::DRW(r(0), r(0), 40)), Ok(()));
    assert_eq!(rig.v(0xf), 1);
    let lit: Vec<usize> = (0..2048).filter(|p| rig.frame[*p] == ON).collect();
    assert_eq!(lit, vec![3 * 64 + 1]);
}
