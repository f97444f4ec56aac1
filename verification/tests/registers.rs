use chip8::engine::register::{Register, Registers};

#[test]
fn a_register_keeps_its_index() {
    for id in 0u16..16 {
        assert_eq!(Register::new(id).id as u16, id);
    }
    assert_eq!(Register::vf().id, 15);
    assert_eq!(Register::vf(), Register::new(0xf));
}

#[test]
fn a_new_register_file_is_all_zero() {
    let registers = Registers::new();
    for id in 0u16..16 {
        assert_eq!(registers.read(&Register::new(id)), 0);
    }
    assert_eq!(registers.i, 0);
    assert_eq!(registers.dt, 0);
    assert_eq!(registers.st, 0);
}

#[test]
fn a_write_changes_one_register_only() {
    let mut registers = Registers::new();
    registers.write(&Register::new(3), 0xab);
    registers.write(&Register::vf(), 0x01);
    for id in 0u16..16 {
        let expected = match id {
            3 => 0xab,
            15 => 0x01,
            _ => 0,
        };
        assert_eq!(registers.read(&Register::new(id)), expected);
    }
    assert_eq!(registers.i, 0);
}

#[test]
fn timers_set_to_five_reach_zero_after_five_ticks_and_stay_there() {
    let mut registers = Registers::new();
    registers.dt = 5;
    registers.st = 5;
    for left in [4u8, 3, 2, 1, 0] {
        registers.tick();
        assert_eq!(registers.dt, left);
        assert_eq!(registers.st, left);
    }
    for _ in 0..10 {
        registers.tick();
        assert_eq!(registers.dt, 0);
        assert_eq!(registers.st, 0);
    }
}

#[test]
fn timers_count_down_independently() {
    let mut registers = Registers::new();
    registers.dt = 2;
    registers.st = 255;
    registers.i = 0x1234;
    registers.write(&Register::new(7), 9);
    registers.tick();
    assert_eq!((registers.dt, registers.st), (1, 254));
    registers.tick();
    assert_eq!((registers.dt, registers.st), (0, 253));
    registers.tick();
    assert_eq!((registers.dt, registers.st), (0, 252));
    assert_eq!(registers.i, 0x1234);
    assert_eq!(registers.read(&Register::new(7)), 9);
}
