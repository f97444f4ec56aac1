use chip8::engine::key::{is_held, lowest, Key};
use chip8::engine::keypad::HeldKeys;

const ALL: [Key; 16] = [
    Key::Key0,
    Key::Key1,
    Key::Key2,
    Key::Key3,
    Key::Key4,
    Key::Key5,
    Key::Key6,
    Key::Key7,
    Key::Key8,
    Key::Key9,
    Key::KeyA,
    Key::KeyB,
    Key::KeyC,
    Key::KeyD,
    Key::KeyE,
    Key::KeyF,
];

#[test]
fn each_key_has_the_value_of_its_digit() {
    for (value, key) in ALL.iter().enumerate() {
        assert_eq!(key.code() as usize, value);
        assert_eq!(Key::from_code(value as u8), Some(*key));
    }
}

#[test]
fn identifiers_of_sixteen_and_above_name_no_key() {
    for code in 16u8..=255 {
        assert_eq!(Key::from_code(code), None);
    }
}

#[test]
fn is_held_looks_for_the_identifier_among_the_keys() {
    let keys = [Key::Key3, Key::KeyA, Key::Key3];
    assert!(is_held(&keys, 3));
    assert!(is_held(&keys, 0xa));
    assert!(!is_held(&keys, 0));
    assert!(!is_held(&keys, 0x13));
    assert!(!is_held(&[], 3));
}

#[test]
fn lowest_is_the_smallest_identifier_whatever_the_order() {
    assert_eq!(lowest(&[]), None);
    assert_eq!(lowest(&[Key::KeyF]), Some(0xf));
    assert_eq!(lowest(&[Key::Key7, Key::Key2, Key::KeyC]), Some(2));
    assert_eq!(lowest(&[Key::KeyC, Key::Key7, Key::Key0, Key::Key7]), Some(0));
}

#[test]
fn no_key_is_held_at_first() {
    let keys = HeldKeys::new();
    for key in ALL {
        assert!(!keys.is_held(key));
    }
    assert_eq!(keys.snapshot(), vec![]);
}

#[test]
fn a_pressed_key_stays_held_until_it_is_released() {
    let mut keys = HeldKeys::new();
    keys.update(&[Key::Key5], &[]);
    for _ in 0..100 {
        keys.update(&[], &[]);
        assert!(keys.is_held(Key::Key5));
        assert_eq!(keys.snapshot(), vec![Key::Key5]);
    }
    keys.update(&[], &[Key::Key5]);
    for _ in 0..100 {
        assert!(!keys.is_held(Key::Key5));
        assert_eq!(keys.snapshot(), vec![]);
        keys.update(&[], &[]);
    }
}

#[test]
fn a_key_pressed_and_released_in_one_batch_is_not_held() {
    let mut keys = HeldKeys::new();
    keys.update(&[Key::Key1, Key::Key2], &[Key::Key1]);
    assert!(!keys.is_held(Key::Key1));
    assert!(keys.is_held(Key::Key2));
}

#[test]
fn releasing_a_key_that_is_not_held_changes_nothing() {
    let mut keys = HeldKeys::new();
    keys.press(Key::Key9);
    keys.release(Key::Key8);
    keys.update(&[], &[Key::KeyA, Key::KeyA]);
    assert_eq!(keys.snapshot(), vec![Key::Key9]);
}

#[test]
fn the_snapshot_lists_each_held_key_once_in_ascending_order() {
    let mut keys = HeldKeys::new();
    keys.update(&[Key::KeyF, Key::Key0, Key::Key7, Key::Key0, Key::KeyF], &[]);
    assert_eq!(keys.snapshot(), vec![Key::Key0, Key::Key7, Key::KeyF]);
    keys.update(&ALL, &[]);
    assert_eq!(keys.snapshot(), ALL.to_vec());
    keys.release(Key::Key0);
    assert_eq!(keys.snapshot(), ALL[1..].to_vec());
}
