//! The sixteen keys of the keypad.

use vstd::prelude::*;

verus! {

/// The number of keys on the keypad.
pub const KEY_COUNT: u8 = 16;

/// One key of the keypad, named by its hexadecimal digit.
#[derive(Debug, Copy, Clone, Eq, PartialEq, Hash, Structural)]
pub enum Key {
    Key0,
    Key1,
    Key2,
    Key3,
    Key4,
    Key5,
    Key6,
    Key7,
    Key8,
    Key9,
    KeyA,
    KeyB,
    KeyC,
    KeyD,
    KeyE,
    KeyF,
}

/// The key with the given identifier, for identifiers below sixteen.
pub open spec fn key_of(code: u8) -> Option<Key> {
    if code == 0x0 {
        Some(Key::Key0)
    } else if code == 0x1 {
        Some(Key::Key1)
    } else if code == 0x2 {
        Some(Key::Key2)
    } else if code == 0x3 {
        Some(Key::Key3)
    } else if code == 0x4 {
        Some(Key::Key4)
    } else if code == 0x5 {
        Some(Key::Key5)
    } else if code == 0x6 {
        Some(Key::Key6)
    } else if code == 0x7 {
        Some(Key::Key7)
    } else if code == 0x8 {
        Some(Key::Key8)
    } else if code == 0x9 {
        Some(Key::Key9)
    } else if code == 0xa {
        Some(Key::KeyA)
    } else if code == 0xb {
        Some(Key::KeyB)
    } else if code == 0xc {
        Some(Key::KeyC)
    } else if code == 0xd {
        Some(Key::KeyD)
    } else if code == 0xe {
        Some(Key::KeyE)
    } else if code == 0xf {
        Some(Key::KeyF)
    } else {
        None
    }
}

impl Key {
    /// The identifier of the key: the value of its hexadecimal digit.
    pub open spec fn spec_code(self) -> u8 {
        match self {
            Key::Key0 => 0x0,
            Key::Key1 => 0x1,
            Key::Key2 => 0x2,
            Key::Key3 => 0x3,
            Key::Key4 => 0x4,
            Key::Key5 => 0x5,
            Key::Key6 => 0x6,
            Key::Key7 => 0x7,
            Key::Key8 => 0x8,
            Key::Key9 => 0x9,
            Key::KeyA => 0xa,
            Key::KeyB => 0xb,
            Key::KeyC => 0xc,
            Key::KeyD => 0xd,
            Key::KeyE => 0xe,
            Key::KeyF => 0xf,
        }
    }

    /// The identifier of the key, between 0 and 15.
    #[verifier::when_used_as_spec(spec_code)]
    pub fn code(self) -> (code: u8)
        ensures
            code == self.spec_code(),
            code < KEY_COUNT,
    {
        match self {
            Key::Key0 => 0x0,
            Key::Key1 => 0x1,
            Key::Key2 => 0x2,
            Key::Key3 => 0x3,
            Key::Key4 => 0x4,
            Key::Key5 => 0x5,
            Key::Key6 => 0x6,
            Key::Key7 => 0x7,
            Key::Key8 => 0x8,
            Key::Key9 => 0x9,
            Key::KeyA => 0xa,
            Key::KeyB => 0xb,
            Key::KeyC => 0xc,
            Key::KeyD => 0xd,
            Key::KeyE => 0xe,
            Key::KeyF => 0xf,
        }
    }

    /// The key with the given identifier; `None` for identifiers of 16 and above.
    pub fn from_code(code: u8) -> (key: Option<Key>)
        ensures
            key == key_of(code),
            key is Some <==> code < KEY_COUNT,
    {
        match code {
            0x0 => Some(Key::Key0),
            0x1 => Some(Key::Key1),
            0x2 => Some(Key::Key2),
            0x3 => Some(Key::Key3),
            0x4 => Some(Key::Key4),
            0x5 => Some(Key::Key5),
            0x6 => Some(Key::Key6),
            0x7 => Some(Key::Key7),
            0x8 => Some(Key::Key8),
            0x9 => Some(Key::Key9),
            0xa => Some(Key::KeyA),
            0xb => Some(Key::KeyB),
            0xc => Some(Key::KeyC),
            0xd => Some(Key::KeyD),
            0xe => Some(Key::KeyE),
            0xf => Some(Key::KeyF),
            _ => None,
        }
    }
}

/// Keys and the identifiers below sixteen correspond one to one.
pub proof fn lemma_key_codes(key: Key, code: u8)
    ensures
        key.code() < KEY_COUNT,
        key_of(key.code()) == Some(key),
        key_of(code) is Some <==> code < KEY_COUNT,
        key_of(code) == Some(key) <==> key.code() == code,
{
}

/// Whether the key with the given identifier is among the held `keys`.
pub open spec fn held(keys: Set<Key>, code: u8) -> bool {
    key_of(code) matches Some(key) && keys.contains(key)
}

/// The lowest identifier at or above `from` of a key among the held `keys`.
pub open spec fn lowest_held_from(keys: Set<Key>, from: u8) -> Option<u8>
    decreases KEY_COUNT - from,
{
    if from >= KEY_COUNT {
        None
    } else if held(keys, from) {
        Some(from)
    } else {
        lowest_held_from(keys, (from + 1) as u8)
    }
}

/// The lowest identifier of a key among the held `keys`; `None` when no key
/// is held.
pub open spec fn lowest_held(keys: Set<Key>) -> Option<u8> {
    lowest_held_from(keys, 0)
}

/// Where `code` is held and no identifier from `from` up to it is, the search
/// from `from` finds `code`.
proof fn lemma_lowest_found(keys: Set<Key>, from: u8, code: u8)
    requires
        from <= code < KEY_COUNT,
        held(keys, code),
        forall|c: u8| from <= c < code ==> !held(keys, c),
    ensures
        lowest_held_from(keys, from) == Some(code),
    decreases code - from,
{
    if from < code {
        lemma_lowest_found(keys, (from + 1) as u8, code);
    }
}

/// What the search from `from` finds is held, at or above `from`, and below
/// every other held identifier at or above `from`; it finds nothing only
/// where nothing is held from there on.
proof fn lemma_lowest_from(keys: Set<Key>, from: u8)
    ensures
        match lowest_held_from(keys, from) {
            Some(code) => {
                &&& from <= code < KEY_COUNT
                &&& held(keys, code)
                &&& forall|c: u8| from <= c < code ==> !held(keys, c)
            },
            None => forall|c: u8| from <= c ==> !held(keys, c),
        },
    decreases KEY_COUNT - from,
{
    if from < KEY_COUNT && !held(keys, from) {
        lemma_lowest_from(keys, (from + 1) as u8);
    }
}

/// `lowest_held` is `None` exactly when no key is held. Otherwise it is the
/// identifier of a held key, and no held key has a lower one.
pub proof fn lemma_lowest_held(keys: Set<Key>)
    ensures
        lowest_held(keys) is None <==> keys =~= Set::<Key>::empty(),
        lowest_held(keys) matches Some(code) ==> {
            &&& key_of(code) matches Some(key)
            &&& keys.contains(key)
            &&& forall|other: Key| keys.contains(other) ==> code <= other.code()
        },
{
    lemma_lowest_from(keys, 0);
    assert forall|other: Key| keys.contains(other) implies held(keys, other.code()) by {
        lemma_key_codes(other, 0);
    }
}

/// Whether the key with the given identifier is among `keys`.
pub fn is_held(keys: &[Key], code: u8) -> (found: bool)
    ensures
        found == held(keys@.to_set(), code),
{
    let mut k: usize = 0;
    while k < keys.len()
        invariant
            k <= keys@.len(),
            forall|j: int| 0 <= j < k ==> #[trigger] keys@[j].code() != code,
        decreases keys@.len() - k,
    {
        if keys[k].code() == code {
            proof {
                lemma_key_codes(keys@[k as int], code);
                assert(keys@.contains(keys@[k as int]));
            }
            return true;
        }
        k += 1;
    }
    proof {
        if held(keys@.to_set(), code) {
            let key = key_of(code)->Some_0;
            let j = choose|j: int| 0 <= j < keys@.len() && keys@[j] == key;
            lemma_key_codes(keys@[j], code);
        }
    }
    false
}

/// The lowest identifier of a key among `keys`, if there is any key.
pub fn lowest(keys: &[Key]) -> (found: Option<u8>)
    ensures
        found == lowest_held(keys@.to_set()),
{
    if keys.len() == 0 {
        proof {
            lemma_lowest_from(keys@.to_set(), 0);
            if lowest_held(keys@.to_set()) is Some {
                let key = key_of(lowest_held(keys@.to_set())->Some_0)->Some_0;
                assert(keys@.contains(key));
            }
        }
        return None;
    }
    let mut least: u8 = keys[0].code();
    let mut k: usize = 1;
    while k < keys.len()
        invariant
            1 <= k <= keys@.len(),
            least < KEY_COUNT,
            exists|j: int| 0 <= j < k && #[trigger] keys@[j].code() == least,
            forall|j: int| 0 <= j < k ==> least <= #[trigger] keys@[j].code(),
        decreases keys@.len() - k,
    {
        let code: u8 = keys[k].code();
        if code < least {
            least = code;
        }
        k += 1;
    }
    proof {
        let held_keys = keys@.to_set();
        let j = choose|j: int| 0 <= j < keys@.len() && #[trigger] keys@[j].code() == least;
        lemma_key_codes(keys@[j], least);
        assert(keys@.contains(keys@[j]));
        assert forall|c: u8| c < least implies !held(held_keys, c) by {
            if held(held_keys, c) {
                let key = key_of(c)->Some_0;
                let i = choose|i: int| 0 <= i < keys@.len() && keys@[i] == key;
                lemma_key_codes(keys@[i], c);
            }
        }
        lemma_lowest_found(held_keys, 0, least);
    }
    Some(least)
}

} // verus!
