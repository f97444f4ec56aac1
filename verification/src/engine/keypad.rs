//! The set of keys that are held down, kept up to date from press and
//! release events.

use vstd::prelude::*;
use super::key::{lemma_key_codes, Key, KEY_COUNT};

verus! {

/// The held keys after a batch of events: the keys held before and the keys
/// pressed, without the keys released. A key that is pressed and released in
/// one batch is not held after it.
pub open spec fn after_events(held: Set<Key>, pressed: Seq<Key>, released: Seq<Key>) -> Set<Key> {
    held.union(pressed.to_set()).difference(released.to_set())
}

/// The held keys after `n` batches without any event.
pub open spec fn after_idle(held: Set<Key>, n: nat) -> Set<Key>
    decreases n,
{
    if n == 0 {
        held
    } else {
        after_idle(after_events(held, Seq::empty(), Seq::empty()), (n - 1) as nat)
    }
}

/// The keys that are held down. Its view is the set of those keys.
pub struct HeldKeys {
    held: [bool; 16],
}

impl View for HeldKeys {
    type V = Set<Key>;

    closed spec fn view(&self) -> Set<Key> {
        Set::new(|key: Key| self.held@[key.code() as int])
    }
}

impl HeldKeys {
    /// No key is held.
    pub fn new() -> (keys: HeldKeys)
        ensures
            keys@ == Set::<Key>::empty(),
    {
        let keys = HeldKeys { held: [false; 16] };
        assert(keys@ =~= Set::<Key>::empty());
        keys
    }

    /// Whether `key` is held.
    pub fn is_held(&self, key: Key) -> (held: bool)
        ensures
            held == self@.contains(key),
    {
        self.held[key.code() as usize]
    }

    /// Records that `key` went down.
    pub fn press(&mut self, key: Key)
        ensures
            final(self)@ == old(self)@.insert(key),
    {
        self.held[key.code() as usize] = true;
        assert(self@ =~= old(self)@.insert(key));
    }

    /// Records that `key` came up.
    pub fn release(&mut self, key: Key)
        ensures
            final(self)@ == old(self)@.remove(key),
    {
        self.held[key.code() as usize] = false;
        assert(self@ =~= old(self)@.remove(key));
    }

    /// Takes in one batch of events: first every press, then every release.
    pub fn update(&mut self, pressed: &[Key], released: &[Key])
        ensures
            final(self)@ == after_events(old(self)@, pressed@, released@),
    {
        let mut k: usize = 0;
        while k < pressed.len()
            invariant
                k <= pressed@.len(),
                self@ == old(self)@.union(pressed@.take(k as int).to_set()),
            decreases pressed@.len() - k,
        {
            self.press(pressed[k]);
            k += 1;
            assert(self@ =~= old(self)@.union(pressed@.take(k as int).to_set())) by {
                lemma_take_to_set(pressed@, k as int);
            }
        }
        assert(pressed@.take(k as int) =~= pressed@);
        let ghost down = self@;
        let mut k: usize = 0;
        while k < released.len()
            invariant
                k <= released@.len(),
                self@ == down.difference(released@.take(k as int).to_set()),
            decreases released@.len() - k,
        {
            self.release(released[k]);
            k += 1;
            assert(self@ =~= down.difference(released@.take(k as int).to_set())) by {
                lemma_take_to_set(released@, k as int);
            }
        }
        assert(released@.take(k as int) =~= released@);
    }

    /// The held keys, each once, in ascending order of their identifiers.
    pub fn snapshot(&self) -> (keys: Vec<Key>)
        ensures
            keys@.to_set() == self@,
            forall|i: int, j: int|
                0 <= i < j < keys@.len() ==> keys@[i].code() < keys@[j].code(),
    {
        let mut keys: Vec<Key> = Vec::new();
        let mut code: u8 = 0;
        while code < KEY_COUNT
            invariant
                code <= KEY_COUNT,
                forall|i: int| 0 <= i < keys@.len() ==> #[trigger] keys@[i].code() < code,
                forall|i: int| 0 <= i < keys@.len() ==> self@.contains(#[trigger] keys@[i]),
                forall|key: Key|
                    self@.contains(key) && key.code() < code ==> #[trigger] keys@.contains(key),
                forall|i: int, j: int|
                    0 <= i < j < keys@.len() ==> keys@[i].code() < keys@[j].code(),
            decreases KEY_COUNT - code,
        {
            if self.held[code as usize] {
                match Key::from_code(code) {
                    Some(key) => {
                        proof {
                            lemma_key_codes(key, code);
                        }
                        let ghost before = keys@;
                        keys.push(key);
                        assert forall|other: Key|
                            self@.contains(other) && other.code() < code + 1 implies keys@.contains(
                            other,
                        ) by {
                            if other.code() < code {
                                assert(before.contains(other));
                                let i = choose|i: int| 0 <= i < before.len() && before[i] == other;
                                assert(keys@[i] == other);
                            } else {
                                lemma_key_codes(other, code);
                                assert(keys@[before.len() as int] == other);
                            }
                        }
                    },
                    None => {},
                }
            } else {
                assert forall|other: Key|
                    self@.contains(other) && other.code() < code + 1 implies keys@.contains(
                    other,
                ) by {
                    if other.code() == code {
                        lemma_key_codes(other, code);
                    }
                }
            }
            code += 1;
        }
        assert(keys@.to_set() =~= self@) by {
            assert forall|key: Key| self@.contains(key) implies keys@.contains(key) by {
                lemma_key_codes(key, 0);
            }
        }
        keys
    }
}

/// The set of the first `k` elements is the set of the first `k - 1` with the
/// `k`-th added.
proof fn lemma_take_to_set(keys: Seq<Key>, k: int)
    requires
        0 < k <= keys.len(),
    ensures
        keys.take(k).to_set() == keys.take(k - 1).to_set().insert(keys[k - 1]),
{
    let longer = keys.take(k);
    let shorter = keys.take(k - 1);
    assert forall|key: Key| longer.to_set().contains(key) <==> shorter.to_set().insert(
        keys[k - 1],
    ).contains(key) by {
        if longer.contains(key) {
            let i = choose|i: int| 0 <= i < longer.len() && longer[i] == key;
            if i < k - 1 {
                assert(shorter[i] == key);
            }
        }
        if shorter.contains(key) {
            let i = choose|i: int| 0 <= i < shorter.len() && shorter[i] == key;
            assert(longer[i] == key);
        }
        if key == keys[k - 1] {
            assert(longer[k - 1] == key);
        }
    }
    assert(longer.to_set() =~= shorter.to_set().insert(keys[k - 1]));
}

/// A batch without events leaves the held keys as they are.
pub proof fn lemma_idle(held: Set<Key>, n: nat)
    ensures
        after_events(held, Seq::empty(), Seq::empty()) == held,
        after_idle(held, n) == held,
    decreases n,
{
    assert(Seq::<Key>::empty().to_set() =~= Set::<Key>::empty());
    assert(after_events(held, Seq::empty(), Seq::empty()) =~= held);
    if n > 0 {
        lemma_idle(held, (n - 1) as nat);
    }
}

/// After a batch, a key is held exactly if it was not released in the batch
/// and was either pressed in it or held before.
pub proof fn lemma_after_events(held: Set<Key>, pressed: Seq<Key>, released: Seq<Key>, key: Key)
    ensures
        after_events(held, pressed, released).contains(key) <==> !released.contains(key) && (
        pressed.contains(key) || held.contains(key)),
{
}

/// A key that is pressed stays held over any number of batches without
/// events. Once it is released it is not held, and stays so over any number
/// of batches without events.
pub proof fn lemma_held_until_released(held: Set<Key>, key: Key, n: nat, m: nat)
    ensures
        after_idle(after_events(held, seq![key], Seq::empty()), n).contains(key),
        !after_idle(
            after_events(
                after_idle(after_events(held, seq![key], Seq::empty()), n),
                Seq::empty(),
                seq![key],
            ),
            m,
        ).contains(key),
{
    let pressed = after_events(held, seq![key], Seq::empty());
    assert(seq![key][0] == key);
    lemma_after_events(held, seq![key], Seq::empty(), key);
    lemma_idle(pressed, n);
    let released = after_events(after_idle(pressed, n), Seq::empty(), seq![key]);
    lemma_after_events(after_idle(pressed, n), Seq::empty(), seq![key], key);
    lemma_idle(released, m);
}

} // verus!
