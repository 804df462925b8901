use std::collections::HashMap;
use vstd::prelude::*;
use vstd::std_specs::iter::IteratorSpec;

verus! {

broadcast use vstd::std_specs::hash::group_hash_axioms;

/// Whether a key is down now and whether it was down at the last update.
#[derive(Clone, Copy, PartialEq, Eq, Structural, Debug)]
pub struct Keystate {
    pub is_down: bool,
    pub was_down: bool,
}

impl Keystate {
    pub fn new() -> (k: Self)
        ensures
            k == (Keystate { is_down: false, was_down: false }),
    {
        Self { is_down: false, was_down: false }
    }

    /// Remembers the current state as the previous one.
    pub fn update(&mut self)
        ensures
            *final(self) == (Keystate { is_down: old(self).is_down, was_down: old(self).is_down }),
    {
        self.was_down = self.is_down;
    }

    pub fn is_down(&self) -> (b: bool)
        ensures
            b == self.is_down,
    {
        self.is_down
    }
}

/// A keyboard event, the key named by its key code where the event has one.
#[derive(Clone, Copy, PartialEq, Eq, Structural, Debug)]
pub enum KeyboardEvent {
    KeyDown(Option<i32>),
    KeyUp(Option<i32>),
    Other,
}

/// The state after an update of a key in state `s`.
pub open spec fn updated(s: Keystate) -> Keystate {
    Keystate { is_down: s.is_down, was_down: s.is_down }
}

/// The state of every key seen so far, by key code.
pub struct Keyboard {
    keystates: HashMap<i32, Keystate>,
}

impl View for Keyboard {
    type V = Map<i32, Keystate>;

    closed spec fn view(&self) -> Map<i32, Keystate> {
        self.keystates@
    }
}

impl Keyboard {
    pub fn new() -> (k: Self)
        ensures
            k@ == Map::<i32, Keystate>::empty(),
    {
        Self { keystates: HashMap::new() }
    }

    /// The state of the key, first recording it as up where it was not seen.
    pub fn get_keystate(&mut self, keycode: i32) -> (s: &Keystate)
        ensures
            final(self)@ == (if old(self)@.contains_key(keycode) {
                old(self)@
            } else {
                old(self)@.insert(keycode, Keystate { is_down: false, was_down: false })
            }),
            *s == final(self)@[keycode],
    {
        if !self.keystates.contains_key(&keycode) {
            self.keystates.insert(keycode, Keystate::new());
        }
        self.keystates.get(&keycode).unwrap()
    }

    /// Sets whether the key is down, first recording it as up where it was
    /// not seen.
    fn set_key_down(&mut self, keycode: i32, is_down: bool)
        ensures
            final(self)@ == old(self)@.insert(
                keycode,
                Keystate {
                    is_down,
                    was_down: if old(self)@.contains_key(keycode) {
                        old(self)@[keycode].was_down
                    } else {
                        false
                    },
                },
            ),
    {
        let keystate = self.keystates.entry(keycode).or_insert(Keystate::new());
        keystate.is_down = is_down;
    }

    /// A key going down marks it down, a key going up marks it up; other
    /// events, and key events without a key code, change nothing.
    pub fn process_event(&mut self, event: KeyboardEvent)
        ensures
            final(self)@ == match event {
                KeyboardEvent::KeyDown(Some(kc)) => old(self)@.insert(
                    kc,
                    Keystate {
                        is_down: true,
                        was_down: if old(self)@.contains_key(kc) {
                            old(self)@[kc].was_down
                        } else {
                            false
                        },
                    },
                ),
                KeyboardEvent::KeyUp(Some(kc)) => old(self)@.insert(
                    kc,
                    Keystate {
                        is_down: false,
                        was_down: if old(self)@.contains_key(kc) {
                            old(self)@[kc].was_down
                        } else {
                            false
                        },
                    },
                ),
                _ => old(self)@,
            },
    {
        match event {
            KeyboardEvent::KeyDown(keycode) => {
                if let Some(kc) = keycode {
                    self.set_key_down(kc, true);
                }
            },
            KeyboardEvent::KeyUp(keycode) => {
                if let Some(kc) = keycode {
                    self.set_key_down(kc, false);
                }
            },
            _ => {},
        }
    }

    /// Remembers every key's current state as its previous one.
    pub fn update(&mut self)
        ensures
            final(self)@ == old(self)@.map_values(|s: Keystate| updated(s)),
            forall|k: i32| #[trigger] final(self)@.contains_key(k) <==> old(self)@.contains_key(k),
            forall|k: i32| #[trigger]
                old(self)@.contains_key(k) ==> final(self)@[k].is_down == old(self)@[k].is_down
                    && final(self)@[k].was_down == old(self)@[k].is_down,
    {
        let mut next: HashMap<i32, Keystate> = HashMap::new();
        let ghost m = self.keystates@;
        let ghost s = vstd::std_specs::hash::spec_hash_map_iter(&self.keystates).remaining();
        let ghost mut n: int = 0;
        for (keycode, keystate) in it: self.keystates.iter()
            invariant
                m == self.keystates@,
                s == vstd::std_specs::hash::spec_hash_map_iter(&self.keystates).remaining(),
                it.seq() == s,
                n == it.index(),
                forall|q: int|
                    #![trigger s[q]]
                    0 <= q < n ==> next@.contains_key(*s[q].0) && next@[*s[q].0] == updated(*s[q].1),
                forall|k: i32| #[trigger]
                    next@.contains_key(k) ==> m.contains_key(k) && next@[k] == updated(m[k]),
        {
            proof {
                let q = it.index();
                assert(it.seq()[q] == (keycode, keystate));
            }
            next.insert(*keycode, Keystate { is_down: keystate.is_down, was_down: keystate.is_down });
            proof {
                n = n + 1;
            }
        }
        proof {
            assert forall|k: i32| m.contains_key(k) implies #[trigger] next@.contains_key(k) by {
                assert(s.contains((&k, &m[k])));
                let q = choose|q: int| 0 <= q < s.len() && s[q] == (&k, &m[k]);
                assert(s[q] == (&k, &m[k]));
            }
            assert(next@ =~= m.map_values(|s: Keystate| updated(s)));
        }
        self.keystates = next;
        proof {
            lemma_update_keeps_held_keys(m, self.keystates@);
        }
    }
}

/// An update keeps every key the keyboard has seen, and no other; a key
/// held down stays down, and each key's previous state becomes what its
/// state was before the update, as `Keystate::update` makes it.
pub proof fn lemma_update_keeps_held_keys(before: Map<i32, Keystate>, after: Map<i32, Keystate>)
    requires
        after == before.map_values(|s: Keystate| updated(s)),
    ensures
        forall|k: i32| #[trigger] after.contains_key(k) <==> before.contains_key(k),
        forall|k: i32| #[trigger]
            before.contains_key(k) ==> after[k].is_down == before[k].is_down && after[k].was_down
                == before[k].is_down,
{
}

} // verus!
