//! The table: construction, lookup, and insert-or-update.

use crate::probe::{
    classify, home_index, home_slot, is_power_of_two, is_valid_capacity, next_move, Move, Probed,
};
use crate::slots::{
    at, blocked, consistent, contents, dist, lemma_blocked_is_absent, lemma_claim,
    lemma_contents_at, lemma_contents_len, lemma_home_in_range, lemma_overwrite, slot_of, Entry,
};
use vstd::prelude::*;

verus! {

/// The error of an insertion that found every slot taken by another key.
#[derive(Debug, Clone, Copy, PartialEq, Eq, Structural)]
pub struct TableFull;

/// Where probing for a key came to rest.
enum Probe {
    /// The slot that holds the key.
    Found(u32),
    /// The empty slot that ends the key's probe sequence.
    Vacant(u32),
    /// Every slot holds another key.
    Saturated,
}

/// A fixed-capacity hash table from nonzero `u32` keys to nonzero `u32`
/// values, with open addressing and linear probing.
#[derive(Debug)]
pub struct HashTable2 {
    array_size: u32,
    entries: Vec<Entry>,
}

/// Whether a table of `capacity` slots that stores `m` takes a value for `key`:
/// the key is already stored, or a slot is still free.
pub open spec fn accepts(m: Map<u32, u32>, capacity: nat, key: u32) -> bool {
    m.contains_key(key) || m.len() < capacity
}

/// What a table of `capacity` slots that stores `m` stores after it was asked
/// to set `key` to `value`.
pub open spec fn put(m: Map<u32, u32>, capacity: nat, key: u32, value: u32) -> Map<u32, u32> {
    if accepts(m, capacity, key) {
        m.insert(key, value)
    } else {
        m
    }
}

/// What a lookup of `key` yields in a table that stores `m`: the value stored
/// under the key, or zero if there is none.
pub open spec fn stored(m: Map<u32, u32>, key: u32) -> u32 {
    if m.contains_key(key) {
        m[key]
    } else {
        0
    }
}

/// Allocates `array_size` empty slots: key and value of each are zero.
fn init_array(array_size: u32) -> (entries: Vec<Entry>)
    ensures
        entries@.len() == array_size,
        forall|i: int| 0 <= i < entries@.len() ==> (#[trigger] entries@[i]).key == 0,
        forall|i: int| 0 <= i < entries@.len() ==> (#[trigger] entries@[i]).value == 0,
{
    let mut vector: Vec<Entry> = Vec::new();
    let mut made: u32 = 0;
    while made < array_size
        invariant
            made <= array_size,
            vector@.len() == made,
            forall|i: int| 0 <= i < vector@.len() ==> (#[trigger] vector@[i]).key == 0,
            forall|i: int| 0 <= i < vector@.len() ==> (#[trigger] vector@[i]).value == 0,
        decreases array_size - made,
    {
        vector.push(Entry { key: 0, value: 0 });
        made = made + 1;
    }
    vector
}

impl View for HashTable2 {
    type V = Map<u32, u32>;

    /// The stored keys, each with its value.
    closed spec fn view(&self) -> Map<u32, u32> {
        contents(self.entries@)
    }
}

impl HashTable2 {
    /// The number of slots, fixed at construction.
    pub closed spec fn capacity(&self) -> nat {
        self.array_size as nat
    }

    /// The invariant of the table: the slot array has the table's capacity, a
    /// power of two; no key occupies two slots; probing for a stored key
    /// meets no empty slot before the key's own; stored values are nonzero;
    /// and an empty slot holds zero in both fields.
    pub closed spec fn wf(&self) -> bool {
        &&& is_power_of_two(self.array_size)
        &&& consistent(self.entries@, self.array_size)
    }

    /// What the invariant says of the stored map: it is finite, fits the
    /// capacity, and holds neither a zero key nor a zero value.
    pub proof fn lemma_view_bounds(&self)
        requires
            self.wf(),
        ensures
            self@.dom().finite(),
            self@.len() <= self.capacity(),
            self.capacity() > 0,
            !self@.contains_key(0),
            forall|k: u32| self@.contains_key(k) ==> #[trigger] self@[k] != 0,
    {
        lemma_contents_len(self.entries@, self.array_size);
        assert forall|k: u32| self@.contains_key(k) implies #[trigger] self@[k] != 0 by {
            let j = slot_of(self.entries@, k);
            assert(self.entries@[j].key == k);
        }
    }

    /// Creates an empty table of `array_size` slots.
    pub fn new(array_size: u32) -> (table: Self)
        requires
            is_power_of_two(array_size),
        ensures
            table.wf(),
            table.capacity() == array_size,
            table@ == Map::<u32, u32>::empty(),
    {
        let entries = init_array(array_size);
        let table = Self { array_size, entries };
        proof {
            assert(table@ =~= Map::<u32, u32>::empty());
        }
        table
    }

    /// Creates an empty table of `array_size` slots if `array_size` is a power
    /// of two, and nothing otherwise.
    pub fn try_new(array_size: u32) -> (table: Option<Self>)
        ensures
            table is Some <==> is_power_of_two(array_size),
            table matches Some(t) ==> t.wf() && t.capacity() == array_size && t@ == Map::<
                u32,
                u32,
            >::empty(),
    {
        if is_valid_capacity(array_size) {
            Some(Self::new(array_size))
        } else {
            None
        }
    }

    /// The number of probes that lead from the home slot of `key` to slot `i`.
    spec fn steps_to(&self, key: u32, i: u32) -> int {
        dist(home_index(key, self.array_size), i as int, self.array_size as int)
    }

    /// Probes for `key` from its home slot until the key, an empty slot, or
    /// the whole array has been seen.
    fn locate(&self, key: u32) -> (found: Probe)
        requires
            self.wf(),
            key != 0,
        ensures
            found matches Probe::Found(i) ==> i < self.array_size && self.entries@[i as int].key
                == key,
            found matches Probe::Vacant(i) ==> i < self.array_size && self.entries@[i as int].key
                == 0 && blocked(self.entries@, self.array_size, key, self.steps_to(key, i)),
            found is Saturated ==> blocked(
                self.entries@,
                self.array_size,
                key,
                self.array_size as int,
            ),
    {
        let mut idx = home_slot(key, self.array_size);
        let mut probed: u32 = 0;
        proof {
            lemma_home_in_range(key, self.array_size);
        }
        loop
            invariant
                self.wf(),
                key != 0,
                probed < self.array_size,
                0 <= home_index(key, self.array_size) < self.array_size,
                idx == at(home_index(key, self.array_size), probed as int, self.array_size as int),
                blocked(self.entries@, self.array_size, key, probed as int),
            decreases self.array_size - probed,
        {
            let class = classify(self.entries[idx as usize].key, key);
            let settled = match class {
                Probed::Other => false,
                _ => true,
            };
            match next_move(settled, idx, probed, self.array_size) {
                Move::Settle => {
                    return match class {
                        Probed::Match => Probe::Found(idx),
                        _ => Probe::Vacant(idx),
                    };
                },
                Move::Advance(next) => {
                    proof {
                        if idx + 1 < self.array_size {
                            vstd::arithmetic::div_mod::lemma_small_mod(
                                (idx + 1) as nat,
                                self.array_size as nat,
                            );
                        } else {
                            vstd::arithmetic::div_mod::lemma_mod_self_0(self.array_size as int);
                        }
                    }
                    idx = next;
                    probed = probed + 1;
                },
                Move::GiveUp => {
                    return Probe::Saturated;
                },
            }
        }
    }

    /// Returns the value stored under `key`, or zero if the key is not stored.
    pub fn get_item(&self, key: u32) -> (value: u32)
        requires
            self.wf(),
            key != 0,
        ensures
            value == stored(self@, key),
    {
        match self.locate(key) {
            Probe::Found(i) => {
                proof {
                    lemma_contents_at(self.entries@, i as int);
                }
                self.entries[i as usize].value
            },
            Probe::Vacant(i) => {
                proof {
                    lemma_home_in_range(key, self.array_size);
                    lemma_blocked_is_absent(
                        self.entries@,
                        self.array_size,
                        key,
                        self.steps_to(key, i),
                    );
                }
                0
            },
            Probe::Saturated => {
                proof {
                    lemma_blocked_is_absent(
                        self.entries@,
                        self.array_size,
                        key,
                        self.array_size as int,
                    );
                }
                0
            },
        }
    }

    /// Stores `value` under `key`, replacing any value stored there before.
    ///
    /// Fails, and leaves the table as it was, exactly when the key is not
    /// stored yet and no slot is free.
    pub fn set_item(&mut self, key: u32, value: u32) -> (outcome: Result<(), TableFull>)
        requires
            old(self).wf(),
            key != 0,
            value != 0,
        ensures
            final(self).wf(),
            final(self).capacity() == old(self).capacity(),
            outcome is Ok <==> accepts(old(self)@, old(self).capacity(), key),
            final(self)@ == put(old(self)@, old(self).capacity(), key, value),
    {
        proof {
            lemma_contents_len(self.entries@, self.array_size);
            lemma_home_in_range(key, self.array_size);
        }
        match self.locate(key) {
            Probe::Found(i) => {
                proof {
                    lemma_contents_at(self.entries@, i as int);
                    lemma_overwrite(self.entries@, self.array_size, i as int, key, value);
                }
                self.entries.set(i as usize, Entry { key, value });
                Ok(())
            },
            Probe::Vacant(i) => {
                proof {
                    lemma_claim(
                        self.entries@,
                        self.array_size,
                        self.steps_to(key, i),
                        key,
                        value,
                    );
                }
                self.entries.set(i as usize, Entry { key, value });
                Ok(())
            },
            Probe::Saturated => {
                proof {
                    lemma_blocked_is_absent(
                        self.entries@,
                        self.array_size,
                        key,
                        self.array_size as int,
                    );
                    assert forall|i: int| 0 <= i < self.entries@.len() implies (
                    #[trigger] self.entries@[i]).key != 0 by {
                        let h = home_index(key, self.array_size);
                        let d = dist(h, i, self.array_size as int);
                        assert(at(h, d, self.array_size as int) == i);
                    }
                }
                Err(TableFull)
            },
        }
    }
}

} // verus!
