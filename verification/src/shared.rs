//! The table for concurrent callers: the same slots and the same probe
//! sequence, with every slot field read and written atomically, so that any
//! number of threads may look up and insert through a shared reference.

use crate::probe::{
    classify, claimed, home_slot, is_power_of_two, next_move, Move, Probed,
};
use crate::table::TableFull;
use std::sync::atomic::{AtomicU32, Ordering};
use vstd::prelude::*;

verus! {

/// One slot: a key and a value, each atomic on its own. A zero key marks the
/// slot as empty; once a key is in, it stays.
#[derive(Debug)]
struct AtomicEntry {
    key: AtomicU32,
    value: AtomicU32,
}

/// A fixed-capacity, lock-free hash table from nonzero `u32` keys to nonzero
/// `u32` values.
///
/// What a lookup returns depends on what other threads are writing at that
/// moment, so the contracts here promise only that every call returns.
#[derive(Debug)]
pub struct SharedTable {
    array_size: u32,
    entries: Vec<AtomicEntry>,
}

/// Allocates `array_size` empty slots.
fn init_atomic_array(array_size: u32) -> (entries: Vec<AtomicEntry>)
    ensures
        entries@.len() == array_size,
{
    let mut vector: Vec<AtomicEntry> = Vec::new();
    let mut made: u32 = 0;
    while made < array_size
        invariant
            made <= array_size,
            vector@.len() == made,
        decreases array_size - made,
    {
        vector.push(AtomicEntry { key: AtomicU32::new(0), value: AtomicU32::new(0) });
        made = made + 1;
    }
    vector
}

impl SharedTable {
    /// The number of slots, fixed at construction.
    pub closed spec fn capacity(&self) -> nat {
        self.array_size as nat
    }

    /// The invariant of the table: the slot array has the table's capacity,
    /// a power of two.
    pub closed spec fn wf(&self) -> bool {
        &&& is_power_of_two(self.array_size)
        &&& self.entries@.len() == self.array_size
    }

    /// Creates an empty table of `array_size` slots.
    pub fn new(array_size: u32) -> (table: Self)
        requires
            is_power_of_two(array_size),
        ensures
            table.wf(),
            table.capacity() == array_size,
    {
        Self { array_size, entries: init_atomic_array(array_size) }
    }

    /// The slot at `idx`.
    fn slot(&self, idx: u32) -> (entry: &AtomicEntry)
        requires
            self.wf(),
            idx < self.capacity(),
        ensures
            *entry == self.entries@[idx as int],
    {
        &self.entries[idx as usize]
    }

    /// Returns a value that was stored under `key`, or zero if probing met
    /// an empty slot, or no slot at all, before it met the key.
    pub fn get_item(&self, key: u32) -> (value: u32)
        requires
            self.wf(),
            key != 0,
    {
        let mut idx = home_slot(key, self.array_size);
        let mut probed: u32 = 0;
        loop
            invariant
                self.wf(),
                idx < self.array_size,
                probed < self.array_size,
            decreases self.array_size - probed,
        {
            let entry = self.slot(idx);
            let class = classify(entry.key.load(Ordering::Relaxed), key);
            let settled = match class {
                Probed::Other => false,
                _ => true,
            };
            match next_move(settled, idx, probed, self.array_size) {
                Move::Settle => {
                    return match class {
                        Probed::Match => entry.value.load(Ordering::Relaxed),
                        _ => 0,
                    };
                },
                Move::Advance(next) => {
                    idx = next;
                    probed = probed + 1;
                },
                Move::GiveUp => {
                    return 0;
                },
            }
        }
    }

    /// Stores `value` under `key` in the slot that holds the key, or in the
    /// first empty slot of the key's probe sequence that this call can
    /// claim. Fails if every slot turned out to hold another key.
    pub fn set_item(&self, key: u32, value: u32) -> (outcome: Result<(), TableFull>)
        requires
            self.wf(),
            key != 0,
            value != 0,
    {
        let mut idx = home_slot(key, self.array_size);
        let mut probed: u32 = 0;
        loop
            invariant
                self.wf(),
                idx < self.array_size,
                probed < self.array_size,
            decreases self.array_size - probed,
        {
            let entry = self.slot(idx);
            let ours = match classify(entry.key.load(Ordering::Relaxed), key) {
                Probed::Match => true,
                Probed::Empty => claimed(
                    entry.key.compare_exchange(0, key, Ordering::Relaxed, Ordering::Relaxed),
                    key,
                ),
                Probed::Other => false,
            };
            match next_move(ours, idx, probed, self.array_size) {
                Move::Settle => {
                    entry.value.store(value, Ordering::Relaxed);
                    return Ok(());
                },
                Move::Advance(next) => {
                    idx = next;
                    probed = probed + 1;
                },
                Move::GiveUp => {
                    return Err(TableFull);
                },
            }
        }
    }
}

} // verus!
