//! Index arithmetic of the probe sequence.

use crate::hash::{integer_hash, murmur3_32_le};
use vstd::arithmetic::power2::{lemma2_to64, pow2};
use vstd::bits::{lemma_u32_low_bits_mask_is_mod, low_bits_mask};
use vstd::prelude::*;

verus! {

/// Whether `n` is a power of two: one of the thirty-two that a `u32` can
/// hold, from 1 to 2^31.
pub open spec fn is_power_of_two(n: u32) -> bool {
    n == 0x1 || n == 0x2 || n == 0x4 || n == 0x8 || n == 0x10 || n == 0x20 || n == 0x40 || n == 0x80
        || n == 0x100 || n == 0x200 || n == 0x400 || n == 0x800 || n == 0x1000 || n == 0x2000 || n
        == 0x4000 || n == 0x8000 || n == 0x1_0000 || n == 0x2_0000 || n == 0x4_0000 || n == 0x8_0000
        || n == 0x10_0000 || n == 0x20_0000 || n == 0x40_0000 || n == 0x80_0000 || n == 0x100_0000
        || n == 0x200_0000 || n == 0x400_0000 || n == 0x800_0000 || n == 0x1000_0000 || n
        == 0x2000_0000 || n == 0x4000_0000 || n == 0x8000_0000
}

/// The slot at which probing starts for a key whose hash is `hash`.
pub open spec fn start_index(hash: u32, capacity: u32) -> int {
    hash as int % capacity as int
}

/// The slot at which probing for `key` starts: the key's hash, reduced modulo
/// the capacity.
pub open spec fn home_index(key: u32, capacity: u32) -> int {
    start_index(murmur3_32_le(key), capacity)
}

/// The powers of two are the values of `pow2` at the exponents below 32.
pub proof fn lemma_power_of_two_exponent(n: u32)
    ensures
        is_power_of_two(n) <==> exists|e: nat| e < 32 && n == #[trigger] pow2(e),
{
    lemma2_to64();
    if exists|e: nat| e < 32 && n == #[trigger] pow2(e) {
        let e = choose|e: nat| e < 32 && n == #[trigger] pow2(e);
        assert(e == 0 || e == 1 || e == 2 || e == 3 || e == 4 || e == 5 || e == 6 || e == 7
            || e == 8 || e == 9 || e == 10 || e == 11 || e == 12 || e == 13 || e == 14 || e == 15
            || e == 16 || e == 17 || e == 18 || e == 19 || e == 20 || e == 21 || e == 22 || e == 23
            || e == 24 || e == 25 || e == 26 || e == 27 || e == 28 || e == 29 || e == 30
            || e == 31);
    }
}

/// The powers of two are the nonzero numbers that share no bit with their
/// predecessor.
pub proof fn lemma_power_of_two_bits(n: u32)
    ensures
        is_power_of_two(n) <==> n != 0 && n & ((n - 1) as u32) == 0,
{
    assert(is_power_of_two(n) <==> n != 0 && n & ((n - 1) as u32) == 0) by (bit_vector);
}

/// Masking a hash with `capacity - 1` is reduction modulo `capacity`.
pub proof fn lemma_mask_is_modulo(hash: u32, capacity: u32)
    requires
        is_power_of_two(capacity),
    ensures
        hash & ((capacity - 1) as u32) == start_index(hash, capacity),
{
    lemma_power_of_two_exponent(capacity);
    let e = choose|e: nat| e < 32 && capacity == #[trigger] pow2(e);
    assert(low_bits_mask(e) == capacity - 1);
    lemma_u32_low_bits_mask_is_mod(hash, e);
}

/// Whether `array_size` is a power of two.
pub fn is_valid_capacity(array_size: u32) -> (valid: bool)
    ensures
        valid == is_power_of_two(array_size),
{
    proof {
        lemma_power_of_two_bits(array_size);
    }
    array_size != 0 && array_size & (array_size - 1) == 0
}

/// The slot at which probing starts for a key whose hash is `hash`.
pub fn probe_start(hash: u32, capacity: u32) -> (start: u32)
    requires
        is_power_of_two(capacity),
    ensures
        start == start_index(hash, capacity),
        start < capacity,
{
    proof {
        lemma_mask_is_modulo(hash, capacity);
    }
    hash & (capacity - 1)
}

/// The slot at which probing for `key` starts in a table of `capacity` slots.
pub fn home_slot(key: u32, capacity: u32) -> (start: u32)
    requires
        is_power_of_two(capacity),
    ensures
        start == home_index(key, capacity),
        start < capacity,
{
    probe_start(integer_hash(key), capacity)
}

/// The slot probed after `index`, wrapping at `capacity`.
pub fn probe_next(index: u32, capacity: u32) -> (next: u32)
    requires
        is_power_of_two(capacity),
        index < capacity,
    ensures
        next == (index + 1) % capacity as int,
        next < capacity,
{
    proof {
        lemma_mask_is_modulo((index + 1) as u32, capacity);
    }
    (index + 1) & (capacity - 1)
}

/// What the key read from a slot means to a probe for some key.
#[derive(Debug, Clone, Copy, PartialEq, Eq, Structural)]
pub enum Probed {
    /// The slot holds the key that is probed for.
    Match,
    /// The slot is empty.
    Empty,
    /// The slot holds another key.
    Other,
}

/// Tells what `probed_key`, read from a slot, means to a probe for `key`.
pub fn classify(probed_key: u32, key: u32) -> (class: Probed)
    ensures
        class is Match <==> probed_key == key,
        class is Empty <==> probed_key == 0 && key != 0,
{
    if probed_key == key {
        Probed::Match
    } else if probed_key == 0 {
        Probed::Empty
    } else {
        Probed::Other
    }
}

/// What a probe does next, once it has looked at a slot.
#[derive(Debug, Clone, Copy, PartialEq, Eq, Structural)]
pub enum Move {
    /// Stay: the probe ends at this slot.
    Settle,
    /// Go on to the slot with this index.
    Advance(u32),
    /// Stop: every slot has been looked at, and none would do.
    GiveUp,
}

/// Decides what a probe does after it has looked at slot `index`, the slot
/// that `probed` earlier slots led to. `settled` says whether the probe ends
/// there. If not, the probe goes on to the next slot, wrapping at
/// `capacity`, unless this was the last of the `capacity` slots.
pub fn next_move(settled: bool, index: u32, probed: u32, capacity: u32) -> (m: Move)
    requires
        is_power_of_two(capacity),
        index < capacity,
        probed < capacity,
    ensures
        settled ==> m == Move::Settle,
        !settled && probed + 1 < capacity ==> m == Move::Advance(
            ((index + 1) % capacity as int) as u32,
        ),
        !settled && probed + 1 == capacity ==> m == Move::GiveUp,
        m matches Move::Advance(next) ==> next < capacity,
{
    if settled {
        Move::Settle
    } else if probed + 1 < capacity {
        Move::Advance(probe_next(index, capacity))
    } else {
        Move::GiveUp
    }
}

/// Tells whether a slot belongs to `key` after an attempt to swap `key` into
/// the slot's empty key field. `previous` is what the swap returned for the
/// key field: `Ok` if the swap took place, `Err` with the key found there if
/// it did not. The slot belongs to `key` if the swap took place, or if it
/// failed because the slot already held that very key.
pub fn claimed(previous: Result<u32, u32>, key: u32) -> (ours: bool)
    ensures
        ours <==> previous is Ok || previous == Err::<u32, u32>(key),
{
    match previous {
        Ok(_) => true,
        Err(holder) => holder == key,
    }
}

} // verus!
