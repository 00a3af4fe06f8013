//! What holds of every table, stated over the maps that tables store.

use crate::table::{accepts, put, stored};
use vstd::prelude::*;

verus! {

/// What a table of `capacity` slots that stores `m` stores after it was asked
/// to perform `writes`, pairs of key and value, one after the other.
pub open spec fn replay(m: Map<u32, u32>, capacity: nat, writes: Seq<(u32, u32)>) -> Map<u32, u32>
    decreases writes.len(),
{
    if writes.len() == 0 {
        m
    } else {
        put(replay(m, capacity, writes.drop_last()), capacity, writes.last().0, writes.last().1)
    }
}

/// A write to one key changes what is read under no other key, whether the
/// write is taken or turned away.
pub proof fn law_other_keys_untouched(
    m: Map<u32, u32>,
    capacity: nat,
    key: u32,
    value: u32,
    other: u32,
)
    requires
        other != key,
    ensures
        stored(put(m, capacity, key, value), other) == stored(m, other),
{
}

/// A write removes no key, and adds none but its own, and that only if it is
/// taken.
pub proof fn law_keys_stay(m: Map<u32, u32>, capacity: nat, key: u32, value: u32, other: u32)
    ensures
        put(m, capacity, key, value).contains_key(other) <==> m.contains_key(other) || (other == key
            && accepts(m, capacity, key)),
{
}

/// A write that is taken is read back.
pub proof fn law_read_own_write(m: Map<u32, u32>, capacity: nat, key: u32, value: u32)
    requires
        accepts(m, capacity, key),
    ensures
        stored(put(m, capacity, key, value), key) == value,
{
}

/// After any writes, a key reads as the value of the last write to it,
/// provided the table took that write.
pub proof fn law_last_write_wins(
    m: Map<u32, u32>,
    capacity: nat,
    writes: Seq<(u32, u32)>,
    last: int,
)
    requires
        0 <= last < writes.len(),
        forall|i: int| last < i < writes.len() ==> (#[trigger] writes[i]).0 != writes[last].0,
        accepts(replay(m, capacity, writes.take(last)), capacity, writes[last].0),
    ensures
        stored(replay(m, capacity, writes), writes[last].0) == writes[last].1,
    decreases writes.len(),
{
    let before = writes.drop_last();
    if last == writes.len() - 1 {
        assert(before =~= writes.take(last));
    } else {
        assert(before.take(last) =~= writes.take(last));
        assert(before[last] == writes[last]);
        assert forall|i: int| last < i < before.len() implies (#[trigger] before[i]).0
            != before[last].0 by {
            assert(before[i] == writes[i]);
        }
        law_last_write_wins(m, capacity, before, last);
        assert(writes.last().0 != writes[last].0);
    }
}

/// A key that the table did not store at first, and that no write names,
/// reads as zero after the writes.
pub proof fn law_unwritten_reads_zero(
    m: Map<u32, u32>,
    capacity: nat,
    writes: Seq<(u32, u32)>,
    key: u32,
)
    requires
        !m.contains_key(key),
        forall|i: int| 0 <= i < writes.len() ==> (#[trigger] writes[i]).0 != key,
    ensures
        stored(replay(m, capacity, writes), key) == 0,
    decreases writes.len(),
{
    if writes.len() > 0 {
        let before = writes.drop_last();
        assert forall|i: int| 0 <= i < before.len() implies (#[trigger] before[i]).0 != key by {
            assert(before[i] == writes[i]);
        }
        law_unwritten_reads_zero(m, capacity, before, key);
        assert(writes.last().0 != key);
    }
}

/// Writing the same value under the same key twice in a row stores what
/// writing it once stores, and a taken write is then read back.
pub proof fn law_repeated_write(m: Map<u32, u32>, capacity: nat, key: u32, value: u32)
    ensures
        put(put(m, capacity, key, value), capacity, key, value) == put(m, capacity, key, value),
        accepts(m, capacity, key) ==> stored(
            put(put(m, capacity, key, value), capacity, key, value),
            key,
        ) == value,
{
    let once = put(m, capacity, key, value);
    assert(put(once, capacity, key, value) =~= once);
}

/// Writes never store more keys than there were writes.
pub proof fn lemma_replay_len(capacity: nat, writes: Seq<(u32, u32)>)
    ensures
        replay(Map::empty(), capacity, writes).dom().finite(),
        replay(Map::empty(), capacity, writes).len() <= writes.len(),
    decreases writes.len(),
{
    if writes.len() > 0 {
        lemma_replay_len(capacity, writes.drop_last());
    }
}

/// An empty table takes every one of up to `capacity` writes, and if the
/// writes are to different keys, each key then reads as the value written
/// under it.
pub proof fn law_room_up_to_capacity(capacity: nat, writes: Seq<(u32, u32)>)
    requires
        writes.len() <= capacity,
    ensures
        forall|j: int|
            0 <= j < writes.len() ==> accepts(
                replay(Map::empty(), capacity, #[trigger] writes.take(j)),
                capacity,
                writes[j].0,
            ),
        (forall|i: int, j: int|
            0 <= i < j < writes.len() ==> (#[trigger] writes[i]).0 != (#[trigger] writes[j]).0)
            ==> forall|j: int|
            0 <= j < writes.len() ==> stored(
                replay(Map::empty(), capacity, writes),
                (#[trigger] writes[j]).0,
            ) == writes[j].1,
{
    assert forall|j: int| 0 <= j < writes.len() implies accepts(
        replay(Map::empty(), capacity, #[trigger] writes.take(j)),
        capacity,
        writes[j].0,
    ) by {
        lemma_replay_len(capacity, writes.take(j));
    }
    if forall|i: int, j: int|
        0 <= i < j < writes.len() ==> (#[trigger] writes[i]).0 != (#[trigger] writes[j]).0 {
        assert forall|j: int| 0 <= j < writes.len() implies stored(
            replay(Map::empty(), capacity, writes),
            (#[trigger] writes[j]).0,
        ) == writes[j].1 by {
            law_last_write_wins(Map::empty(), capacity, writes, j);
        }
    }
}

} // verus!
