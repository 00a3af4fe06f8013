//! The slot array as a mathematical sequence: what it stores, and the
//! invariant that makes linear probing find it.

use crate::hash::murmur3_32_le;
use crate::probe::home_index;
use vstd::prelude::*;
use vstd::seq_lib::seq_to_set_is_finite;
use vstd::set_lib::lemma_len_subset;

verus! {

/// One slot: a key and the value stored under it. A zero key marks the slot
/// as empty.
#[derive(Debug)]
pub(crate) struct Entry {
    pub(crate) key: u32,
    pub(crate) value: u32,
}

/// The slot reached `steps` probes after `from`, for `0 <= steps <= n`.
pub(crate) open spec fn at(from: int, steps: int, n: int) -> int {
    if from + steps < n {
        from + steps
    } else {
        from + steps - n
    }
}

/// The number of probes that lead from `from` to `slot`.
pub(crate) open spec fn dist(from: int, slot: int, n: int) -> int {
    if slot >= from {
        slot - from
    } else {
        slot - from + n
    }
}

/// Whether some slot holds `key`.
pub(crate) open spec fn holds(s: Seq<Entry>, key: u32) -> bool {
    exists|i: int| 0 <= i < s.len() && (#[trigger] s[i]).key == key
}

/// A slot that holds `key`, if there is one.
pub(crate) open spec fn slot_of(s: Seq<Entry>, key: u32) -> int {
    choose|i: int| 0 <= i < s.len() && (#[trigger] s[i]).key == key
}

/// The map from each stored key to its value.
pub(crate) open spec fn contents(s: Seq<Entry>) -> Map<u32, u32> {
    Map::new(|k: u32| k != 0 && holds(s, k), |k: u32| s[slot_of(s, k)].value)
}

/// No key occupies two slots.
pub(crate) open spec fn distinct(s: Seq<Entry>) -> bool {
    forall|i: int, j: int|
        0 <= i < s.len() && 0 <= j < s.len() && (#[trigger] s[i]).key != 0 && s[i].key == (
        #[trigger] s[j]).key ==> i == j
}

/// Slot `i` is occupied, and probing for its key passes the `d`-th slot of
/// the key's probe sequence before it reaches `i`.
pub(crate) open spec fn passes(s: Seq<Entry>, capacity: u32, i: int, d: int) -> bool {
    &&& 0 <= i < s.len()
    &&& s[i].key != 0
    &&& 0 <= d < dist(home_index(s[i].key, capacity), i, s.len() as int)
}

/// Probing for a stored key meets no empty slot before the key's own.
pub(crate) open spec fn chained(s: Seq<Entry>, capacity: u32) -> bool {
    forall|i: int, d: int| #[trigger]
        passes(s, capacity, i, d) ==> s[at(
            home_index(s[i].key, capacity),
            d,
            s.len() as int,
        )].key != 0
}

/// A slot carries a nonzero value exactly when it is occupied: an empty
/// slot holds zero in both fields.
pub(crate) open spec fn valued(s: Seq<Entry>) -> bool {
    forall|i: int| 0 <= i < s.len() ==> ((#[trigger] s[i]).key != 0 <==> s[i].value != 0)
}

/// The invariant of a slot array of `capacity` slots.
pub(crate) open spec fn consistent(s: Seq<Entry>, capacity: u32) -> bool {
    &&& capacity > 0
    &&& s.len() == capacity
    &&& distinct(s)
    &&& chained(s, capacity)
    &&& valued(s)
}

/// The first `steps` slots of the probe sequence of `key` are all occupied
/// by other keys.
pub(crate) open spec fn blocked(s: Seq<Entry>, capacity: u32, key: u32, steps: int) -> bool {
    forall|d: int|
        0 <= d < steps ==> {
            let e = #[trigger] s[at(home_index(key, capacity), d, s.len() as int)];
            e.key != 0 && e.key != key
        }
}

/// A key's probe sequence starts at a slot of the array.
pub(crate) proof fn lemma_home_in_range(key: u32, capacity: u32)
    requires
        capacity > 0,
    ensures
        0 <= home_index(key, capacity) < capacity,
{
    vstd::arithmetic::div_mod::lemma_mod_bound(murmur3_32_le(key) as int, capacity as int);
}

/// A key whose probe sequence is blocked up to an empty slot, or all the way
/// round, is not stored.
pub(crate) proof fn lemma_blocked_is_absent(s: Seq<Entry>, capacity: u32, key: u32, steps: int)
    requires
        consistent(s, capacity),
        key != 0,
        0 <= steps <= capacity,
        blocked(s, capacity, key, steps),
        steps < capacity ==> s[at(home_index(key, capacity), steps, capacity as int)].key == 0,
    ensures
        !holds(s, key),
{
    lemma_home_in_range(key, capacity);
    if holds(s, key) {
        let j = slot_of(s, key);
        let h = home_index(key, capacity);
        let dj = dist(h, j, capacity as int);
        assert(at(h, dj, capacity as int) == j);
        if dj < steps {
            assert(s[at(h, dj, capacity as int)].key != key);
        } else if dj > steps {
            assert(passes(s, capacity, j, steps));
        }
    }
}

/// An occupied slot's key maps to that slot's value.
pub(crate) proof fn lemma_contents_at(s: Seq<Entry>, i: int)
    requires
        distinct(s),
        0 <= i < s.len(),
        s[i].key != 0,
    ensures
        contents(s).contains_key(s[i].key),
        contents(s)[s[i].key] == s[i].value,
{
    assert(holds(s, s[i].key));
    let j = slot_of(s, s[i].key);
    assert(s[j].key == s[i].key);
}

/// The slot array after `key` and `value` were written into slot `i`.
pub(crate) open spec fn written(s: Seq<Entry>, i: int, key: u32, value: u32) -> Seq<Entry> {
    s.update(i, Entry { key, value })
}

/// Writing `key` and `value` into a slot that held that key, or that was
/// empty while no slot held the key, stores the value under the key and
/// leaves every other key with its value.
pub(crate) proof fn lemma_written_contents(s: Seq<Entry>, i: int, key: u32, value: u32)
    requires
        distinct(s),
        distinct(written(s, i, key, value)),
        0 <= i < s.len(),
        key != 0,
        s[i].key == key || (s[i].key == 0 && !holds(s, key)),
    ensures
        contents(written(s, i, key, value)) == contents(s).insert(key, value),
{
    let t = written(s, i, key, value);
    let after = contents(s).insert(key, value);
    assert(forall|j: int| 0 <= j < s.len() && j != i ==> (#[trigger] t[j]) == s[j]);
    assert forall|q: u32| contents(t).contains_key(q) <==> #[trigger] after.contains_key(q) by {
        if q != 0 && q != key && holds(t, q) {
            let j = slot_of(t, q);
            assert(s[j].key == q);
        }
        if q != 0 && q != key && holds(s, q) {
            let j = slot_of(s, q);
            assert(t[j].key == q);
        }
        if q == key {
            assert(t[i].key == q);
        }
    }
    assert forall|q: u32| #[trigger] contents(t).contains_key(q) implies contents(t)[q]
        == after[q] by {
        let j = slot_of(t, q);
        assert(t[j].key == q);
        lemma_contents_at(t, j);
        if q != key {
            assert(s[j].key == q);
            lemma_contents_at(s, j);
        }
    }
    assert(contents(t) =~= after);
}

/// Writing a value into the slot that already holds `key`.
pub(crate) proof fn lemma_overwrite(s: Seq<Entry>, capacity: u32, i: int, key: u32, value: u32)
    requires
        consistent(s, capacity),
        0 <= i < s.len(),
        s[i].key == key,
        key != 0,
        value != 0,
    ensures
        consistent(written(s, i, key, value), capacity),
        contents(written(s, i, key, value)) == contents(s).insert(key, value),
{
    let t = written(s, i, key, value);
    assert(forall|j: int| 0 <= j < s.len() ==> (#[trigger] t[j]).key == s[j].key);
    assert(forall|j: int| 0 <= j < s.len() && j != i ==> (#[trigger] t[j]) == s[j]);
    assert(distinct(t));
    assert(chained(t, capacity)) by {
        assert forall|j: int, d: int| #[trigger] passes(t, capacity, j, d) implies t[at(
            home_index(t[j].key, capacity),
            d,
            t.len() as int,
        )].key != 0 by {
            lemma_home_in_range(t[j].key, capacity);
            assert(passes(s, capacity, j, d));
        }
    }
    assert(valued(t));
    lemma_written_contents(s, i, key, value);
}

/// Claiming the empty slot that ends the blocked probe sequence of an absent
/// `key`, and writing its value.
pub(crate) proof fn lemma_claim(s: Seq<Entry>, capacity: u32, steps: int, key: u32, value: u32)
    requires
        consistent(s, capacity),
        key != 0,
        value != 0,
        0 <= steps < capacity,
        blocked(s, capacity, key, steps),
        s[at(home_index(key, capacity), steps, capacity as int)].key == 0,
    ensures
        !holds(s, key),
        consistent(
            written(s, at(home_index(key, capacity), steps, capacity as int), key, value),
            capacity,
        ),
        contents(written(s, at(home_index(key, capacity), steps, capacity as int), key, value))
            == contents(s).insert(key, value),
{
    lemma_home_in_range(key, capacity);
    lemma_blocked_is_absent(s, capacity, key, steps);
    let n = capacity as int;
    let h = home_index(key, capacity);
    let i = at(h, steps, n);
    let t = written(s, i, key, value);
    assert(dist(h, i, n) == steps);
    assert(forall|j: int| 0 <= j < s.len() && j != i ==> (#[trigger] t[j]) == s[j]);
    assert(distinct(t)) by {
        assert forall|a: int, b: int|
            0 <= a < t.len() && 0 <= b < t.len() && (#[trigger] t[a]).key != 0 && t[a].key == (
            #[trigger] t[b]).key implies a == b by {
            if a != b {
                if a == i {
                    assert(s[b].key == key);
                } else if b == i {
                    assert(s[a].key == key);
                } else {
                    assert(s[a].key == s[b].key);
                }
            }
        }
    }
    assert(chained(t, capacity)) by {
        assert forall|j: int, d: int| #[trigger] passes(t, capacity, j, d) implies t[at(
            home_index(t[j].key, capacity),
            d,
            t.len() as int,
        )].key != 0 by {
            lemma_home_in_range(t[j].key, capacity);
            let p = at(home_index(t[j].key, capacity), d, n);
            if j == i {
                assert(s[at(h, d, n)].key != 0);
                assert(p != i);
            } else {
                assert(passes(s, capacity, j, d));
                if p != i {
                    assert(t[p] == s[p]);
                }
            }
        }
    }
    assert(valued(t));
    lemma_written_contents(s, i, key, value);
}

/// The keys of the slots, in slot order.
pub(crate) open spec fn keys(s: Seq<Entry>) -> Seq<u32> {
    Seq::new(s.len(), |i: int| s[i].key)
}

/// The number of stored keys is below the number of slots exactly when some
/// slot is empty, and never above it.
pub(crate) proof fn lemma_contents_len(s: Seq<Entry>, capacity: u32)
    requires
        consistent(s, capacity),
    ensures
        contents(s).dom().finite(),
        contents(s).len() <= capacity,
        contents(s).len() < capacity <==> exists|i: int|
            0 <= i < s.len() && (#[trigger] s[i]).key == 0,
{
    broadcast use seq_to_set_is_finite;

    let ks = keys(s);
    let dom = contents(s).dom();
    if exists|i: int| 0 <= i < s.len() && (#[trigger] s[i]).key == 0 {
        let e = choose|i: int| 0 <= i < s.len() && (#[trigger] s[i]).key == 0;
        let rest = ks.remove(e);
        assert forall|k: u32| dom.contains(k) implies #[trigger] rest.to_set().contains(k) by {
            let j = slot_of(s, k);
            assert(s[j].key == k);
            if j < e {
                assert(rest[j] == k);
            } else {
                assert(rest[j - 1] == k);
            }
        }
        assert(dom.subset_of(rest.to_set()));
        rest.lemma_cardinality_of_set();
        lemma_len_subset(dom, rest.to_set());
    } else {
        assert forall|i: int, j: int| 0 <= i < ks.len() && 0 <= j < ks.len() && i != j implies ks[i]
            != ks[j] by {
            assert(s[i].key != 0);
            assert(s[i].key == ks[i] && s[j].key == ks[j]);
        }
        assert(ks.no_duplicates());
        ks.unique_seq_to_set();
        assert(dom =~= ks.to_set()) by {
            assert forall|k: u32| dom.contains(k) <==> #[trigger] ks.to_set().contains(k) by {
                if dom.contains(k) {
                    let j = slot_of(s, k);
                    assert(ks[j] == k);
                }
                if ks.to_set().contains(k) {
                    let j = choose|j: int| 0 <= j < ks.len() && ks[j] == k;
                    assert(s[j].key == k);
                }
            }
        }
    }
}

} // verus!
