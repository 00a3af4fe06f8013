//! A fixed-capacity hash table from nonzero `u32` keys to nonzero `u32`
//! values, with open addressing and linear probing.
//!
//! Zero is reserved: a zero key marks an empty slot, and a lookup answers
//! zero for a key that is not stored. The capacity is a power of two fixed at
//! construction; entries are never removed and the table never grows. A key's
//! probe sequence starts at its MurmurHash3 digest modulo the capacity and
//! runs through consecutive slots, wrapping at the end of the array.
//!
//! The table comes in two forms that share this layout:
//!
//! * [`HashTable2`] is the table in the hands of one owner. Its contracts say
//!   exactly what every call returns and stores, in terms of the map from
//!   keys to values that the table stands for, and [`laws`] states what
//!   follows for whole sequences of writes.
//! * [`shared::SharedTable`] is the table for concurrent callers. Each slot
//!   field is an atomic of its own, a slot is claimed by a compare-and-swap
//!   on its key, and lookups and insertions go through a shared reference
//!   without any lock. What a call observes there depends on what other
//!   threads do at the same moment, so its contracts promise no more than
//!   that every call returns.
//!
//! ```
//! use simplest_lockfree_hashtable::HashTable2;
//!
//! let mut table = HashTable2::new(4);
//! assert!(table.set_item(1, 1).is_ok());
//! assert!(table.set_item(1, 2).is_ok());
//! assert!(table.set_item(10, 10).is_ok());
//!
//! assert_eq!(2, table.get_item(1));
//! assert_eq!(10, table.get_item(10));
//! ```

pub mod hash;
pub mod laws;
pub mod probe;
pub mod shared;
mod slots;
pub mod table;

pub use table::{HashTable2, TableFull};
