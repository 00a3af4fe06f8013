//! The hash that picks where a key's probe sequence begins.

use vstd::prelude::*;

verus! {

/// The 32-bit MurmurHash3 digest, with seed zero, of the four bytes that make
/// up `key` in little-endian order.
pub uninterp spec fn murmur3_32_le(key: u32) -> u32;

/// Hashes a key.
///
/// Trusted: calls `murmur3::murmur3_32` on a cursor over the key's four
/// little-endian bytes with seed zero. The digest depends on those bytes and
/// the seed alone, and reading from an in-memory cursor cannot fail, so the
/// call always yields a digest; the contract gives that digest its name and
/// claims nothing else of it.
#[verifier::external_body]
pub(crate) fn integer_hash(h: u32) -> (digest: u32)
    ensures
        digest == murmur3_32_le(h),
{
    murmur3::murmur3_32(&mut std::io::Cursor::new(h.to_le_bytes()), 0).unwrap()
}

} // verus!
