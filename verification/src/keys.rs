//! Packed storage keys: one `u64` per (handle, wire id) pair.

use vstd::prelude::*;

verus! {

/// Packs a (handle, wire id) pair into one storage key.
pub open spec fn pack(h: u32, c: u32) -> u64 {
    ((h as u64) << 32) | (c as u64)
}

pub open spec fn handle_of(k: u64) -> u32 {
    (k >> 32) as u32
}

pub open spec fn comp_of(k: u64) -> u32 {
    k as u32
}

/// Packing is inverted by `handle_of` and `comp_of`.
pub broadcast proof fn lemma_pack_inverse(h: u32, c: u32)
    ensures
        #![trigger pack(h, c)]
        handle_of(pack(h, c)) == h && comp_of(pack(h, c)) == c,
{
    assert(((((h as u64) << 32) | (c as u64)) >> 32) as u32 == h) by (bit_vector);
    assert(((((h as u64) << 32) | (c as u64)) as u32) == c) by (bit_vector);
}

/// Every key is the packing of its own handle and wire id.
pub broadcast proof fn lemma_pack_unpack(k: u64)
    ensures
        #![trigger handle_of(k), comp_of(k)]
        pack(handle_of(k), comp_of(k)) == k,
{
    assert(((((k >> 32) as u32 as u64) << 32) | (k as u32 as u64)) == k) by (bit_vector);
}

/// Packs a (handle, wire id) pair into one storage key.
pub fn pack_key(h: u32, c: u32) -> (k: u64)
    ensures
        k == pack(h, c),
{
    ((h as u64) << 32u64) | (c as u64)
}

} // verus!
