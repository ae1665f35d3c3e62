//! Keys and hashes of the fixed table.
//!
//! A table slot is found from a 64-bit key. A cell coordinate packs into a key
//! with the column in the upper half and the row in the lower half; an entity
//! identifier is its own key. The hash is the identity on purpose: the table
//! relies on how cell coordinates and identifiers are spread, not on mixing.

use vstd::prelude::*;

verus! {

/// The key of the cell `(x, y)`: `x` in bits 32..64, `y` in bits 0..32.
pub open spec fn vector_key(x: u32, y: u32) -> int {
    x as int * 0x1_0000_0000 + y as int
}

/// The slot that `key` falls into in a table of `slots` slots.
pub open spec fn slot_index(key: int, slots: nat) -> int {
    key % slots as int
}

/// Packs a cell coordinate into a key.
#[inline]
pub fn vector_hash(x: u32, y: u32) -> (key: u64)
    ensures
        key as int == vector_key(x, y),
{
    let hi: u64 = (x as u64) << 32;
    let lo: u64 = y as u64;
    assert(hi == (x as u64) * 0x1_0000_0000) by (bit_vector)
        requires
            hi == (x as u64) << 32,
    ;
    assert(hi | lo == hi + lo) by (bit_vector)
        requires
            hi == (x as u64) << 32,
            lo == y as u64,
    ;
    hi | lo
}

/// The identity hash.
#[inline]
pub fn hash_u64(seed: u64) -> (hash: u64)
    ensures
        hash == seed,
{
    seed
}

} // verus!
