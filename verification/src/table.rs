//! A fixed-size, direct-mapped table.
//!
//! The table owns a sequence of slots whose length is fixed when the table is
//! made. A key selects the slot `key mod slot count`; nothing resolves
//! collisions, so two keys that are congruent modulo the slot count share a
//! slot. The view of a table is the sequence of its slots.

use vstd::prelude::*;
use vstd::arithmetic::power2::is_pow2;
use crate::hashing::{hash_u64, slot_index, vector_hash, vector_key};

verus! {

/// How many slots are set aside for each unit of the size hint, before rounding.
pub const SLOTS_PER_UNIT: usize = 1000;

/// How far `p` is below `n`.
pub open spec fn shortfall(p: nat, n: nat) -> nat {
    if p < n {
        (n - p) as nat
    } else {
        0
    }
}

/// `p` doubled until it reaches `n`; `p` itself where it is zero or already there.
pub open spec fn doubled_until(p: nat, n: nat) -> nat
    decreases shortfall(p, n),
{
    if p == 0 || p >= n {
        p
    } else {
        doubled_until(2 * p, n)
    }
}

/// The smallest power of two that is at least `n` (1 for `n == 0`).
pub open spec fn next_power_of_two(n: nat) -> nat {
    doubled_until(1, n)
}

/// The number of slots of a table made with the size hint `size`.
pub open spec fn slot_count(size: nat) -> nat {
    next_power_of_two(size * SLOTS_PER_UNIT as nat) + 1
}

proof fn lemma_doubled_until(p: nat, n: nat)
    requires
        is_pow2(p as int),
    ensures
        is_pow2(doubled_until(p, n) as int),
        doubled_until(p, n) >= p,
        doubled_until(p, n) >= n,
        p < n ==> doubled_until(p, n) < 2 * n,
        p < n ==> doubled_until(p, n) >= 2 * p,
    decreases shortfall(p, n),
{
    reveal(is_pow2);
    if p < n {
        lemma_doubled_until(2 * p, n);
    }
}

/// `next_power_of_two(n)` is a power of two, is at least `n`, and is the least
/// such: it stays below `2 * n`.
pub proof fn lemma_next_power_of_two(n: nat)
    ensures
        is_pow2(next_power_of_two(n) as int),
        next_power_of_two(n) >= n,
        next_power_of_two(n) >= 1,
        n >= 1 ==> next_power_of_two(n) < 2 * n,
{
    reveal(is_pow2);
    lemma_doubled_until(1, n);
}

/// A table has at least two slots, more slots than `SLOTS_PER_UNIT` times the
/// size hint, and at most about twice as many.
pub proof fn lemma_slot_count_bounds(size: nat)
    ensures
        slot_count(size) >= 2,
        slot_count(size) > size * SLOTS_PER_UNIT as nat,
        slot_count(size) <= 2 * (size * SLOTS_PER_UNIT as nat) + 2,
{
    lemma_next_power_of_two(size * SLOTS_PER_UNIT as nat);
}

/// The smallest power of two that is at least `n`.
pub fn round_up_to_power_of_two(n: usize) -> (p: usize)
    requires
        next_power_of_two(n as nat) <= usize::MAX,
    ensures
        p == next_power_of_two(n as nat),
{
    let mut p: usize = 1;
    proof {
        reveal(is_pow2);
    }
    while p < n
        invariant
            is_pow2(p as int),
            doubled_until(p as nat, n as nat) == next_power_of_two(n as nat),
            next_power_of_two(n as nat) <= usize::MAX,
        decreases shortfall(p as nat, n as nat),
    {
        proof {
            reveal(is_pow2);
            lemma_doubled_until(p as nat, n as nat);
        }
        p = 2 * p;
    }
    p
}

/// A fixed-size hash table without collision resolution.
#[derive(Debug, Clone)]
pub struct Table<T: Default + Clone> {
    entries: Vec<T>,
}

impl<T: Default + Clone> Table<T> {
    /// The slots, in order.
    pub closed spec fn view(&self) -> Seq<T> {
        self.entries@
    }

    /// A table has at least one slot, so every key has a slot.
    pub open spec fn wf(&self) -> bool {
        self@.len() > 0
    }

    /// `value` is a value that `T::default()` may return.
    pub open spec fn is_default(value: T) -> bool {
        call_ensures(T::default, (), value)
    }

    /// The slot of `key` in this table.
    pub open spec fn slot_of(&self, key: int) -> int {
        slot_index(key, self@.len())
    }

    /// Create a new table for about `size` keys: `slot_count(size)` slots, each
    /// holding a default value.
    pub fn new(size: usize) -> (table: Self)
        requires
            slot_count(size as nat) <= usize::MAX,
        ensures
            table.wf(),
            table@.len() == slot_count(size as nat),
            forall|i: int| 0 <= i < table@.len() ==> Self::is_default(#[trigger] table@[i]),
    {
        proof {
            lemma_next_power_of_two(size as nat * SLOTS_PER_UNIT as nat);
        }
        let slots: usize = round_up_to_power_of_two(size * SLOTS_PER_UNIT) + 1;
        let mut entries: Vec<T> = Vec::with_capacity(slots);
        while entries.len() < slots
            invariant
                entries@.len() <= slots,
                forall|i: int| 0 <= i < entries@.len() ==> Self::is_default(#[trigger] entries@[i]),
            decreases slots - entries@.len(),
        {
            entries.push(T::default());
        }
        Self { entries }
    }

    /// Get entry number.
    pub fn count(&self) -> (n: usize)
        ensures
            n == self@.len(),
    {
        self.entries.len()
    }

    /// The slot that the key `idx` selects.
    #[inline(always)]
    pub fn index(&self, idx: u64) -> (i: usize)
        requires
            self.wf(),
        ensures
            i as int == self.slot_of(idx as int),
            i < self@.len(),
    {
        (hash_u64(idx) % self.entries.len() as u64) as usize
    }

    /// Get a mutable reference to an entry from a 2D key.
    #[inline(always)]
    pub fn get_vector_mut(&mut self, x: u32, y: u32) -> (entry: &mut T)
        requires
            old(self).wf(),
        ensures
            *entry == old(self)@[old(self).slot_of(vector_key(x, y))],
            final(self)@ == old(self)@.update(old(self).slot_of(vector_key(x, y)), *final(entry)),
    {
        let idx = self.index(vector_hash(x, y));
        &mut self.entries[idx]
    }

    /// Get a reference to an entry from a 2D key.
    #[inline(always)]
    pub fn get_vector(&self, x: u32, y: u32) -> (entry: &T)
        requires
            self.wf(),
        ensures
            *entry == self@[self.slot_of(vector_key(x, y))],
    {
        let idx = self.index(vector_hash(x, y));
        &self.entries[idx]
    }

    /// Get a reference to an entry from a scalar key.
    #[inline(always)]
    pub fn get_scalar(&self, s: u32) -> (entry: &T)
        requires
            self.wf(),
        ensures
            *entry == self@[self.slot_of(s as int)],
    {
        let idx = self.index(hash_u64(s as u64));
        &self.entries[idx]
    }

    /// Get a mutable reference to an entry from a scalar key.
    #[inline(always)]
    pub fn get_scalar_mut(&mut self, s: u32) -> (entry: &mut T)
        requires
            old(self).wf(),
        ensures
            *entry == old(self)@[old(self).slot_of(s as int)],
            final(self)@ == old(self)@.update(old(self).slot_of(s as int), *final(entry)),
    {
        let idx = self.index(hash_u64(s as u64));
        &mut self.entries[idx]
    }

    /// Clear the table: every slot goes back to a default value. The slots
    /// themselves stay, so the table can be used again at once.
    pub fn clear(&mut self)
        ensures
            final(self)@.len() == old(self)@.len(),
            forall|i: int| 0 <= i < final(self)@.len() ==> Self::is_default(#[trigger] final(self)@[i]),
    {
        let n = self.entries.len();
        let mut i: usize = 0;
        while i < n
            invariant
                i <= n,
                self.entries@.len() == n,
                forall|j: int| 0 <= j < i ==> Self::is_default(#[trigger] self.entries@[j]),
            decreases n - i,
        {
            self.entries[i] = T::default();
            i += 1;
        }
    }
}

} // verus!
