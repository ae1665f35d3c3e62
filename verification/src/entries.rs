//! What a bucket holds, as a sequence of tagged identifiers.
//!
//! An entry is a pair of an identifier and a flag: the flag is set where the
//! entity's rectangle fits in a single cell, so that the identifier can be
//! stored in no other bucket.

use vstd::prelude::*;
use crate::counting::{count, lemma_count_remove, lemma_count_zero};

verus! {

/// The entries that carry `id`.
pub open spec fn carries(id: u32) -> spec_fn((u32, bool)) -> bool {
    |entry: (u32, bool)| entry.0 == id
}

/// Some entry of `bucket` carries `id`.
pub open spec fn holds(bucket: Seq<(u32, bool)>, id: u32) -> bool {
    exists|i: int| 0 <= i < bucket.len() && (#[trigger] bucket[i]).0 == id
}

/// How many entries of `bucket` carry `id`.
pub open spec fn occurrences(bucket: Seq<(u32, bool)>, id: u32) -> nat {
    count(bucket, carries(id))
}

/// The index of the first entry of `bucket` that carries `id`; the length of
/// `bucket` where none does.
pub open spec fn first_position(bucket: Seq<(u32, bool)>, id: u32) -> int
    decreases bucket.len(),
{
    if bucket.len() == 0 || bucket[0].0 == id {
        0
    } else {
        1 + first_position(bucket.skip(1), id)
    }
}

/// `bucket` without the first entry that carries `id`; `bucket` itself where
/// none does.
pub open spec fn without_first(bucket: Seq<(u32, bool)>, id: u32) -> Seq<(u32, bool)> {
    if holds(bucket, id) {
        bucket.remove(first_position(bucket, id))
    } else {
        bucket
    }
}

/// `first_position` is the least index whose entry carries `id`.
pub proof fn lemma_first_position(bucket: Seq<(u32, bool)>, id: u32)
    ensures
        0 <= first_position(bucket, id) <= bucket.len(),
        forall|j: int| 0 <= j < first_position(bucket, id) ==> (#[trigger] bucket[j]).0 != id,
        first_position(bucket, id) < bucket.len() ==> bucket[first_position(bucket, id)].0 == id,
        holds(bucket, id) <==> first_position(bucket, id) < bucket.len(),
    decreases bucket.len(),
{
    if bucket.len() == 0 || bucket[0].0 == id {
    } else {
        let rest = bucket.skip(1);
        lemma_first_position(rest, id);
        let p = first_position(rest, id);
        assert forall|j: int| 0 <= j < 1 + p implies (#[trigger] bucket[j]).0 != id by {
            if j > 0 {
                assert(bucket[j] == rest[j - 1]);
            }
        }
        if p < rest.len() {
            assert(bucket[1 + p] == rest[p]);
        }
        if holds(bucket, id) {
            let i = choose|i: int| 0 <= i < bucket.len() && (#[trigger] bucket[i]).0 == id;
            assert(rest[i - 1] == bucket[i]);
        }
    }
}

/// An index below which no entry carries `id`, and which is the end of the
/// bucket or the place of such an entry, is `first_position`.
pub proof fn lemma_first_position_is(bucket: Seq<(u32, bool)>, id: u32, i: int)
    requires
        0 <= i <= bucket.len(),
        forall|j: int| 0 <= j < i ==> (#[trigger] bucket[j]).0 != id,
        i < bucket.len() ==> bucket[i].0 == id,
    ensures
        first_position(bucket, id) == i,
{
    lemma_first_position(bucket, id);
    let p = first_position(bucket, id);
    if p < i {
        assert(bucket[p].0 != id);
    } else if i < p {
        assert(bucket[i].0 != id);
    }
}

/// A bucket holds `id` exactly where `id` occurs in it at least once.
pub proof fn lemma_holds_iff_occurs(bucket: Seq<(u32, bool)>, id: u32)
    ensures
        holds(bucket, id) <==> occurrences(bucket, id) > 0,
        occurrences(bucket, id) <= bucket.len(),
{
    lemma_count_zero(bucket, carries(id));
    if holds(bucket, id) {
        let i = choose|i: int| 0 <= i < bucket.len() && (#[trigger] bucket[i]).0 == id;
        assert(carries(id)(bucket[i]));
    }
    if occurrences(bucket, id) > 0 {
        let i = choose|i: int| 0 <= i < bucket.len() && carries(id)(#[trigger] bucket[i]);
        assert(bucket[i].0 == id);
    }
}

/// Taking out the first entry that carries `id` lowers the occurrences of
/// `id` by one where there are any, keeps those of every other identifier,
/// and never lengthens the bucket.
pub proof fn lemma_without_first(bucket: Seq<(u32, bool)>, id: u32, other: u32)
    ensures
        occurrences(without_first(bucket, id), id) == if holds(bucket, id) {
            occurrences(bucket, id) - 1
        } else {
            0
        },
        other != id ==> occurrences(without_first(bucket, id), other) == occurrences(bucket, other),
        without_first(bucket, id).len() <= bucket.len(),
{
    lemma_first_position(bucket, id);
    lemma_holds_iff_occurs(bucket, id);
    if holds(bucket, id) {
        let p = first_position(bucket, id);
        lemma_count_remove(bucket, p, carries(id));
        lemma_count_remove(bucket, p, carries(other));
    }
}

} // verus!
