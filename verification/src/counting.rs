//! Counting the items of a sequence that satisfy a predicate.

use vstd::prelude::*;

verus! {

/// How many items of `s` satisfy `p`.
pub open spec fn count<T>(s: Seq<T>, p: spec_fn(T) -> bool) -> nat
    decreases s.len(),
{
    if s.len() == 0 {
        0
    } else {
        count(s.drop_last(), p) + if p(s.last()) {
            1nat
        } else {
            0nat
        }
    }
}

/// One more item counts where it satisfies `p`.
pub proof fn lemma_count_push<T>(s: Seq<T>, x: T, p: spec_fn(T) -> bool)
    ensures
        count(s.push(x), p) == count(s, p) + if p(x) {
            1nat
        } else {
            0nat
        },
{
    assert(s.push(x).drop_last() == s);
}

/// The count of a concatenation is the sum of the counts.
pub proof fn lemma_count_add<T>(a: Seq<T>, b: Seq<T>, p: spec_fn(T) -> bool)
    ensures
        count(a + b, p) == count(a, p) + count(b, p),
    decreases b.len(),
{
    if b.len() == 0 {
        assert(a + b == a);
    } else {
        lemma_count_add(a, b.drop_last(), p);
        assert((a + b).drop_last() == a + b.drop_last());
    }
}

/// The count, taken from the front.
pub proof fn lemma_count_front<T>(s: Seq<T>, p: spec_fn(T) -> bool)
    requires
        s.len() > 0,
    ensures
        count(s, p) == count(s.skip(1), p) + if p(s[0]) {
            1nat
        } else {
            0nat
        },
{
    let head = seq![s[0]];
    assert(head + s.skip(1) == s);
    lemma_count_add(head, s.skip(1), p);
    lemma_count_push(Seq::<T>::empty(), s[0], p);
    assert(Seq::<T>::empty().push(s[0]) == head);
}

/// Taking an item out lowers the count by one where the item satisfies `p`.
pub proof fn lemma_count_remove<T>(s: Seq<T>, i: int, p: spec_fn(T) -> bool)
    requires
        0 <= i < s.len(),
    ensures
        count(s.remove(i), p) + (if p(s[i]) {
            1nat
        } else {
            0nat
        }) == count(s, p),
{
    let before = s.take(i);
    let after = s.skip(i + 1);
    assert(before + after == s.remove(i));
    assert(before.push(s[i]) + after == s);
    lemma_count_add(before, after, p);
    lemma_count_add(before.push(s[i]), after, p);
    lemma_count_push(before, s[i], p);
}

/// The count is zero exactly where no item satisfies `p`, and never exceeds
/// the length.
pub proof fn lemma_count_zero<T>(s: Seq<T>, p: spec_fn(T) -> bool)
    ensures
        count(s, p) == 0 <==> forall|i: int| 0 <= i < s.len() ==> !p(#[trigger] s[i]),
        count(s, p) <= s.len(),
    decreases s.len(),
{
    if s.len() > 0 {
        let init = s.drop_last();
        lemma_count_zero(init, p);
        if count(s, p) == 0 {
            assert forall|i: int| 0 <= i < s.len() implies !p(#[trigger] s[i]) by {
                if i < init.len() {
                    assert(init[i] == s[i]);
                }
            }
        }
        if forall|i: int| 0 <= i < s.len() ==> !p(#[trigger] s[i]) {
            assert forall|i: int| 0 <= i < init.len() implies !p(#[trigger] init[i]) by {
                assert(init[i] == s[i]);
            }
            assert(!p(s[s.len() - 1]));
        }
    }
}

} // verus!
