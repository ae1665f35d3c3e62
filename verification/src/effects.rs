//! What writing into and taking out of the model leaves behind.
//!
//! The functions of the model go through cells one at a time. The lemmas here
//! say what holds of their results as a whole: which parts of the state stay
//! as they were, how often an identifier occurs in a bucket afterwards, and
//! which identifiers a query collects.

use vstd::prelude::*;
use crate::bucket::FIXED_SIZE;
use crate::counting::{lemma_count_front, lemma_count_push, lemma_count_zero};
use crate::entries::{
    carries,
    holds,
    lemma_holds_iff_occurs,
    lemma_without_first,
    occurrences,
    without_first,
};
use crate::model::{absorb, falls_in, is_id, take_entry, times, GridView};

verus! {

/// Every cell and every identifier has a slot.
pub proof fn lemma_slots_in_range(g: GridView, c: (u32, u32), id: u32)
    requires
        g.cells.len() > 0,
        g.maps.len() > 0,
    ensures
        0 <= g.cell_slot(c) < g.cells.len(),
        0 <= g.id_slot(id) < g.maps.len(),
{
}

/// Recording a cell changes the cell list of `id` and nothing else.
pub proof fn lemma_record(g: GridView, id: u32, c: (u32, u32))
    requires
        g.wf(),
        g.can_record(id),
    ensures
        g.record(id, c).wf(),
        g.record(id, c).same_shape(g),
        g.record(id, c).cells == g.cells,
        g.record(id, c).cell_list(id) == g.cell_list(id).push(c),
        forall|s: int|
            0 <= s < g.maps.len() && s != g.id_slot(id) ==> g.record(id, c).maps[s] == g.maps[s],
{
    lemma_slots_in_range(g, c, id);
}

/// Storing an entry changes the bucket of the cell and nothing else.
pub proof fn lemma_store(g: GridView, id: u32, single: bool, c: (u32, u32))
    requires
        g.wf(),
        g.can_store(c),
    ensures
        g.store(id, single, c).wf(),
        g.store(id, single, c).same_shape(g),
        g.store(id, single, c).maps == g.maps,
        g.store(id, single, c).bucket(c) == g.bucket(c).push((id, single)),
        forall|s: int|
            0 <= s < g.cells.len() && s != g.cell_slot(c) ==> g.store(id, single, c).cells[s]
                == g.cells[s],
{
    lemma_slots_in_range(g, c, id);
}

/// Writing an identifier into cells keeps the state well formed and its
/// shape, and among the cell lists touches only that of the identifier.
pub proof fn lemma_insert_cells_shape(g: GridView, id: u32, single: bool, cs: Seq<(u32, u32)>)
    requires
        g.wf(),
    ensures
        g.insert_cells(id, single, cs).0.wf(),
        g.insert_cells(id, single, cs).0.same_shape(g),
        forall|s: int|
            0 <= s < g.maps.len() && s != g.id_slot(id) ==> g.insert_cells(id, single, cs).0.maps[s]
                == g.maps[s],
    decreases cs.len(),
{
    if cs.len() == 0 {
    } else if !g.can_record(id) {
    } else {
        lemma_record(g, id, cs[0]);
        let recorded = g.record(id, cs[0]);
        if recorded.can_store(cs[0]) {
            lemma_store(recorded, id, single, cs[0]);
            let stored = recorded.store(id, single, cs[0]);
            lemma_insert_cells_shape(stored, id, single, cs.skip(1));
        }
    }
}

/// One more recorded cell is one more hit in the slot of that cell.
pub proof fn lemma_hits_push(g: GridView, recs: Seq<(u32, u32)>, c: (u32, u32), s: int)
    ensures
        g.hits(recs.push(c), s) == g.hits(recs, s) + if g.cell_slot(c) == s {
            1nat
        } else {
            0nat
        },
{
    lemma_count_push(recs, c, falls_in(g.cells.len(), s));
}

/// One more stored entry is one more occurrence of its identifier in the
/// bucket of the cell, and changes no other count.
pub proof fn lemma_store_occurrences(
    g: GridView,
    id: u32,
    single: bool,
    c: (u32, u32),
    other: u32,
    s: int,
)
    requires
        g.wf(),
        g.can_store(c),
        0 <= s < g.cells.len(),
    ensures
        occurrences(g.store(id, single, c).cells[s], other) == occurrences(g.cells[s], other) + if s
            == g.cell_slot(c) && other == id {
            1nat
        } else {
            0nat
        },
{
    lemma_store(g, id, single, c);
    if s == g.cell_slot(c) {
        lemma_count_push(g.bucket(c), (id, single), carries(other));
    }
}

/// Writing `id` into cells keeps every occurrence of `id` matched by a
/// recorded cell of the same slot.
pub proof fn lemma_insert_cells_at_most(g: GridView, id: u32, single: bool, cs: Seq<(u32, u32)>)
    requires
        g.wf(),
        g.at_most_recorded(id, g.cell_list(id)),
    ensures
        ({
            let after = g.insert_cells(id, single, cs).0;
            after.at_most_recorded(id, after.cell_list(id))
        }),
    decreases cs.len(),
{
    if cs.len() == 0 {
    } else if !g.can_record(id) {
    } else {
        let c = cs[0];
        lemma_record(g, id, c);
        let recorded = g.record(id, c);
        assert(recorded.at_most_recorded(id, recorded.cell_list(id))) by {
            assert forall|s: int| 0 <= s < recorded.cells.len() implies occurrences(
                #[trigger] recorded.cells[s],
                id,
            ) <= recorded.hits(recorded.cell_list(id), s) by {
                lemma_hits_push(g, g.cell_list(id), c, s);
            }
        }
        if recorded.can_store(c) {
            lemma_store(recorded, id, single, c);
            let stored = recorded.store(id, single, c);
            assert(stored.at_most_recorded(id, stored.cell_list(id))) by {
                assert forall|s: int| 0 <= s < stored.cells.len() implies occurrences(
                    #[trigger] stored.cells[s],
                    id,
                ) <= stored.hits(stored.cell_list(id), s) by {
                    lemma_hits_push(g, g.cell_list(id), c, s);
                    lemma_store_occurrences(recorded, id, single, c, id, s);
                }
            }
            lemma_insert_cells_at_most(stored, id, single, cs.skip(1));
        }
    }
}

/// Where all cells were written, the cell list of `id` has grown by them, in
/// order, and a state in which every recorded cell was matched by an
/// occurrence of `id` in its slot is still such a state.
pub proof fn lemma_insert_cells_done(g: GridView, id: u32, single: bool, cs: Seq<(u32, u32)>)
    requires
        g.wf(),
        g.insert_cells(id, single, cs).1,
    ensures
        ({
            let after = g.insert_cells(id, single, cs).0;
            &&& after.cell_list(id) == g.cell_list(id) + cs
            &&& g.at_least_recorded(id, g.cell_list(id)) ==> after.at_least_recorded(
                id,
                after.cell_list(id),
            )
        }),
    decreases cs.len(),
{
    if cs.len() == 0 {
        assert(g.cell_list(id) + cs == g.cell_list(id));
    } else {
        let c = cs[0];
        lemma_record(g, id, c);
        let recorded = g.record(id, c);
        lemma_store(recorded, id, single, c);
        let stored = recorded.store(id, single, c);
        lemma_insert_cells_done(stored, id, single, cs.skip(1));
        assert(g.cell_list(id).push(c) + cs.skip(1) == g.cell_list(id) + cs);
        if g.at_least_recorded(id, g.cell_list(id)) {
            assert(stored.at_least_recorded(id, stored.cell_list(id))) by {
                assert forall|s: int| 0 <= s < stored.cells.len() implies occurrences(
                    #[trigger] stored.cells[s],
                    id,
                ) >= stored.hits(stored.cell_list(id), s) by {
                    lemma_hits_push(g, g.cell_list(id), c, s);
                    lemma_store_occurrences(recorded, id, single, c, id, s);
                }
            }
        }
    }
}

/// Writing `id` into cells leaves the occurrences of every other identifier
/// as they were, and takes no identifier out of a bucket.
pub proof fn lemma_insert_cells_others(
    g: GridView,
    id: u32,
    single: bool,
    cs: Seq<(u32, u32)>,
    other: u32,
    s: int,
)
    requires
        g.wf(),
        0 <= s < g.cells.len(),
    ensures
        other != id ==> occurrences(g.insert_cells(id, single, cs).0.cells[s], other)
            == occurrences(g.cells[s], other),
        occurrences(g.insert_cells(id, single, cs).0.cells[s], other) >= occurrences(
            g.cells[s],
            other,
        ),
    decreases cs.len(),
{
    if cs.len() == 0 {
    } else if !g.can_record(id) {
    } else {
        let c = cs[0];
        lemma_record(g, id, c);
        let recorded = g.record(id, c);
        if recorded.can_store(c) {
            lemma_store(recorded, id, single, c);
            let stored = recorded.store(id, single, c);
            lemma_store_occurrences(recorded, id, single, c, other, s);
            lemma_insert_cells_others(stored, id, single, cs.skip(1), other, s);
        }
    }
}

/// Writing `id` with the flag `single` keeps a state in which every entry of
/// `id` has that flag such a state.
pub proof fn lemma_insert_cells_tags(g: GridView, id: u32, single: bool, cs: Seq<(u32, u32)>)
    requires
        g.wf(),
        g.tagged_as(id, single),
    ensures
        g.insert_cells(id, single, cs).0.tagged_as(id, single),
    decreases cs.len(),
{
    if cs.len() == 0 {
    } else if !g.can_record(id) {
    } else {
        let c = cs[0];
        lemma_record(g, id, c);
        let recorded = g.record(id, c);
        if recorded.can_store(c) {
            lemma_store(recorded, id, single, c);
            let stored = recorded.store(id, single, c);
            assert(stored.tagged_as(id, single)) by {
                assert forall|s: int, i: int|
                    0 <= s < stored.cells.len() && 0 <= i < stored.cells[s].len() && (
                    #[trigger] stored.cells[s][i]).0 == id implies stored.cells[s][i].1
                    == single by {
                    if s == recorded.cell_slot(c) && i < recorded.cells[s].len() {
                        assert(stored.cells[s][i] == recorded.cells[s][i]);
                    } else if s != recorded.cell_slot(c) {
                        assert(stored.cells[s][i] == recorded.cells[s][i]);
                    }
                }
            }
            lemma_insert_cells_tags(stored, id, single, cs.skip(1));
        }
    }
}

/// Where all cells were written, the bucket of each of them holds `id`.
pub proof fn lemma_insert_cells_indexed(g: GridView, id: u32, single: bool, cs: Seq<(u32, u32)>)
    requires
        g.wf(),
        g.insert_cells(id, single, cs).1,
    ensures
        forall|k: int|
            0 <= k < cs.len() ==> holds(
                g.insert_cells(id, single, cs).0.bucket(#[trigger] cs[k]),
                id,
            ),
    decreases cs.len(),
{
    if cs.len() > 0 {
        let c = cs[0];
        lemma_record(g, id, c);
        let recorded = g.record(id, c);
        lemma_store(recorded, id, single, c);
        let stored = recorded.store(id, single, c);
        let after = g.insert_cells(id, single, cs).0;
        lemma_insert_cells_indexed(stored, id, single, cs.skip(1));
        lemma_insert_cells_shape(stored, id, single, cs.skip(1));
        assert forall|k: int| 0 <= k < cs.len() implies holds(after.bucket(#[trigger] cs[k]), id) by {
            if k == 0 {
                let s = stored.cell_slot(c);
                lemma_slots_in_range(stored, c, id);
                lemma_store_occurrences(recorded, id, single, c, id, s);
                lemma_insert_cells_others(stored, id, single, cs.skip(1), id, s);
                lemma_holds_iff_occurs(after.cells[s], id);
            } else {
                assert(cs.skip(1)[k - 1] == cs[k]);
            }
        }
    }
}

/// Taking `id` out of the bucket of one cell changes that bucket and nothing
/// else, and keeps the state well formed.
pub proof fn lemma_lift(g: GridView, id: u32, c: (u32, u32))
    requires
        g.wf(),
    ensures
        g.lift(id, c).wf(),
        g.lift(id, c).same_shape(g),
        g.lift(id, c).maps == g.maps,
        g.lift(id, c).bucket(c) == without_first(g.bucket(c), id),
        forall|s: int|
            0 <= s < g.cells.len() && s != g.cell_slot(c) ==> g.lift(id, c).cells[s] == g.cells[s],
{
    lemma_slots_in_range(g, c, id);
    lemma_without_first(g.bucket(c), id, id);
}

/// Taking `id` out of the buckets of cells keeps the state well formed, its
/// shape and its cell lists.
pub proof fn lemma_remove_cells_shape(g: GridView, id: u32, recs: Seq<(u32, u32)>)
    requires
        g.wf(),
    ensures
        g.remove_cells(id, recs).0.wf(),
        g.remove_cells(id, recs).0.same_shape(g),
        g.remove_cells(id, recs).0.maps == g.maps,
    decreases recs.len(),
{
    if recs.len() > 0 {
        lemma_lift(g, id, recs[0]);
        lemma_remove_cells_shape(g.lift(id, recs[0]), id, recs.skip(1));
    }
}

/// Taking `id` out of the buckets of cells leaves the occurrences of every
/// other identifier as they were.
pub proof fn lemma_remove_cells_others(
    g: GridView,
    id: u32,
    recs: Seq<(u32, u32)>,
    other: u32,
    s: int,
)
    requires
        g.wf(),
        0 <= s < g.cells.len(),
        other != id,
    ensures
        occurrences(g.remove_cells(id, recs).0.cells[s], other) == occurrences(g.cells[s], other),
    decreases recs.len(),
{
    if recs.len() > 0 {
        let c = recs[0];
        lemma_lift(g, id, c);
        lemma_without_first(g.bucket(c), id, other);
        lemma_remove_cells_others(g.lift(id, c), id, recs.skip(1), other, s);
    }
}

/// Where `id` occurs in each slot at most as often as the cells `recs` fall
/// into it, taking `id` out for each of `recs` leaves no bucket that holds it.
pub proof fn lemma_remove_cells_clears(g: GridView, id: u32, recs: Seq<(u32, u32)>)
    requires
        g.wf(),
        g.at_most_recorded(id, recs),
    ensures
        g.remove_cells(id, recs).0.absent(id),
    decreases recs.len(),
{
    if recs.len() == 0 {
        assert forall|s: int| 0 <= s < g.cells.len() implies !holds(#[trigger] g.cells[s], id) by {
            lemma_holds_iff_occurs(g.cells[s], id);
        }
    } else {
        let c = recs[0];
        lemma_lift(g, id, c);
        let lifted = g.lift(id, c);
        assert(lifted.at_most_recorded(id, recs.skip(1))) by {
            assert forall|s: int| 0 <= s < lifted.cells.len() implies occurrences(
                #[trigger] lifted.cells[s],
                id,
            ) <= lifted.hits(recs.skip(1), s) by {
                lemma_count_front(recs, falls_in(g.cells.len(), s));
                lemma_without_first(g.bucket(c), id, id);
                lemma_holds_iff_occurs(g.bucket(c), id);
            }
        }
        lemma_remove_cells_clears(lifted, id, recs.skip(1));
    }
}

/// Each of the cells `recs` finds `id` in its bucket when its turn comes
/// exactly where `id` occurs in each slot at least as often as cells of
/// `recs` fall into it.
pub proof fn lemma_remove_cells_finds(g: GridView, id: u32, recs: Seq<(u32, u32)>)
    requires
        g.wf(),
    ensures
        g.remove_cells(id, recs).1 <==> g.at_least_recorded(id, recs),
    decreases recs.len(),
{
    if recs.len() == 0 {
        assert forall|s: int| 0 <= s < g.cells.len() implies g.hits(recs, s) == 0 by {}
    } else {
        let c = recs[0];
        lemma_lift(g, id, c);
        lemma_slots_in_range(g, c, id);
        let lifted = g.lift(id, c);
        let rest = recs.skip(1);
        lemma_remove_cells_finds(lifted, id, rest);
        lemma_count_front(recs, falls_in(g.cells.len(), g.cell_slot(c)));
        lemma_holds_iff_occurs(g.bucket(c), id);
        lemma_without_first(g.bucket(c), id, id);
        if g.at_least_recorded(id, recs) {
            assert(holds(g.bucket(c), id));
            assert forall|s: int| 0 <= s < lifted.cells.len() implies occurrences(
                #[trigger] lifted.cells[s],
                id,
            ) >= lifted.hits(rest, s) by {
                lemma_count_front(recs, falls_in(g.cells.len(), s));
            }
        }
        if holds(g.bucket(c), id) && lifted.at_least_recorded(id, rest) {
            assert forall|s: int| 0 <= s < g.cells.len() implies occurrences(
                #[trigger] g.cells[s],
                id,
            ) >= g.hits(recs, s) by {
                lemma_count_front(recs, falls_in(g.cells.len(), s));
                assert(occurrences(lifted.cells[s], id) >= lifted.hits(rest, s));
            }
        }
    }
}

/// All of the cells `cs` are written exactly where there is room for them,
/// and then each bucket has grown by one entry of `id` for each cell of `cs`
/// that falls into its slot.
pub proof fn lemma_insert_cells_room(g: GridView, id: u32, single: bool, cs: Seq<(u32, u32)>)
    requires
        g.wf(),
    ensures
        g.insert_cells(id, single, cs).1 <==> g.has_room_for(id, cs),
        g.insert_cells(id, single, cs).1 ==> forall|s: int|
            0 <= s < g.cells.len() ==> #[trigger] g.insert_cells(id, single, cs).0.cells[s]
                == g.cells[s] + Seq::new(g.hits(cs, s), |i: int| (id, single)),
    decreases cs.len(),
{
    lemma_slots_in_range(g, (0, 0), id);
    if cs.len() == 0 {
        assert forall|s: int| 0 <= s < g.cells.len() implies g.hits(cs, s) == 0 && g.cells[s]
            == g.cells[s] + Seq::new(g.hits(cs, s), |i: int| (id, single)) by {}
    } else {
        let c = cs[0];
        let rest = cs.skip(1);
        lemma_slots_in_range(g, c, id);
        lemma_count_front(cs, falls_in(g.cells.len(), g.cell_slot(c)));
        if g.can_record(id) {
            lemma_record(g, id, c);
            let recorded = g.record(id, c);
            if recorded.can_store(c) {
                lemma_store(recorded, id, single, c);
                let stored = recorded.store(id, single, c);
                let after = stored.insert_cells(id, single, rest).0;
                lemma_insert_cells_room(stored, id, single, rest);
                if stored.has_room_for(id, rest) {
                    assert forall|s: int| 0 <= s < g.cells.len() implies (#[trigger] g.cells[s]).len()
                        + g.hits(cs, s) <= FIXED_SIZE by {
                        lemma_count_front(cs, falls_in(g.cells.len(), s));
                        assert(stored.cells[s].len() + stored.hits(rest, s) <= FIXED_SIZE);
                    }
                }
                if g.has_room_for(id, cs) {
                    assert forall|s: int| 0 <= s < stored.cells.len() implies (
                    #[trigger] stored.cells[s]).len() + stored.hits(rest, s) <= FIXED_SIZE by {
                        lemma_count_front(cs, falls_in(g.cells.len(), s));
                        assert(g.cells[s].len() + g.hits(cs, s) <= FIXED_SIZE);
                    }
                }
                if stored.insert_cells(id, single, rest).1 {
                    assert forall|s: int| 0 <= s < g.cells.len() implies #[trigger] after.cells[s]
                        == g.cells[s] + Seq::new(g.hits(cs, s), |i: int| (id, single)) by {
                        lemma_count_front(cs, falls_in(g.cells.len(), s));
                        assert(after.cells[s] == stored.cells[s] + Seq::new(
                            stored.hits(rest, s),
                            |i: int| (id, single),
                        ));
                        assert(after.cells[s] =~= g.cells[s] + Seq::new(
                            g.hits(cs, s),
                            |i: int| (id, single),
                        ));
                    }
                }
            } else {
                assert(g.cells[g.cell_slot(c)].len() + g.hits(cs, g.cell_slot(c)) > FIXED_SIZE);
            }
        }
    }
}

/// An identifier is among `ids` exactly where it occurs there at least once.
pub proof fn lemma_times_contains(ids: Seq<u32>, id: u32)
    ensures
        ids.contains(id) <==> times(ids, id) > 0,
{
    lemma_count_zero(ids, is_id(id));
    if ids.contains(id) {
        let i = choose|i: int| 0 <= i < ids.len() && ids[i] == id;
        assert(is_id(id)(ids[i]));
    }
    if times(ids, id) > 0 {
        let i = choose|i: int| 0 <= i < ids.len() && is_id(id)(#[trigger] ids[i]);
        assert(ids[i] == id);
    }
}

/// What one bucket entry does to how often `id` was collected: an entry of
/// another identifier does nothing; an entry of `id` adds one where it is
/// taken without a look, and otherwise makes the count one where it was zero.
pub proof fn lemma_take_entry(acc: Seq<u32>, entry: (u32, bool), single: bool, id: u32)
    ensures
        entry.0 != id ==> times(take_entry(acc, entry, single), id) == times(acc, id),
        entry.0 == id && (entry.1 || single) ==> times(take_entry(acc, entry, single), id) == times(
            acc,
            id,
        ) + 1,
        entry.0 == id && !entry.1 && !single ==> times(take_entry(acc, entry, single), id) == if times(
            acc,
            id,
        ) == 0 {
            1nat
        } else {
            times(acc, id)
        },
{
    lemma_count_push(acc, entry.0, is_id(id));
    lemma_times_contains(acc, id);
}

/// After a bucket is gone through, `id` is among the collected identifiers
/// exactly where it was before or the bucket holds it.
pub proof fn lemma_absorb_contains(acc: Seq<u32>, bucket: Seq<(u32, bool)>, single: bool, id: u32)
    ensures
        absorb(acc, bucket, single).contains(id) <==> acc.contains(id) || holds(bucket, id),
    decreases bucket.len(),
{
    if bucket.len() > 0 {
        let next = take_entry(acc, bucket[0], single);
        let rest = bucket.skip(1);
        lemma_absorb_contains(next, rest, single, id);
        lemma_take_entry(acc, bucket[0], single, id);
        lemma_times_contains(acc, id);
        lemma_times_contains(next, id);
        if holds(bucket, id) {
            let i = choose|i: int| 0 <= i < bucket.len() && (#[trigger] bucket[i]).0 == id;
            if i > 0 {
                assert(rest[i - 1] == bucket[i]);
            }
        }
        if holds(rest, id) {
            let i = choose|i: int| 0 <= i < rest.len() && (#[trigger] rest[i]).0 == id;
            assert(bucket[i + 1] == rest[i]);
        }
    }
}

/// A query of a single cell takes every entry: each occurrence of `id` in the
/// bucket is one more occurrence among the collected identifiers.
pub proof fn lemma_absorb_single(acc: Seq<u32>, bucket: Seq<(u32, bool)>, id: u32)
    ensures
        times(absorb(acc, bucket, true), id) == times(acc, id) + occurrences(bucket, id),
    decreases bucket.len(),
{
    if bucket.len() > 0 {
        lemma_take_entry(acc, bucket[0], true, id);
        lemma_absorb_single(take_entry(acc, bucket[0], true), bucket.skip(1), id);
        lemma_count_front(bucket, carries(id));
    }
}

/// A query of several cells collects `id` at most once from a bucket in which
/// no entry of `id` has the single-cell flag.
pub proof fn lemma_absorb_once(acc: Seq<u32>, bucket: Seq<(u32, bool)>, id: u32)
    requires
        times(acc, id) <= 1,
        forall|i: int| 0 <= i < bucket.len() && (#[trigger] bucket[i]).0 == id ==> !bucket[i].1,
    ensures
        times(absorb(acc, bucket, false), id) <= 1,
    decreases bucket.len(),
{
    if bucket.len() > 0 {
        let rest = bucket.skip(1);
        lemma_take_entry(acc, bucket[0], false, id);
        assert forall|i: int| 0 <= i < rest.len() && (#[trigger] rest[i]).0 == id implies !rest[i].1 by {
            assert(rest[i] == bucket[i + 1]);
        }
        lemma_absorb_once(take_entry(acc, bucket[0], false), rest, id);
    }
}

/// After the buckets of the cells `cs` are gone through, `id` is among the
/// collected identifiers exactly where it was before or one of those buckets
/// holds it.
pub proof fn lemma_gather_contains(
    g: GridView,
    cs: Seq<(u32, u32)>,
    single: bool,
    acc: Seq<u32>,
    id: u32,
)
    ensures
        g.gather(cs, single, acc).contains(id) <==> acc.contains(id) || exists|k: int|
            0 <= k < cs.len() && holds(g.bucket(#[trigger] cs[k]), id),
    decreases cs.len(),
{
    if cs.len() > 0 {
        let next = absorb(acc, g.bucket(cs[0]), single);
        let rest = cs.skip(1);
        lemma_absorb_contains(acc, g.bucket(cs[0]), single, id);
        lemma_gather_contains(g, rest, single, next, id);
        if exists|k: int| 0 <= k < cs.len() && holds(g.bucket(#[trigger] cs[k]), id) {
            let k = choose|k: int| 0 <= k < cs.len() && holds(g.bucket(#[trigger] cs[k]), id);
            if k > 0 {
                assert(rest[k - 1] == cs[k]);
            }
        }
        if exists|k: int| 0 <= k < rest.len() && holds(g.bucket(#[trigger] rest[k]), id) {
            let k = choose|k: int| 0 <= k < rest.len() && holds(g.bucket(#[trigger] rest[k]), id);
            assert(cs[k + 1] == rest[k]);
        }
    }
}

/// A query of several cells collects `id` at most once where no entry of `id`
/// in the grid has the single-cell flag.
pub proof fn lemma_gather_once(g: GridView, cs: Seq<(u32, u32)>, acc: Seq<u32>, id: u32)
    requires
        g.cells.len() > 0,
        g.tagged_as(id, false),
        times(acc, id) <= 1,
    ensures
        times(g.gather(cs, false, acc), id) <= 1,
    decreases cs.len(),
{
    if cs.len() > 0 {
        assert(0 <= g.cell_slot(cs[0]) < g.cells.len());
        lemma_absorb_once(acc, g.bucket(cs[0]), id);
        lemma_gather_once(g, cs.skip(1), absorb(acc, g.bucket(cs[0]), false), id);
    }
}

} // verus!
