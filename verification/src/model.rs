//! The mathematical model of the grid.
//!
//! A grid is two tables and a shift. The cell index maps the slot of a cell to
//! a bucket of tagged identifiers; the reverse map maps the slot of an
//! identifier to the list of cells that were written for it. Both tables are
//! direct-mapped, so cells (and identifiers) that fall into one slot share a
//! bucket. What `insert`, `delete` and `query` do is defined here as functions
//! on this model, one cell at a time in the order in which cells are walked.

use vstd::prelude::*;
use crate::bucket::FIXED_SIZE;
use crate::counting::count;
use crate::entries::{holds, occurrences, without_first};
use crate::geometry::{CellSpan, Entity, Query};
use crate::hashing::{slot_index, vector_key};

verus! {

/// The state of a grid.
pub struct GridView {
    /// The buckets of the cell index, by slot.
    pub cells: Seq<Seq<(u32, bool)>>,
    /// The cell lists of the reverse map, by slot.
    pub maps: Seq<Seq<(u32, u32)>>,
    /// The cell size is `2^shift`.
    pub shift: u32,
}

/// The identifiers collected so far, after one more bucket entry is seen.
/// An entry is taken without a look at `acc` where nothing can have
/// contributed its identifier before: its entity lives in one cell only, or
/// the query visits one cell only. Otherwise it is taken unless `acc` has it.
pub open spec fn take_entry(acc: Seq<u32>, entry: (u32, bool), single: bool) -> Seq<u32> {
    if entry.1 || single || !acc.contains(entry.0) {
        acc.push(entry.0)
    } else {
        acc
    }
}

/// The identifiers collected after the entries of `bucket` are seen in order.
pub open spec fn absorb(acc: Seq<u32>, bucket: Seq<(u32, bool)>, single: bool) -> Seq<u32>
    decreases bucket.len(),
{
    if bucket.len() == 0 {
        acc
    } else {
        absorb(take_entry(acc, bucket[0], single), bucket.skip(1), single)
    }
}

/// The cells that fall into the slot `s` of a cell index of `slots` slots.
pub open spec fn falls_in(slots: nat, s: int) -> spec_fn((u32, u32)) -> bool {
    |c: (u32, u32)| slot_index(vector_key(c.0, c.1), slots) == s
}

/// The identifiers equal to `id`.
pub open spec fn is_id(id: u32) -> spec_fn(u32) -> bool {
    |other: u32| other == id
}

/// How often `id` occurs among `ids`.
pub open spec fn times(ids: Seq<u32>, id: u32) -> nat {
    count(ids, is_id(id))
}

impl GridView {
    /// How many of the cells `cs` fall into the slot `s` of the cell index.
    pub open spec fn hits(self, cs: Seq<(u32, u32)>, s: int) -> nat {
        count(cs, falls_in(self.cells.len(), s))
    }

    /// The two states have tables of the same sizes and the same shift.
    pub open spec fn same_shape(self, other: GridView) -> bool {
        &&& self.cells.len() == other.cells.len()
        &&& self.maps.len() == other.maps.len()
        &&& self.shift == other.shift
    }

    /// Every entry that carries `id`, in whatever bucket, has the flag `single`.
    pub open spec fn tagged_as(self, id: u32, single: bool) -> bool {
        forall|s: int, i: int|
            0 <= s < self.cells.len() && 0 <= i < self.cells[s].len() && (
            #[trigger] self.cells[s][i]).0 == id ==> self.cells[s][i].1 == single
    }

    /// In every slot, `id` occurs at most as often as the cells `recs` fall
    /// into the slot.
    pub open spec fn at_most_recorded(self, id: u32, recs: Seq<(u32, u32)>) -> bool {
        forall|s: int|
            0 <= s < self.cells.len() ==> occurrences(#[trigger] self.cells[s], id) <= self.hits(
                recs,
                s,
            )
    }

    /// In every slot, `id` occurs at least as often as the cells `recs` fall
    /// into the slot.
    pub open spec fn at_least_recorded(self, id: u32, recs: Seq<(u32, u32)>) -> bool {
        forall|s: int|
            0 <= s < self.cells.len() ==> occurrences(#[trigger] self.cells[s], id) >= self.hits(
                recs,
                s,
            )
    }

    /// Both tables have slots, the shift is a valid shift of a coordinate, and
    /// no bucket holds more than `FIXED_SIZE` items.
    pub open spec fn wf(self) -> bool {
        &&& self.cells.len() > 0
        &&& self.maps.len() > 0
        &&& self.shift < 32
        &&& forall|s: int|
            0 <= s < self.cells.len() ==> (#[trigger] self.cells[s]).len() <= FIXED_SIZE
        &&& forall|s: int| 0 <= s < self.maps.len() ==> (#[trigger] self.maps[s]).len() <= FIXED_SIZE
    }

    /// The slot of the cell `c` in the cell index.
    pub open spec fn cell_slot(self, c: (u32, u32)) -> int {
        slot_index(vector_key(c.0, c.1), self.cells.len())
    }

    /// The slot of `id` in the reverse map.
    pub open spec fn id_slot(self, id: u32) -> int {
        slot_index(id as int, self.maps.len())
    }

    /// The bucket that the cell `c` falls into.
    pub open spec fn bucket(self, c: (u32, u32)) -> Seq<(u32, bool)> {
        self.cells[self.cell_slot(c)]
    }

    /// The cells recorded for `id`.
    pub open spec fn cell_list(self, id: u32) -> Seq<(u32, u32)> {
        self.maps[self.id_slot(id)]
    }

    /// The bucket of some cell of `span` holds `id`.
    pub open spec fn reaches(self, span: CellSpan, id: u32) -> bool {
        exists|c: (u32, u32)| span.covers(c) && holds(#[trigger] self.bucket(c), id)
    }

    /// No bucket holds `id`.
    pub open spec fn absent(self, id: u32) -> bool {
        forall|s: int| 0 <= s < self.cells.len() ==> !holds(#[trigger] self.cells[s], id)
    }

    /// Every bucket and every cell list is empty.
    pub open spec fn is_empty(self) -> bool {
        &&& forall|s: int| 0 <= s < self.cells.len() ==> (#[trigger] self.cells[s]).len() == 0
        &&& forall|s: int| 0 <= s < self.maps.len() ==> (#[trigger] self.maps[s]).len() == 0
    }

    /// The same tables with every bucket and every cell list emptied.
    pub open spec fn cleared(self) -> GridView {
        GridView {
            cells: Seq::new(self.cells.len(), |s: int| Seq::empty()),
            maps: Seq::new(self.maps.len(), |s: int| Seq::empty()),
            shift: self.shift,
        }
    }

    /// The cell list of `id` has room for one more cell.
    pub open spec fn can_record(self, id: u32) -> bool {
        self.cell_list(id).len() < FIXED_SIZE
    }

    /// The bucket of the cell `c` has room for one more entry.
    pub open spec fn can_store(self, c: (u32, u32)) -> bool {
        self.bucket(c).len() < FIXED_SIZE
    }

    /// The cell list of `id` has room for all of the cells `cs`, and every
    /// bucket has room for as many entries as cells of `cs` fall into its slot.
    pub open spec fn has_room_for(self, id: u32, cs: Seq<(u32, u32)>) -> bool {
        &&& self.cell_list(id).len() + cs.len() <= FIXED_SIZE
        &&& forall|s: int|
            0 <= s < self.cells.len() ==> (#[trigger] self.cells[s]).len() + self.hits(cs, s)
                <= FIXED_SIZE
    }

    /// The cell `c` appended to the cell list of `id`.
    pub open spec fn record(self, id: u32, c: (u32, u32)) -> GridView {
        GridView { maps: self.maps.update(self.id_slot(id), self.cell_list(id).push(c)), ..self }
    }

    /// The entry `(id, single)` appended to the bucket of the cell `c`.
    pub open spec fn store(self, id: u32, single: bool, c: (u32, u32)) -> GridView {
        GridView {
            cells: self.cells.update(self.cell_slot(c), self.bucket(c).push((id, single))),
            ..self
        }
    }

    /// The state after `id` is written into the cells `cs` in order, and
    /// whether all of them were written. Each cell is first recorded in the
    /// cell list of `id` and then gets the entry in its bucket; the first
    /// list or bucket that is full ends the writing, and what was written
    /// before stays.
    pub open spec fn insert_cells(self, id: u32, single: bool, cs: Seq<(u32, u32)>) -> (
        GridView,
        bool,
    )
        decreases cs.len(),
    {
        if cs.len() == 0 {
            (self, true)
        } else if !self.can_record(id) {
            (self, false)
        } else if !self.can_store(cs[0]) {
            (self.record(id, cs[0]), false)
        } else {
            self.record(id, cs[0]).store(id, single, cs[0]).insert_cells(id, single, cs.skip(1))
        }
    }

    /// The state after `entity` is inserted, and whether it was inserted in
    /// full.
    pub open spec fn insert(self, entity: Entity) -> (GridView, bool) {
        let span = entity.span(self.shift);
        self.insert_cells(entity.id, span.is_single(), span.cells())
    }

    /// The bucket of the cell `c` without its first entry that carries `id`.
    pub open spec fn lift(self, id: u32, c: (u32, u32)) -> GridView {
        GridView {
            cells: self.cells.update(self.cell_slot(c), without_first(self.bucket(c), id)),
            ..self
        }
    }

    /// The state after `id` is taken out of the buckets of the cells `recs`,
    /// one entry for each cell in order, and whether each of those buckets
    /// held `id` when its turn came.
    pub open spec fn remove_cells(self, id: u32, recs: Seq<(u32, u32)>) -> (GridView, bool)
        decreases recs.len(),
    {
        if recs.len() == 0 {
            (self, true)
        } else {
            let rest = self.lift(id, recs[0]).remove_cells(id, recs.skip(1));
            (rest.0, holds(self.bucket(recs[0]), id) && rest.1)
        }
    }

    /// The cell list of `id` emptied.
    pub open spec fn forget(self, id: u32) -> GridView {
        GridView { maps: self.maps.update(self.id_slot(id), Seq::empty()), ..self }
    }

    /// The state after `id` is deleted, and whether it was found: cells were
    /// recorded for it, and each of their buckets held it. Found or not, the
    /// recorded cells are gone through and the cell list ends up empty.
    pub open spec fn delete(self, id: u32) -> (GridView, bool) {
        let removed = self.remove_cells(id, self.cell_list(id));
        (removed.0.forget(id), self.cell_list(id).len() > 0 && removed.1)
    }

    /// The identifiers collected after the buckets of the cells `cs` are gone
    /// through in order, starting from `acc`.
    pub open spec fn gather(self, cs: Seq<(u32, u32)>, single: bool, acc: Seq<u32>) -> Seq<u32>
        decreases cs.len(),
    {
        if cs.len() == 0 {
            acc
        } else {
            self.gather(cs.skip(1), single, absorb(acc, self.bucket(cs[0]), single))
        }
    }

    /// The identifiers that a query over `query` returns, in order.
    pub open spec fn query(self, query: Query) -> Seq<u32> {
        let span = query.span(self.shift);
        self.gather(span.cells(), span.is_single(), Seq::empty())
    }
}

} // verus!
