//! The spatial hash grid.

use vstd::prelude::*;
use crate::bucket::{CellList, Entry};
use crate::entries::{holds, lemma_first_position};
use crate::error::{CapacityExceeded, NotFound};
use crate::geometry::{lemma_cells_from, Entity, Query};
use crate::laws::{law_delete_finds, law_insert_in_full, law_query_returns_what_it_reaches};
use crate::model::{absorb, GridView};
use crate::table::{slot_count, Table};

verus! {

/// Spatial hash grid implementation.
#[derive(Debug, Clone)]
pub struct Grid {
    grid: Table<Entry>,
    maps: Table<CellList>,
    shift: u32,
}

/// Whether `ids` has `id`.
fn contains_id(ids: &Vec<u32>, id: u32) -> (found: bool)
    ensures
        found == ids@.contains(id),
{
    let mut i: usize = 0;
    while i < ids.len()
        invariant
            i <= ids@.len(),
            forall|j: int| 0 <= j < i ==> ids@[j] != id,
        decreases ids@.len() - i,
    {
        if ids[i] == id {
            return true;
        }
        i += 1;
    }
    false
}

impl Grid {
    /// The state of the grid.
    pub closed spec fn view(&self) -> GridView {
        GridView {
            cells: self.grid@.map_values(|entry: Entry| entry@),
            maps: self.maps@.map_values(|list: CellList| list@),
            shift: self.shift,
        }
    }

    /// The state of the grid is well formed.
    pub open spec fn wf(&self) -> bool {
        self@.wf()
    }

    /// Create a new grid with a fixed bucket size and cell size: both tables
    /// get `slot_count(size)` empty slots, and cells are `2^shift` wide.
    pub fn new(size: usize, shift: u32) -> (grid: Self)
        requires
            slot_count(size as nat) <= usize::MAX,
            shift < 32,
        ensures
            grid.wf(),
            grid@.is_empty(),
            grid@.cells.len() == slot_count(size as nat),
            grid@.maps.len() == slot_count(size as nat),
            grid@.shift == shift,
    {
        Self { grid: Table::new(size), maps: Table::new(size), shift }
    }

    /// Get size of internal tables: the number of slots of the cell index,
    /// which no operation changes.
    pub fn count(&self) -> (n: usize)
        ensures
            n == self@.cells.len(),
    {
        self.grid.count()
    }

    /// Records the cell `(x, y)` for `id` and stores the entry in its bucket,
    /// as far as there is room.
    fn place(&mut self, id: u32, single: bool, x: u32, y: u32) -> (placed: bool)
        requires
            old(self).wf(),
        ensures
            final(self).wf(),
            placed == (old(self)@.can_record(id) && old(self)@.can_store((x, y))),
            placed ==> final(self)@ == old(self)@.record(id, (x, y)).store(id, single, (x, y)),
            !placed && old(self)@.can_record(id) ==> final(self)@ == old(self)@.record(id, (x, y)),
            !old(self)@.can_record(id) ==> final(self)@ == old(self)@,
    {
        let ghost before = self@;
        let list = self.maps.get_scalar_mut(id);
        let recorded = list.try_push(x, y);
        if !recorded {
            assert(self@.maps =~= before.maps);
            return false;
        }
        assert(self@.maps =~= before.record(id, (x, y)).maps);
        let bucket = self.grid.get_vector_mut(x, y);
        let stored = bucket.try_push(id, single);
        if !stored {
            assert(self@.cells =~= before.cells);
            return false;
        }
        assert(self@.cells =~= before.record(id, (x, y)).store(id, single, (x, y)).cells);
        true
    }

    /// Insert an entity: it is written into every cell that its rectangle
    /// covers, row by row; each cell is recorded in the cell list of the
    /// identifier and then gets the identifier in its bucket. Where the cell
    /// list or a bucket is full the insertion ends with `CapacityExceeded`,
    /// and what was written so far stays written.
    pub fn insert(&mut self, entity: &Entity) -> (inserted: Result<(), CapacityExceeded>)
        requires
            old(self).wf(),
            entity.in_bounds(),
        ensures
            final(self).wf(),
            final(self)@.same_shape(old(self)@),
            final(self)@ == old(self)@.insert(*entity).0,
            inserted is Ok <==> old(self)@.insert(*entity).1,
            inserted is Ok <==> old(self)@.has_room_for(
                entity.id,
                entity.span(old(self)@.shift).cells(),
            ),
            inserted is Ok ==> final(self)@.cell_list(entity.id) == old(self)@.cell_list(entity.id)
                + entity.span(old(self)@.shift).cells(),
            inserted is Ok ==> forall|c: (u32, u32)|
                entity.span(old(self)@.shift).covers(c) ==> holds(
                    #[trigger] final(self)@.bucket(c),
                    entity.id,
                ),
            inserted is Err ==> inserted == Err::<(), CapacityExceeded>(
                CapacityExceeded { id: entity.id },
            ),
    {
        let span = entity.cell_span(self.shift);
        let is_ideal = span.single();
        let id = entity.id;
        let ghost goal = self@.insert(*entity);
        let mut x = span.sx;
        let mut y = span.sy;
        loop
            invariant
                self.wf(),
                span.covers((x, y)),
                id == entity.id,
                entity.in_bounds(),
                old(self)@.wf(),
                goal == old(self)@.insert(*entity),
                goal == self@.insert_cells(id, is_ideal, span.cells_from(x, y)),
            decreases span.ey - y, span.ex - x,
        {
            proof {
                lemma_cells_from(span, x, y);
            }
            let ghost walk = span.cells_from(x, y);
            if !self.place(id, is_ideal, x, y) {
                proof {
                    law_insert_in_full(old(self)@, *entity);
                }
                return Err(CapacityExceeded { id });
            }
            assert(goal == self@.insert_cells(id, is_ideal, walk.skip(1)));
            if x < span.ex {
                assert(walk.skip(1) == span.cells_from((x + 1) as u32, y));
                x += 1;
            } else if y < span.ey {
                assert(walk.skip(1) == span.cells_from(span.sx, (y + 1) as u32));
                x = span.sx;
                y += 1;
            } else {
                assert(walk.skip(1) == Seq::<(u32, u32)>::empty());
                proof {
                    law_insert_in_full(old(self)@, *entity);
                }
                return Ok(());
            }
        }
    }

    /// Delete an entity by ID: for each cell recorded for `id`, in the order
    /// in which they were recorded, the first entry of the cell's bucket that
    /// carries `id` is taken out; then the cell list of `id` is emptied.
    /// `NotFound` is returned where no cell was recorded for `id`, or where a
    /// recorded cell's bucket did not hold it; the rest is still carried out.
    pub fn delete(&mut self, id: u32) -> (deleted: Result<(), NotFound>)
        requires
            old(self).wf(),
        ensures
            final(self).wf(),
            final(self)@.same_shape(old(self)@),
            final(self)@ == old(self)@.delete(id).0,
            final(self)@.cell_list(id).len() == 0,
            deleted is Ok <==> old(self)@.delete(id).1,
            deleted is Ok <==> old(self)@.cell_list(id).len() > 0 && old(self)@.at_least_recorded(
                id,
                old(self)@.cell_list(id),
            ),
            deleted is Err ==> deleted == Err::<(), NotFound>(NotFound { id }),
    {
        proof {
            law_delete_finds(old(self)@, id);
        }
        let ghost recs = self@.cell_list(id);
        let ghost goal = self@.remove_cells(id, recs);
        let n = self.maps.get_scalar(id).len();
        let mut all_found = n > 0;
        let mut i: usize = 0;
        assert(recs.skip(0) == recs);
        while i < n
            invariant
                self.wf(),
                i <= n,
                n == recs.len(),
                self@.cell_list(id) == recs,
                self@.maps == old(self)@.maps,
                goal.0 == self@.remove_cells(id, recs.skip(i as int)).0,
                (n > 0 && goal.1) == (all_found && self@.remove_cells(id, recs.skip(i as int)).1),
            decreases n - i,
        {
            let ghost before = self@;
            let cell = self.maps.get_scalar(id).get(i);
            let bucket = self.grid.get_vector_mut(cell.0, cell.1);
            let found = bucket.remove_first(id);
            proof {
                lemma_first_position(before.bucket(cell), id);
                assert(recs.skip(i as int)[0] == cell);
                assert(recs.skip(i as int).skip(1) == recs.skip(i + 1));
                assert(self@.cells =~= before.lift(id, cell).cells);
                assert(self@.maps =~= before.maps);
                assert(self@ == before.lift(id, cell));
            }
            all_found = all_found && found;
            i += 1;
        }
        let ghost removed = self@;
        let list = self.maps.get_scalar_mut(id);
        *list = CellList::default();
        proof {
            assert(self@.maps =~= removed.forget(id).maps);
            assert(self@.cells =~= removed.cells);
        }
        if all_found {
            Ok(())
        } else {
            Err(NotFound { id })
        }
    }

    /// Retrieve entities in a region: the identifiers found in the buckets of
    /// the cells that the region covers, gone through row by row. An
    /// identifier whose entity spans several cells is returned once however
    /// many of its cells the region covers.
    pub fn query(&mut self, query: &Query) -> (result: Vec<u32>)
        requires
            old(self).wf(),
            query.in_bounds(),
        ensures
            *final(self) == *old(self),
            result@ == old(self)@.query(*query),
            forall|id: u32|
                result@.contains(id) <==> old(self)@.reaches(query.span(old(self)@.shift), id),
    {
        let span = query.cell_span(self.shift);
        let is_ideal = span.single();
        let mut result: Vec<u32> = Vec::new();
        let mut x = span.sx;
        let mut y = span.sy;
        loop
            invariant
                *self == *old(self),
                self.wf(),
                query.in_bounds(),
                span.covers((x, y)),
                self@.query(*query) == self@.gather(span.cells_from(x, y), is_ideal, result@),
            decreases span.ey - y, span.ex - x,
        {
            proof {
                lemma_cells_from(span, x, y);
            }
            let ghost walk = span.cells_from(x, y);
            let ghost start = result@;
            let region = self.grid.get_vector(x, y);
            let n = region.len();
            let mut i: usize = 0;
            assert(region@.skip(0) == region@);
            while i < n
                invariant
                    i <= n,
                    n == region@.len(),
                    absorb(start, region@, is_ideal) == absorb(
                        result@,
                        region@.skip(i as int),
                        is_ideal,
                    ),
                decreases n - i,
            {
                let entry = region.get(i);
                proof {
                    assert(region@.skip(i as int)[0] == entry);
                    assert(region@.skip(i as int).skip(1) == region@.skip(i + 1));
                }
                // An entry of a single-cell entity has no second entry elsewhere, and a
                // query of a single cell sees no entry twice: neither needs a look at
                // what was collected.
                if entry.1 || is_ideal {
                    result.push(entry.0);
                } else {
                    if !contains_id(&result, entry.0) {
                        result.push(entry.0);
                    }
                }
                i += 1;
            }
            assert(self@.query(*query) == self@.gather(walk.skip(1), is_ideal, result@));
            if x < span.ex {
                assert(walk.skip(1) == span.cells_from((x + 1) as u32, y));
                x += 1;
            } else if y < span.ey {
                assert(walk.skip(1) == span.cells_from(span.sx, (y + 1) as u32));
                x = span.sx;
                y += 1;
            } else {
                assert(walk.skip(1) == Seq::<(u32, u32)>::empty());
                proof {
                    assert forall|id: u32|
                        self@.query(*query).contains(id) <==> self@.reaches(
                            query.span(self@.shift),
                            id,
                        ) by {
                        law_query_returns_what_it_reaches(self@, *query, id);
                    }
                }
                return result;
            }
        }
    }

    /// Clear the grid: every bucket and every cell list is emptied. The
    /// tables keep their slots, so the grid can be used again at once.
    pub fn clear(&mut self)
        requires
            old(self).wf(),
        ensures
            final(self).wf(),
            final(self)@ == old(self)@.cleared(),
            final(self)@.is_empty(),
            final(self)@.same_shape(old(self)@),
    {
        self.grid.clear();
        self.maps.clear();
        assert(self@.cells =~= old(self)@.cleared().cells);
        assert(self@.maps =~= old(self)@.cleared().maps);
    }
}

} // verus!
