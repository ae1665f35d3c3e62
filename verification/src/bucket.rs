//! Bounded buckets.
//!
//! A slot of the cell index holds a bucket of tagged identifiers; a slot of the
//! reverse map holds the list of cells that an identifier was written into.
//! Both are `ArrayVec`s with room for `FIXED_SIZE` items, stored inline in the
//! table. `ArrayVec` is not verified here: the few calls into it are gathered
//! at the top of this file, each with the contract that the rest of the
//! library relies on.

use arrayvec::ArrayVec;
use arrayvec::CapacityError;
use vstd::prelude::*;
use crate::entries::{first_position, holds, lemma_first_position_is, without_first};

verus! {

/// The number of items that a bucket has room for.
pub const FIXED_SIZE: usize = 32;

/// `arrayvec::ArrayVec`, a vector with room for `CAP` items stored inline.
/// Nothing is known of what is inside a value of it but through the
/// functions below.
#[verifier::external_type_specification]
#[verifier::external_body]
#[verifier::reject_recursive_types(T)]
pub struct ExArrayVec<T, const CAP: usize>(ArrayVec<T, CAP>);

/// `arrayvec::CapacityError`, the error of a push into a full vector. It is
/// only ever told apart from success.
#[verifier::external_type_specification]
#[verifier::external_body]
#[verifier::reject_recursive_types(T)]
pub struct ExCapacityError<T>(CapacityError<T>);

/// The tagged identifiers that an `ArrayVec` of them holds, oldest first.
pub uninterp spec fn tagged_ids(bucket: ArrayVec<(u32, bool), FIXED_SIZE>) -> Seq<(u32, bool)>;

/// The cells that an `ArrayVec` of cells holds, oldest first.
pub uninterp spec fn listed_cells(list: ArrayVec<(u32, u32), FIXED_SIZE>) -> Seq<(u32, u32)>;

/// `ArrayVec::new`: assumed to return a vector that holds nothing.
#[verifier::external_body]
fn ids_new() -> (bucket: ArrayVec<(u32, bool), FIXED_SIZE>)
    ensures
        tagged_ids(bucket) == Seq::<(u32, bool)>::empty(),
{
    ArrayVec::new()
}

/// `ArrayVec::as_slice`: assumed to return the items held, in order, which
/// are never more than the capacity `FIXED_SIZE`.
#[verifier::external_body]
fn ids_as_slice(bucket: &ArrayVec<(u32, bool), FIXED_SIZE>) -> (items: &[(u32, bool)])
    ensures
        items@ == tagged_ids(*bucket),
        items@.len() <= FIXED_SIZE,
{
    bucket.as_slice()
}

/// `ArrayVec::try_push`: assumed to append `item` and return `Ok` where fewer
/// than `FIXED_SIZE` items are held, and to return `Err` and change nothing
/// where the vector is full.
#[verifier::external_body]
fn ids_try_push(bucket: &mut ArrayVec<(u32, bool), FIXED_SIZE>, item: (u32, bool)) -> (pushed:
    Result<(), CapacityError<(u32, bool)>>)
    ensures
        tagged_ids(*old(bucket)).len() < FIXED_SIZE ==> pushed is Ok && tagged_ids(*final(bucket))
            == tagged_ids(*old(bucket)).push(item),
        tagged_ids(*old(bucket)).len() >= FIXED_SIZE ==> pushed is Err && tagged_ids(
            *final(bucket),
        ) == tagged_ids(*old(bucket)),
{
    bucket.try_push(item)
}

/// `ArrayVec::remove`: assumed to take out the item at `index`, which must be
/// in bounds, to return it, and to keep the others in their order.
#[verifier::external_body]
fn ids_remove(bucket: &mut ArrayVec<(u32, bool), FIXED_SIZE>, index: usize) -> (item: (u32, bool))
    requires
        index < tagged_ids(*old(bucket)).len(),
    ensures
        item == tagged_ids(*old(bucket))[index as int],
        tagged_ids(*final(bucket)) == tagged_ids(*old(bucket)).remove(index as int),
{
    bucket.remove(index)
}

/// `ArrayVec::new`: assumed to return a vector that holds nothing.
#[verifier::external_body]
fn cells_new() -> (list: ArrayVec<(u32, u32), FIXED_SIZE>)
    ensures
        listed_cells(list) == Seq::<(u32, u32)>::empty(),
{
    ArrayVec::new()
}

/// `ArrayVec::as_slice`: assumed to return the items held, in order, which
/// are never more than the capacity `FIXED_SIZE`.
#[verifier::external_body]
fn cells_as_slice(list: &ArrayVec<(u32, u32), FIXED_SIZE>) -> (items: &[(u32, u32)])
    ensures
        items@ == listed_cells(*list),
        items@.len() <= FIXED_SIZE,
{
    list.as_slice()
}

/// `ArrayVec::try_push`: assumed to append `item` and return `Ok` where fewer
/// than `FIXED_SIZE` items are held, and to return `Err` and change nothing
/// where the vector is full.
#[verifier::external_body]
fn cells_try_push(list: &mut ArrayVec<(u32, u32), FIXED_SIZE>, item: (u32, u32)) -> (pushed:
    Result<(), CapacityError<(u32, u32)>>)
    ensures
        listed_cells(*old(list)).len() < FIXED_SIZE ==> pushed is Ok && listed_cells(*final(list))
            == listed_cells(*old(list)).push(item),
        listed_cells(*old(list)).len() >= FIXED_SIZE ==> pushed is Err && listed_cells(
            *final(list),
        ) == listed_cells(*old(list)),
{
    list.try_push(item)
}

/// The tagged identifiers stored at one slot of the cell index.
#[derive(Debug)]
pub struct Entry {
    ids: ArrayVec<(u32, bool), FIXED_SIZE>,
}

impl Entry {
    /// The entries of the bucket, oldest first: an identifier and whether its
    /// entity fits in a single cell.
    pub closed spec fn view(&self) -> Seq<(u32, bool)> {
        tagged_ids(self.ids)
    }

    /// The number of entries.
    pub fn len(&self) -> (n: usize)
        ensures
            n == self@.len(),
            n <= FIXED_SIZE,
    {
        ids_as_slice(&self.ids).len()
    }

    /// The entry at `index`.
    pub fn get(&self, index: usize) -> (entry: (u32, bool))
        requires
            index < self@.len(),
        ensures
            entry == self@[index as int],
    {
        ids_as_slice(&self.ids)[index]
    }

    /// Appends `(id, single_cell)` where there is room; says whether it did.
    pub fn try_push(&mut self, id: u32, single_cell: bool) -> (stored: bool)
        ensures
            stored == (old(self)@.len() < FIXED_SIZE),
            stored ==> final(self)@ == old(self)@.push((id, single_cell)),
            !stored ==> final(self)@ == old(self)@,
    {
        match ids_try_push(&mut self.ids, (id, single_cell)) {
            Ok(()) => true,
            Err(_) => false,
        }
    }

    /// The index of the first entry that carries `id`.
    pub fn position(&self, id: u32) -> (found: Option<usize>)
        ensures
            found is Some <==> holds(self@, id),
            found is Some ==> found->0 as int == first_position(self@, id) && found->0
                < self@.len(),
    {
        let items = ids_as_slice(&self.ids);
        let mut i: usize = 0;
        while i < items.len()
            invariant
                i <= items@.len(),
                items@ == self@,
                forall|j: int| 0 <= j < i ==> (#[trigger] items@[j]).0 != id,
            decreases items@.len() - i,
        {
            if items[i].0 == id {
                proof {
                    lemma_first_position_is(self@, id, i as int);
                }
                return Some(i);
            }
            i += 1;
        }
        None
    }

    /// Takes out the first entry that carries `id`; says whether there was one.
    pub fn remove_first(&mut self, id: u32) -> (found: bool)
        ensures
            found == holds(old(self)@, id),
            final(self)@ == without_first(old(self)@, id),
    {
        match self.position(id) {
            Some(index) => {
                ids_remove(&mut self.ids, index);
                true
            },
            None => false,
        }
    }
}

impl Default for Entry {
    fn default() -> (entry: Self)
        ensures
            entry@ == Seq::<(u32, bool)>::empty(),
    {
        Entry { ids: ids_new() }
    }
}

impl Clone for Entry {
    fn clone(&self) -> (copy: Self)
        ensures
            copy@ == self@,
    {
        let mut copy = Entry::default();
        let n = self.len();
        let mut i: usize = 0;
        while i < n
            invariant
                i <= n,
                n == self@.len(),
                n <= FIXED_SIZE,
                copy@ == self@.take(i as int),
            decreases n - i,
        {
            let entry = self.get(i);
            copy.try_push(entry.0, entry.1);
            assert(self@.take(i as int).push(entry) == self@.take(i + 1));
            i += 1;
        }
        assert(self@.take(n as int) == self@);
        copy
    }
}

/// The cells that one identifier was written into.
#[derive(Debug)]
pub struct CellList {
    cells: ArrayVec<(u32, u32), FIXED_SIZE>,
}

impl CellList {
    /// The cells of the list, oldest first.
    pub closed spec fn view(&self) -> Seq<(u32, u32)> {
        listed_cells(self.cells)
    }

    /// The number of cells.
    pub fn len(&self) -> (n: usize)
        ensures
            n == self@.len(),
            n <= FIXED_SIZE,
    {
        cells_as_slice(&self.cells).len()
    }

    /// The cell at `index`.
    pub fn get(&self, index: usize) -> (cell: (u32, u32))
        requires
            index < self@.len(),
        ensures
            cell == self@[index as int],
    {
        cells_as_slice(&self.cells)[index]
    }

    /// Appends the cell `(x, y)` where there is room; says whether it did.
    pub fn try_push(&mut self, x: u32, y: u32) -> (stored: bool)
        ensures
            stored == (old(self)@.len() < FIXED_SIZE),
            stored ==> final(self)@ == old(self)@.push((x, y)),
            !stored ==> final(self)@ == old(self)@,
    {
        match cells_try_push(&mut self.cells, (x, y)) {
            Ok(()) => true,
            Err(_) => false,
        }
    }
}

impl Default for CellList {
    fn default() -> (list: Self)
        ensures
            list@ == Seq::<(u32, u32)>::empty(),
    {
        CellList { cells: cells_new() }
    }
}

impl Clone for CellList {
    fn clone(&self) -> (copy: Self)
        ensures
            copy@ == self@,
    {
        let mut copy = CellList::default();
        let n = self.len();
        let mut i: usize = 0;
        while i < n
            invariant
                i <= n,
                n == self@.len(),
                n <= FIXED_SIZE,
                copy@ == self@.take(i as int),
            decreases n - i,
        {
            let cell = self.get(i);
            copy.try_push(cell.0, cell.1);
            assert(self@.take(i as int).push(cell) == self@.take(i + 1));
            i += 1;
        }
        assert(self@.take(n as int) == self@);
        copy
    }
}

} // verus!
