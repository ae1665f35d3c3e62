use supergrid::{CapacityExceeded, Entity, Grid, NotFound, Query, FIXED_SIZE};

fn entity(id: u32, x: u32, y: u32, width: u32, height: u32) -> Entity {
    Entity { id, x, y, width, height }
}

fn region(x: u32, y: u32, width: u32, height: u32) -> Query {
    Query { x, y, width, height }
}

fn times(ids: &[u32], id: u32) -> usize {
    ids.iter().filter(|other| **other == id).count()
}

#[test]
fn new_grid_has_rounded_slot_count() {
    assert_eq!(Grid::new(1, 4).count(), 1025);
    assert_eq!(Grid::new(8, 4).count(), 8193);
    assert_eq!(Grid::new(0, 0).count(), 2);
}

#[test]
fn new_grid_returns_nothing() {
    let mut grid = Grid::new(1, 4);
    assert_eq!(grid.query(&region(0, 0, 1000, 1000)), Vec::<u32>::new());
}

#[test]
fn round_trip_near_and_far() {
    let mut grid = Grid::new(8, 4);
    assert_eq!(grid.insert(&entity(7, 10, 10, 1, 1)), Ok(()));
    assert_eq!(grid.query(&region(0, 0, 20, 20)), vec![7]);
    assert_eq!(grid.query(&region(100, 100, 5, 5)), Vec::<u32>::new());
}

#[test]
fn thirty_third_entity_in_one_cell_is_refused() {
    let mut grid = Grid::new(8, 4);
    for id in 0..32u32 {
        assert_eq!(grid.insert(&entity(id, 1, 1, 2, 2)), Ok(()));
    }
    assert_eq!(grid.insert(&entity(32, 1, 1, 2, 2)), Err(CapacityExceeded { id: 32 }));
    let found = grid.query(&region(0, 0, 4, 4));
    assert_eq!(found, (0..32u32).collect::<Vec<u32>>());
}

#[test]
fn bucket_capacity_is_thirty_two() {
    assert_eq!(FIXED_SIZE, 32);
}

#[test]
fn insert_then_delete_leaves_nothing() {
    let mut grid = Grid::new(8, 4);
    let e = entity(11, 30, 40, 20, 5);
    assert_eq!(grid.insert(&e), Ok(()));
    assert_eq!(grid.query(&Query::from(e.clone())), vec![11]);
    assert_eq!(grid.delete(11), Ok(()));
    assert_eq!(grid.query(&Query::from(e.clone())), Vec::<u32>::new());
    // The cell list was emptied: nothing is recorded for the identifier any more.
    assert_eq!(grid.delete(11), Err(NotFound { id: 11 }));
    // The identifier can be used again, and is then found where it is now.
    assert_eq!(grid.insert(&entity(11, 200, 200, 1, 1)), Ok(()));
    assert_eq!(grid.query(&region(200, 200, 1, 1)), vec![11]);
    assert_eq!(grid.query(&Query::from(e)), Vec::<u32>::new());
    assert_eq!(grid.delete(11), Ok(()));
}

#[test]
fn delete_removes_from_every_cell() {
    let mut grid = Grid::new(8, 4);
    assert_eq!(grid.insert(&entity(3, 10, 10, 10, 10)), Ok(()));
    for (x, y) in [(0u32, 0u32), (16, 0), (0, 16), (16, 16)] {
        assert_eq!(grid.query(&region(x, y, 1, 1)), vec![3]);
    }
    assert_eq!(grid.delete(3), Ok(()));
    for (x, y) in [(0u32, 0u32), (16, 0), (0, 16), (16, 16)] {
        assert_eq!(grid.query(&region(x, y, 1, 1)), Vec::<u32>::new());
    }
}

#[test]
fn delete_of_unknown_id_is_not_found() {
    let mut grid = Grid::new(1, 4);
    assert_eq!(grid.delete(5), Err(NotFound { id: 5 }));
    assert_eq!(grid.insert(&entity(6, 0, 0, 1, 1)), Ok(()));
    assert_eq!(grid.delete(5), Err(NotFound { id: 5 }));
    assert_eq!(grid.query(&region(0, 0, 1, 1)), vec![6]);
}

#[test]
fn delete_keeps_other_entities() {
    let mut grid = Grid::new(8, 4);
    assert_eq!(grid.insert(&entity(1, 0, 0, 40, 40)), Ok(()));
    assert_eq!(grid.insert(&entity(2, 0, 0, 40, 40)), Ok(()));
    assert_eq!(grid.insert(&entity(3, 5, 5, 1, 1)), Ok(()));
    assert_eq!(grid.delete(2), Ok(()));
    assert_eq!(grid.query(&region(0, 0, 40, 40)), vec![1, 3]);
    assert_eq!(grid.query(&region(5, 5, 1, 1)), vec![1, 3]);
}

#[test]
fn single_cell_entity_is_returned_once() {
    let mut grid = Grid::new(8, 4);
    assert_eq!(grid.insert(&entity(9, 17, 18, 3, 3)), Ok(()));
    let found = grid.query(&region(16, 16, 15, 15));
    assert_eq!(times(&found, 9), 1);
    assert_eq!(found, vec![9]);
    let wide = grid.query(&region(0, 0, 100, 100));
    assert_eq!(wide, vec![9]);
}

#[test]
fn spanning_entity_is_returned_once() {
    let mut grid = Grid::new(8, 4);
    // Cells (0..=2, 0..=1): six cells.
    assert_eq!(grid.insert(&entity(4, 5, 5, 40, 20)), Ok(()));
    let all = grid.query(&region(0, 0, 47, 31));
    assert_eq!(all, vec![4]);
    let two = grid.query(&region(10, 10, 10, 1));
    assert_eq!(two, vec![4]);
    let one = grid.query(&region(33, 17, 1, 1));
    assert_eq!(one, vec![4]);
    let outside = grid.query(&region(48, 0, 10, 10));
    assert_eq!(outside, Vec::<u32>::new());
}

#[test]
fn query_goes_through_cells_row_by_row() {
    let mut grid = Grid::new(8, 4);
    assert_eq!(grid.insert(&entity(30, 16, 16, 1, 1)), Ok(())); // cell (1, 1)
    assert_eq!(grid.insert(&entity(20, 0, 16, 1, 1)), Ok(())); // cell (0, 1)
    assert_eq!(grid.insert(&entity(10, 16, 0, 1, 1)), Ok(())); // cell (1, 0)
    assert_eq!(grid.insert(&entity(40, 0, 0, 17, 17)), Ok(())); // all four cells
    assert_eq!(grid.insert(&entity(0, 0, 0, 1, 1)), Ok(())); // cell (0, 0)
    assert_eq!(grid.query(&region(0, 0, 31, 31)), vec![40, 0, 10, 20, 30]);
    assert_eq!(grid.query(&region(16, 0, 1, 31)), vec![10, 40, 30]);
}

#[test]
fn entity_on_a_cell_border_spans_both_cells() {
    let mut grid = Grid::new(8, 4);
    // x + width == 16 is the first coordinate of the next cell.
    assert_eq!(grid.insert(&entity(1, 15, 0, 1, 0)), Ok(()));
    assert_eq!(grid.query(&region(16, 0, 0, 0)), vec![1]);
    assert_eq!(grid.query(&region(0, 0, 0, 0)), vec![1]);
    assert_eq!(grid.query(&region(32, 0, 0, 0)), Vec::<u32>::new());
}

#[test]
fn identifier_with_high_bit_is_returned_as_it_is() {
    let mut grid = Grid::new(8, 4);
    let id = 0x8000_0005u32;
    assert_eq!(grid.insert(&entity(id, 0, 0, 40, 40)), Ok(()));
    assert_eq!(grid.query(&region(0, 0, 40, 40)), vec![id]);
    assert_eq!(grid.delete(id), Ok(()));
    assert_eq!(grid.query(&region(0, 0, 40, 40)), Vec::<u32>::new());
}

#[test]
fn largest_coordinates_are_in_reach() {
    let mut grid = Grid::new(1, 31);
    assert_eq!(grid.insert(&entity(1, u32::MAX, u32::MAX, 0, 0)), Ok(()));
    assert_eq!(grid.query(&region(u32::MAX - 1, u32::MAX - 1, 1, 1)), vec![1]);
    assert_eq!(grid.query(&region(0, 0, 1, 1)), Vec::<u32>::new());
    assert_eq!(grid.query(&region(0, 0, u32::MAX, u32::MAX)), vec![1]);
}

#[test]
fn full_bucket_ends_insertion_without_undoing_it() {
    let mut grid = Grid::new(8, 4);
    // Fill the bucket of cell (1, 0).
    for id in 0..32u32 {
        assert_eq!(grid.insert(&entity(id, 16, 0, 1, 1)), Ok(()));
    }
    // Cells (0, 0) and (1, 0): the first is written, the second is full.
    assert_eq!(grid.insert(&entity(99, 10, 0, 10, 1)), Err(CapacityExceeded { id: 99 }));
    assert_eq!(grid.query(&region(0, 0, 1, 1)), vec![99]);
    assert_eq!(times(&grid.query(&region(16, 0, 1, 1)), 99), 0);
    // The full cell was recorded but does not hold the entity: the deletion
    // says so, and has taken the entity out of the cell that held it.
    assert_eq!(grid.delete(99), Err(NotFound { id: 99 }));
    assert_eq!(grid.query(&region(0, 0, 1, 1)), Vec::<u32>::new());
    assert_eq!(grid.delete(99), Err(NotFound { id: 99 }));
    assert_eq!(grid.query(&region(16, 0, 1, 1)), (0..32u32).collect::<Vec<u32>>());
}

#[test]
fn entity_of_more_cells_than_a_list_holds_is_refused() {
    let mut grid = Grid::new(8, 0);
    // 33 cells in a row; the list of cells holds 32.
    assert_eq!(grid.insert(&entity(5, 0, 0, 32, 0)), Err(CapacityExceeded { id: 5 }));
    assert_eq!(grid.query(&region(31, 0, 0, 0)), vec![5]);
    assert_eq!(grid.query(&region(32, 0, 0, 0)), Vec::<u32>::new());
    // Every recorded cell holds the entity, so the deletion finds it.
    assert_eq!(grid.delete(5), Ok(()));
    assert_eq!(grid.query(&region(0, 0, 40, 0)), Vec::<u32>::new());
    // 32 cells fit.
    assert_eq!(grid.insert(&entity(5, 0, 0, 31, 0)), Ok(()));
    assert_eq!(grid.query(&region(0, 0, 40, 0)), vec![5]);
}

#[test]
fn cells_that_share_a_slot_share_a_bucket() {
    // 1025 slots: the keys of the cells (0, 4) and (1, 8) are congruent.
    let mut grid = Grid::new(1, 0);
    assert_eq!(grid.count(), 1025);
    assert_eq!(((1u64 << 32) + 8) % 1025, 4);
    assert_eq!(grid.insert(&entity(1, 0, 4, 0, 0)), Ok(()));
    assert_eq!(grid.query(&region(1, 8, 0, 0)), vec![1]);
    assert_eq!(grid.query(&region(1, 7, 0, 0)), Vec::<u32>::new());
}

#[test]
fn identifiers_that_share_a_slot_share_a_cell_list() {
    let mut grid = Grid::new(1, 4);
    assert_eq!(grid.insert(&entity(0, 0, 0, 1, 1)), Ok(()));
    // 1025 falls into the slot of 0, where a cell is recorded that does not hold it.
    assert_eq!(grid.delete(1025), Err(NotFound { id: 1025 }));
    assert_eq!(grid.query(&region(0, 0, 1, 1)), vec![0]);
    // The shared list was emptied with it.
    assert_eq!(grid.delete(0), Err(NotFound { id: 0 }));
    assert_eq!(grid.query(&region(0, 0, 1, 1)), vec![0]);
}

#[test]
fn clear_empties_and_keeps_the_slots() {
    let mut grid = Grid::new(8, 4);
    let slots = grid.count();
    for id in 0..20u32 {
        assert_eq!(grid.insert(&entity(id, id * 10, id * 7, 30, 30)), Ok(()));
    }
    assert_ne!(grid.query(&region(0, 0, 400, 400)), Vec::<u32>::new());
    grid.clear();
    assert_eq!(grid.count(), slots);
    assert_eq!(grid.query(&region(0, 0, 400, 400)), Vec::<u32>::new());
    assert_eq!(grid.query(&region(0, 0, 0, 0)), Vec::<u32>::new());
    assert_eq!(grid.delete(3), Err(NotFound { id: 3 }));
    // The grid is usable at once.
    assert_eq!(grid.insert(&entity(7, 10, 10, 1, 1)), Ok(()));
    assert_eq!(grid.query(&region(0, 0, 20, 20)), vec![7]);
}

#[test]
fn query_leaves_the_grid_as_it_is() {
    let mut grid = Grid::new(8, 4);
    assert_eq!(grid.insert(&entity(1, 0, 0, 20, 20)), Ok(()));
    let first = grid.query(&region(0, 0, 40, 40));
    let second = grid.query(&region(0, 0, 40, 40));
    assert_eq!(first, second);
    assert_eq!(first, vec![1]);
}

#[test]
fn cloned_grid_is_independent() {
    let mut grid = Grid::new(1, 4);
    assert_eq!(grid.insert(&entity(1, 0, 0, 20, 20)), Ok(()));
    let mut copy = grid.clone();
    assert_eq!(copy.delete(1), Ok(()));
    assert_eq!(copy.query(&region(0, 0, 40, 40)), Vec::<u32>::new());
    assert_eq!(grid.query(&region(0, 0, 40, 40)), vec![1]);
}
