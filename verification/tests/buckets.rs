use supergrid::bucket::{CellList, Entry};

#[test]
fn new_entry_is_empty() {
    let entry = Entry::default();
    assert_eq!(entry.len(), 0);
    assert_eq!(entry.position(0), None);
}

#[test]
fn entry_keeps_what_is_pushed_in_order() {
    let mut entry = Entry::default();
    assert!(entry.try_push(4, true));
    assert!(entry.try_push(9, false));
    assert!(entry.try_push(4, false));
    assert_eq!(entry.len(), 3);
    assert_eq!(entry.get(0), (4, true));
    assert_eq!(entry.get(1), (9, false));
    assert_eq!(entry.get(2), (4, false));
}

#[test]
fn entry_refuses_the_thirty_third() {
    let mut entry = Entry::default();
    for id in 0..32u32 {
        assert!(entry.try_push(id, false));
    }
    assert_eq!(entry.len(), 32);
    assert!(!entry.try_push(32, false));
    assert_eq!(entry.len(), 32);
    assert_eq!(entry.get(31), (31, false));
    assert_eq!(entry.position(32), None);
}

#[test]
fn entry_position_is_the_first() {
    let mut entry = Entry::default();
    assert!(entry.try_push(1, false));
    assert!(entry.try_push(2, true));
    assert!(entry.try_push(2, false));
    assert_eq!(entry.position(1), Some(0));
    assert_eq!(entry.position(2), Some(1));
    assert_eq!(entry.position(3), None);
}

#[test]
fn entry_remove_first_takes_one_and_keeps_order() {
    let mut entry = Entry::default();
    assert!(entry.try_push(1, false));
    assert!(entry.try_push(2, true));
    assert!(entry.try_push(3, false));
    assert!(entry.try_push(2, false));
    assert!(entry.remove_first(2));
    assert_eq!(entry.len(), 3);
    assert_eq!(entry.get(0), (1, false));
    assert_eq!(entry.get(1), (3, false));
    assert_eq!(entry.get(2), (2, false));
    assert!(!entry.remove_first(7));
    assert_eq!(entry.len(), 3);
    assert!(entry.remove_first(2));
    assert!(!entry.remove_first(2));
    assert_eq!(entry.len(), 2);
}

#[test]
fn entry_clone_holds_the_same() {
    let mut entry = Entry::default();
    assert!(entry.try_push(1, false));
    assert!(entry.try_push(2, true));
    let mut copy = entry.clone();
    assert_eq!(copy.len(), 2);
    assert_eq!(copy.get(0), (1, false));
    assert_eq!(copy.get(1), (2, true));
    assert!(copy.remove_first(1));
    assert_eq!(entry.len(), 2);
    assert_eq!(copy.len(), 1);
}

#[test]
fn new_cell_list_is_empty() {
    assert_eq!(CellList::default().len(), 0);
}

#[test]
fn cell_list_keeps_what_is_pushed_in_order() {
    let mut list = CellList::default();
    assert!(list.try_push(3, 4));
    assert!(list.try_push(0, 1));
    assert_eq!(list.len(), 2);
    assert_eq!(list.get(0), (3, 4));
    assert_eq!(list.get(1), (0, 1));
}

#[test]
fn cell_list_refuses_the_thirty_third() {
    let mut list = CellList::default();
    for x in 0..32u32 {
        assert!(list.try_push(x, 0));
    }
    assert!(!list.try_push(32, 0));
    assert_eq!(list.len(), 32);
    assert_eq!(list.get(31), (31, 0));
}

#[test]
fn cell_list_clone_holds_the_same() {
    let mut list = CellList::default();
    assert!(list.try_push(3, 4));
    let mut copy = list.clone();
    assert!(copy.try_push(5, 6));
    assert_eq!(list.len(), 1);
    assert_eq!(copy.len(), 2);
    assert_eq!(copy.get(0), (3, 4));
}
