use supergrid::hashing::{hash_u64, vector_hash};
use supergrid::table::{round_up_to_power_of_two, SLOTS_PER_UNIT};
use supergrid::Table;

#[test]
fn rounding_up_to_a_power_of_two() {
    assert_eq!(round_up_to_power_of_two(0), 1);
    assert_eq!(round_up_to_power_of_two(1), 1);
    assert_eq!(round_up_to_power_of_two(2), 2);
    assert_eq!(round_up_to_power_of_two(3), 4);
    assert_eq!(round_up_to_power_of_two(5), 8);
    assert_eq!(round_up_to_power_of_two(1000), 1024);
    assert_eq!(round_up_to_power_of_two(1024), 1024);
    assert_eq!(round_up_to_power_of_two(1025), 2048);
}

#[test]
fn rounding_up_agrees_with_std() {
    for n in 0..5000usize {
        assert_eq!(round_up_to_power_of_two(n), n.next_power_of_two());
    }
}

#[test]
fn table_slot_count() {
    assert_eq!(SLOTS_PER_UNIT, 1000);
    assert_eq!(Table::<u32>::new(0).count(), 2);
    assert_eq!(Table::<u32>::new(1).count(), 1025);
    assert_eq!(Table::<u32>::new(2).count(), 2049);
    assert_eq!(Table::<u32>::new(3).count(), 4097);
    assert_eq!(Table::<u32>::new(8).count(), 8193);
}

#[test]
fn new_table_holds_defaults() {
    let table = Table::<u32>::new(1);
    for key in 0..1025u32 {
        assert_eq!(*table.get_scalar(key), 0);
    }
}

#[test]
fn key_selects_slot_by_remainder() {
    let table = Table::<u8>::new(1);
    assert_eq!(table.index(0), 0);
    assert_eq!(table.index(1024), 1024);
    assert_eq!(table.index(1025), 0);
    assert_eq!(table.index(3000), 3000 % 1025);
    assert_eq!(table.index(u64::MAX), (u64::MAX % 1025) as usize);
}

#[test]
fn vector_key_packs_column_above_row() {
    assert_eq!(vector_hash(0, 0), 0);
    assert_eq!(vector_hash(0, 7), 7);
    assert_eq!(vector_hash(1, 2), (1u64 << 32) | 2);
    assert_eq!(vector_hash(1, 2), 4294967298);
    assert_eq!(vector_hash(u32::MAX, u32::MAX), u64::MAX);
    assert_ne!(vector_hash(1, 2), vector_hash(2, 1));
}

#[test]
fn hash_is_the_identity() {
    assert_eq!(hash_u64(0), 0);
    assert_eq!(hash_u64(12345), 12345);
    assert_eq!(hash_u64(u64::MAX), u64::MAX);
}

#[test]
fn scalar_slot_is_written_and_read_back() {
    let mut table = Table::<u32>::new(1);
    *table.get_scalar_mut(5) = 9;
    assert_eq!(*table.get_scalar(5), 9);
    assert_eq!(*table.get_scalar(6), 0);
    // 5 + 1025 falls into the same slot.
    assert_eq!(*table.get_scalar(1030), 9);
    *table.get_scalar_mut(1030) = 4;
    assert_eq!(*table.get_scalar(5), 4);
}

#[test]
fn vector_slot_is_written_and_read_back() {
    let mut table = Table::<u32>::new(1);
    *table.get_vector_mut(3, 4) = 21;
    assert_eq!(*table.get_vector(3, 4), 21);
    assert_eq!(*table.get_vector(4, 3), 0);
    let slot = table.index(vector_hash(3, 4));
    assert_eq!(slot as u64, ((3u64 << 32) | 4) % 1025);
    assert_eq!(*table.get_scalar(slot as u32), 21);
    // (0, 4) and (1, 8) fall into the same slot of 1025.
    *table.get_vector_mut(0, 4) = 77;
    assert_eq!(*table.get_vector(1, 8), 77);
}

#[test]
fn clear_resets_slots_and_keeps_their_number() {
    let mut table = Table::<u32>::new(1);
    *table.get_scalar_mut(5) = 9;
    *table.get_vector_mut(3, 4) = 21;
    table.clear();
    assert_eq!(table.count(), 1025);
    assert_eq!(*table.get_scalar(5), 0);
    assert_eq!(*table.get_vector(3, 4), 0);
    *table.get_scalar_mut(5) = 1;
    assert_eq!(*table.get_scalar(5), 1);
}

#[test]
fn cloned_table_is_independent() {
    let mut table = Table::<u32>::new(1);
    *table.get_scalar_mut(5) = 9;
    let mut copy = table.clone();
    *copy.get_scalar_mut(5) = 1;
    assert_eq!(*table.get_scalar(5), 9);
    assert_eq!(*copy.get_scalar(5), 1);
    assert_eq!(copy.count(), table.count());
}
