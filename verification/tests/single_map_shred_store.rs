use overcast::shred_store::ShredStore;
use overcast::types::{CAPACITY, SHRED_SIZE};

fn create_dummy_shred(slot: u64, shred_index: u32) -> ([u8; SHRED_SIZE], usize) {
    let mut arr = [0u8; SHRED_SIZE];
    arr[..8].copy_from_slice(&slot.to_le_bytes());
    arr[8..12].copy_from_slice(&shred_index.to_le_bytes());
    for b in arr[12..112].iter_mut() {
        *b = 1;
    }
    (arr, 112)
}

#[test]
fn shred_store_test_store_new_slot() {
    let mut store = ShredStore::new();

    let slot = 100;
    let shred_index = 5;
    let (shred_bytes, shred_len) = create_dummy_shred(slot, shred_index);

    store.store_shred_internal(slot, shred_index, shred_bytes, shred_len);

    let retrieved = store.get_shred_num(slot, shred_index);

    assert!(retrieved.is_some(), "Expected shred not found in slot {}", slot);
    let (ret_len, ret_shred) = retrieved.unwrap();
    assert_eq!(ret_len, shred_len);
    assert_eq!(ret_shred, shred_bytes);
}

#[test]
fn shred_store_test_store_multiple_shreds_same_slot() {
    let mut store = ShredStore::new();

    let slot = 200;

    let (shred_bytes1, shred_len1) = create_dummy_shred(slot, 10);
    let (shred_bytes2, shred_len2) = create_dummy_shred(slot, 20);

    store.store_shred_internal(slot, 10, shred_bytes1, shred_len1);
    store.store_shred_internal(slot, 20, shred_bytes2, shred_len2);

    let retrieved1 = store.get_shred_num(slot, 10);
    let retrieved2 = store.get_shred_num(slot, 20);

    assert!(retrieved1.is_some(), "Shred with index 10 not found");
    assert!(retrieved2.is_some(), "Shred with index 20 not found");

    let (ret_len1, ret_shred1) = retrieved1.unwrap();
    let (ret_len2, ret_shred2) = retrieved2.unwrap();

    assert_eq!(ret_len1, shred_len1);
    assert_eq!(ret_shred1, shred_bytes1);
    assert_eq!(ret_len2, shred_len2);
    assert_eq!(ret_shred2, shred_bytes2);
}

#[test]
fn shred_store_test_store_out_of_order() {
    let mut store = ShredStore::new();

    let slot_new = 300;
    let shred_index_new = 15;
    let (shred_bytes_new, shred_len_new) = create_dummy_shred(slot_new, shred_index_new);
    store.store_shred_internal(slot_new, shred_index_new, shred_bytes_new, shred_len_new);

    assert_eq!(store.max_slot(), slot_new);

    let slot_old = 299;
    let shred_index_old = 25;
    let (shred_bytes_old, shred_len_old) = create_dummy_shred(slot_old, shred_index_old);
    store.store_shred_internal(slot_old, shred_index_old, shred_bytes_old, shred_len_old);

    assert_eq!(store.max_slot(), slot_new);

    let retrieved_new = store.get_shred_num(slot_new, shred_index_new);
    let retrieved_old = store.get_shred_num(slot_old, shred_index_old);

    assert!(retrieved_new.is_some(), "Newer shred not found");
    assert!(retrieved_old.is_some(), "Older shred not found");
}

#[test]
fn single_map_newer_slot_replaces_map() {
    let mut store = ShredStore::new();
    let (a, la) = create_dummy_shred(3, 1);
    let later = 3 + CAPACITY as u64;
    let (b, lb) = create_dummy_shred(later, 2);
    store.store_shred_internal(3, 1, a, la);
    store.store_shred_internal(later, 2, b, lb);
    assert_eq!(store.get_shred_num(3, 1), None);
    assert_eq!(store.get_shred_num(later, 1), None);
    assert_eq!(store.get_shred_num(later, 2), Some((lb, b)));
    // an older slot that maps to the same entry is ignored
    store.store_shred_internal(3, 1, a, la);
    assert_eq!(store.get_shred_num(later, 2), Some((lb, b)));
    assert_eq!(store.max_slot(), later);
}

#[test]
fn single_map_configured_window() {
    let mut store = ShredStore::with_capacity(8);
    assert_eq!(store.capacity(), 8);
    let (a, la) = create_dummy_shred(5, 1);
    store.store_shred_internal(5, 1, a, la);
    assert_eq!(store.get_shred_num(5, 1), Some((la, a)));
    let (b, lb) = create_dummy_shred(14, 1);
    store.store_shred_internal(14, 1, b, lb);
    assert_eq!(store.get_shred_num(5, 1), None);
    assert_eq!(store.get_shred_num(14, 1), Some((lb, b)));
    assert_eq!(ShredStore::new().capacity(), CAPACITY);
}
