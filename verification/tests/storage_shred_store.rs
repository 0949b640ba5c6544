use overcast::storage::shred_store::ShredStore;
use overcast::types::{ShredType, CAPACITY, SHRED_SIZE};

fn create_dummy_shred(slot: u64, shred_index: u32) -> ([u8; SHRED_SIZE], usize) {
    let mut arr = [0u8; SHRED_SIZE];
    arr[..8].copy_from_slice(&slot.to_le_bytes());
    arr[8..12].copy_from_slice(&shred_index.to_le_bytes());
    for b in arr[12..112].iter_mut() {
        *b = 1;
    }
    (arr, 112)
}

#[test]
fn test_store_new_slot() {
    let mut store = ShredStore::new();

    let slot = 100;
    let shred_index = 5;
    let (shred_bytes, shred_len) = create_dummy_shred(slot, shred_index);

    store.store_shred_internal(slot, shred_index, shred_bytes, shred_len, ShredType::Data);

    let retrieved = store.get_shred_num(slot, shred_index);

    assert!(retrieved.0.is_some(), "Expected shred not found in slot {}", slot);
    let (ret_len, ret_shred) = retrieved.0.unwrap();
    assert_eq!(ret_len, shred_len);
    assert_eq!(ret_shred, shred_bytes);
}

#[test]
fn test_store_multiple_shreds_same_slot() {
    let mut store = ShredStore::new();

    let slot = 200;

    let (shred_bytes1, shred_len1) = create_dummy_shred(slot, 10);
    let (shred_bytes2, shred_len2) = create_dummy_shred(slot, 20);

    store.store_shred_internal(slot, 10, shred_bytes1, shred_len1, ShredType::Data);
    store.store_shred_internal(slot, 20, shred_bytes2, shred_len2, ShredType::Data);

    let retrieved1 = store.get_shred_num(slot, 10);
    let retrieved2 = store.get_shred_num(slot, 20);

    assert!(retrieved1.0.is_some(), "Shred with index 10 not found");
    assert!(retrieved2.0.is_some(), "Shred with index 20 not found");

    let (ret_len1, ret_shred1) = retrieved1.0.unwrap();
    let (ret_len2, ret_shred2) = retrieved2.0.unwrap();

    assert_eq!(ret_len1, shred_len1);
    assert_eq!(ret_shred1, shred_bytes1);
    assert_eq!(ret_len2, shred_len2);
    assert_eq!(ret_shred2, shred_bytes2);
}

#[test]
fn test_store_out_of_order() {
    let mut store = ShredStore::new();

    let slot_new = 300;
    let shred_index_new = 15;
    let (shred_bytes_new, shred_len_new) = create_dummy_shred(slot_new, shred_index_new);
    store.store_shred_internal(slot_new, shred_index_new, shred_bytes_new, shred_len_new, ShredType::Data);

    assert_eq!(store.max_slot(), slot_new);

    let slot_old = 299;
    let shred_index_old = 25;
    let (shred_bytes_old, shred_len_old) = create_dummy_shred(slot_old, shred_index_old);
    store.store_shred_internal(slot_old, shred_index_old, shred_bytes_old, shred_len_old, ShredType::Data);

    assert_eq!(store.max_slot(), slot_new);

    let retrieved_new = store.get_shred_num(slot_new, shred_index_new);
    let retrieved_old = store.get_shred_num(slot_old, shred_index_old);

    assert!(retrieved_new.0.is_some(), "Newer shred not found");
    assert!(retrieved_old.0.is_some(), "Older shred not found");
}

#[test]
fn coding_shred_goes_to_coding_position() {
    let mut store = ShredStore::new();
    let (bytes, len) = create_dummy_shred(7, 3);
    store.store_shred_internal(7, 3, bytes, len, ShredType::Code);
    let r = store.get_shred_num(7, 3);
    assert!(r.0.is_none());
    assert_eq!(r.1, Some((len, bytes)));
}

#[test]
fn same_index_overwrite_keeps_latest() {
    let mut store = ShredStore::new();
    let (a, la) = create_dummy_shred(50, 1);
    let (mut b, lb) = create_dummy_shred(50, 1);
    b[200] = 9;
    store.store_shred_internal(50, 1, a, la, ShredType::Data);
    store.store_shred_internal(50, 1, b, lb, ShredType::Data);
    assert_eq!(store.get_shred_num(50, 1).0, Some((lb, b)));
}

#[test]
fn newer_slot_evicts_older_at_same_position() {
    let mut store = ShredStore::new();
    let old_slot = 10u64;
    let new_slot = old_slot + CAPACITY as u64;
    let (a, la) = create_dummy_shred(old_slot, 4);
    let (b, lb) = create_dummy_shred(new_slot, 5);
    store.store_shred_internal(old_slot, 4, a, la, ShredType::Data);
    store.store_shred_internal(new_slot, 5, b, lb, ShredType::Data);
    assert_eq!(store.get_shred_num(old_slot, 4), (None, None));
    assert_eq!(store.get_shred_num(new_slot, 5).0, Some((lb, b)));
    assert_eq!(store.get_shred_num(new_slot, 4), (None, None));
}

#[test]
fn stale_slot_is_ignored() {
    let mut store = ShredStore::new();
    let new_slot = 10u64 + CAPACITY as u64;
    let (b, lb) = create_dummy_shred(new_slot, 5);
    store.store_shred_internal(new_slot, 5, b, lb, ShredType::Data);
    let (a, la) = create_dummy_shred(10, 4);
    store.store_shred_internal(10, 4, a, la, ShredType::Data);
    assert_eq!(store.get_shred_num(10, 4), (None, None));
    assert_eq!(store.get_shred_num(new_slot, 5).0, Some((lb, b)));
    assert_eq!(store.max_slot(), new_slot);
}

#[test]
fn lookups_outside_window_are_empty() {
    let mut store = ShredStore::new();
    let (a, la) = create_dummy_shred(5, 1);
    store.store_shred_internal(5, 1, a, la, ShredType::Data);
    let far = 5 + CAPACITY as u64 + 1;
    let (b, lb) = create_dummy_shred(far, 1);
    store.store_shred_internal(far, 1, b, lb, ShredType::Data);
    // slot 5 fell out of the window of the new largest slot
    assert_eq!(store.get_shred_num(5, 1), (None, None));
    // a slot above the largest slot is not answered
    assert_eq!(store.get_shred_num(far + 1, 1), (None, None));
    assert!(store.get_slot_shreds(5).is_empty());
}

#[test]
fn slot_shreds_lists_data_then_coding() {
    let mut store = ShredStore::new();
    let (d1, l1) = create_dummy_shred(9, 1);
    let (d2, l2) = create_dummy_shred(9, 2);
    let (c1, l3) = create_dummy_shred(9, 3);
    store.store_shred_internal(9, 1, d1, l1, ShredType::Data);
    store.store_shred_internal(9, 2, d2, l2, ShredType::Data);
    store.store_shred_internal(9, 3, c1, l3, ShredType::Code);
    let all = store.get_slot_shreds(9);
    assert_eq!(all.len(), 3);
    assert!(all[..2].contains(&(l1, d1)));
    assert!(all[..2].contains(&(l2, d2)));
    assert_eq!(all[2], (l3, c1));
    assert!(store.get_slot_shreds(8).is_empty());
}

#[test]
fn retention_window_keeps_five_thousand_slots_by_default() {
    let mut store = ShredStore::new();
    assert_eq!(store.capacity(), CAPACITY);
    let (a, la) = create_dummy_shred(10, 1);
    let (b, lb) = create_dummy_shred(5010, 1);
    store.store_shred_internal(10, 1, a, la, ShredType::Data);
    store.store_shred_internal(5010, 1, b, lb, ShredType::Data);
    assert_eq!(store.get_shred_num(10, 1).0, Some((la, a)));
    assert_eq!(store.get_shred_num(5010, 1).0, Some((lb, b)));
}

#[test]
fn configured_window_drops_older_slots() {
    let mut store = ShredStore::with_capacity(16);
    assert_eq!(store.capacity(), 16);
    let (a, la) = create_dummy_shred(10, 1);
    store.store_shred_internal(10, 1, a, la, ShredType::Data);
    let (b, lb) = create_dummy_shred(26, 1);
    store.store_shred_internal(26, 1, b, lb, ShredType::Data);
    // slot 10 is 16 slots behind: still in the window, but its ring entry now holds slot 26
    assert_eq!(store.get_shred_num(10, 1), (None, None));
    let (c, lc) = create_dummy_shred(11, 2);
    store.store_shred_internal(11, 2, c, lc, ShredType::Data);
    assert_eq!(store.get_shred_num(11, 2).0, Some((lc, c)));
    let (d, ld) = create_dummy_shred(28, 3);
    store.store_shred_internal(28, 3, d, ld, ShredType::Data);
    // 17 slots behind the largest slot: outside the window
    assert_eq!(store.get_shred_num(11, 2), (None, None));
}
