use overcast::storage::slot_metadata::{FecMeta, RepairTimers, SlotMetaStore};
use overcast::types::{CodingHeader, ShredHeader, ShredType, DEFER_REPAIR_THRESHOLD};
use std::time::Duration;

fn data(slot: u64, index: u32, fec: u32, last: bool) -> ShredHeader {
    ShredHeader {
        slot,
        index,
        fec_set_index: fec,
        shred_type: ShredType::Data,
        last_in_slot: last,
        coding_header: None,
    }
}

fn code(slot: u64, index: u32, fec: u32, nd: u16, nc: u16) -> ShredHeader {
    ShredHeader {
        slot,
        index,
        fec_set_index: fec,
        shred_type: ShredType::Code,
        last_in_slot: false,
        coding_header: Some(CodingHeader { num_data_shreds: nd, num_coding_shreds: nc, position: 0 }),
    }
}

#[test]
fn records_indices_per_fec_set() {
    let mut store = SlotMetaStore::new();
    store.record_shred_meta(&data(40, 0, 0, false));
    store.record_shred_meta(&data(40, 1, 0, false));
    store.record_shred_meta(&data(40, 32, 32, true));
    store.record_shred_meta(&code(40, 0, 0, 32, 32));
    let e = store.slot_entry(40);
    assert_eq!(e.slot_num, 40);
    assert_eq!(e.fec_data_map.get(&0), Some(&vec![0, 1]));
    assert_eq!(e.fec_data_map.get(&32), Some(&vec![32]));
    assert_eq!(e.fec_coding_map.get(&0), Some(&vec![0]));
    assert_eq!(e.last_fec_set, 32);
    assert_eq!(e.fec_meta.get(&0), Some(&FecMeta { num_data_shreds: 32, num_coding_shreds: 32 }));
    assert_eq!(store.max_slot(), 40);
}

#[test]
fn first_coding_header_wins() {
    let mut store = SlotMetaStore::new();
    store.record_shred_meta(&code(7, 0, 0, 10, 5));
    store.record_shred_meta(&code(7, 1, 0, 99, 99));
    let e = store.slot_entry(7);
    assert_eq!(e.fec_meta.get(&0), Some(&FecMeta { num_data_shreds: 10, num_coding_shreds: 5 }));
    assert_eq!(e.fec_coding_map.get(&0), Some(&vec![0, 1]));
}

#[test]
fn newer_slot_clears_index_lists() {
    let mut store = SlotMetaStore::new();
    store.record_shred_meta(&data(3, 0, 0, false));
    store.record_shred_meta(&data(3 + overcast::types::CAPACITY as u64, 5, 0, false));
    let e = store.slot_entry(3);
    assert_eq!(e.slot_num, 3 + overcast::types::CAPACITY as u64);
    assert_eq!(e.fec_data_map.get(&0), Some(&vec![5]));
    // an older slot's index is not appended
    store.record_shred_meta(&data(3, 1, 0, false));
    let e = store.slot_entry(3);
    assert_eq!(e.fec_data_map.get(&0), Some(&vec![5]));
    assert_eq!(store.max_slot(), 3 + overcast::types::CAPACITY as u64);
}

#[test]
fn stale_after_threshold() {
    let mut store = SlotMetaStore::new();
    store.record_shred_meta(&data(9, 0, 0, false));
    store.set_timestamp(9, 1000);
    assert_eq!(store.slot_entry(9).timestamp, 1000);
    assert!(!store.slot_is_stale_at(9, 1000 + DEFER_REPAIR_THRESHOLD - 1));
    assert!(store.slot_is_stale_at(9, 1000 + DEFER_REPAIR_THRESHOLD));
    assert!(!store.slot_is_stale_at(9, 500));
}

#[test]
fn store_shred_meta_stamps_current_time() {
    let mut store = SlotMetaStore::new();
    assert!(store.store_shred_meta(&data(12, 3, 0, false)).is_ok());
    let e = store.slot_entry(12);
    assert!(e.timestamp > 1_600_000_000_000);
    assert_eq!(e.fec_data_map.get(&0), Some(&vec![3]));
    let (stale, elapsed) = store.check_slot_staleness(12);
    assert!(!stale || elapsed >= DEFER_REPAIR_THRESHOLD);
    assert!(elapsed < 60_000);
}

#[test]
fn repair_timers_track_quiet_slots() {
    let rt = tokio::runtime::Builder::new_current_thread().enable_time().build().unwrap();
    let _guard = rt.enter();
    let mut queue = tokio_util::time::DelayQueue::<u64>::new();
    let mut timers = RepairTimers::new();
    assert!(timers.timer_to_reset(5).is_none());
    let key = queue.insert(5, Duration::from_millis(200));
    timers.start_timer(5, key);
    assert_eq!(timers.timer_to_reset(5), Some(key));
    assert!(timers.timer_to_reset(6).is_none());
    assert_eq!(timers.timer_expired(5), 5);
    assert!(timers.timer_to_reset(5).is_none());
}
