use overcast::types::{in_window, RingSlotStore, CAPACITY};

#[test]
fn ring_index_wraps_at_capacity() {
    let store = RingSlotStore::<u64>::new();
    assert_eq!(store.capacity(), CAPACITY);
    assert_eq!(store.index_for_slot(0), 0);
    assert_eq!(store.index_for_slot(CAPACITY as u64 + 1), 1);
    assert_eq!(store.index_for_slot(CAPACITY as u64 * 3 + 17), 17);
    assert_eq!(store.max_slot(), 0);
}

#[test]
fn default_window_is_about_an_hour() {
    // 400 ms slots: 9000 slots are one hour
    assert_eq!(CAPACITY, 9000);
}

#[test]
fn get_answers_only_inside_window() {
    let mut store = RingSlotStore::<u64>::with_capacity(4096);
    assert_eq!(store.get(0), Some(&0));
    assert_eq!(store.get(1), None);
    store.update_max_slot(5000);
    assert_eq!(store.max_slot(), 5000);
    assert_eq!(store.get(903), None);
    assert_eq!(store.get(904), Some(&0));
    assert_eq!(store.get(5000), Some(&0));
    assert_eq!(store.get(5001), None);
    // the largest slot never goes down
    store.update_max_slot(10);
    assert_eq!(store.max_slot(), 5000);
}

#[test]
fn default_window_keeps_five_thousand_slots() {
    let mut store = RingSlotStore::<u64>::new();
    store.update_max_slot(5010);
    assert_eq!(store.get(10), Some(&0));
    store.update_max_slot(10 + CAPACITY as u64 + 1);
    assert_eq!(store.get(10), None);
}

#[test]
fn max_slot_is_maximum_of_raises_in_any_order() {
    let mut a = RingSlotStore::<u64>::with_capacity(8);
    let mut b = RingSlotStore::<u64>::with_capacity(8);
    for s in [7u64, 3, 12, 9] {
        a.update_max_slot(s);
    }
    for s in [9u64, 12, 3, 7] {
        b.update_max_slot(s);
    }
    assert_eq!(a.max_slot(), 12);
    assert_eq!(b.max_slot(), 12);
}

#[test]
fn entry_refuses_slots_above_max() {
    let mut store = RingSlotStore::<u64>::new();
    store.update_max_slot(100);
    assert!(store.entry(101).is_none());
    *store.entry(10).unwrap() = 77;
    assert_eq!(*store.get_unchecked(10), 77);
    assert_eq!(*store.get_unchecked(10 + CAPACITY as u64), 77);
    *store.get_unchecked_mut(11) = 5;
    assert_eq!(store.get(11), Some(&5));
}

#[test]
fn window_bounds() {
    assert!(in_window(0, 0, 4096));
    assert!(!in_window(1, 0, 4096));
    assert!(in_window(904, 5000, 4096));
    assert!(!in_window(903, 5000, 4096));
    assert!(in_window(0, 4096, 4096));
    assert!(!in_window(0, 4097, 4096));
    assert!(in_window(10, 5010, CAPACITY as u64));
}
