//! The single-map shred store: for each slot of the retention window, the
//! shreds received, keyed by shred index, data and coding alike.
use vstd::prelude::*;
use crate::types::{in_window, max_u64, ring_index, slot_in_window, RingSlotStore, ShredInfo, CAPACITY, SHRED_SIZE};
use crate::maps::{no_shreds, shred_map_contents, shred_map_get, shred_map_insert, shred_map_new, ShredMap};
use crate::storage::shred_store::map_get;

verus! {

/// The shreds of one slot, keyed by shred index.
pub type SlotMap = ShredMap;

/// One ring entry: the slot it holds and that slot's shreds.
pub struct SlotEntry {
    pub slot_num: u64,
    pub shreds: SlotMap,
}

impl View for SlotEntry {
    type V = (u64, Map<u32, ShredInfo>);

    open spec fn view(&self) -> (u64, Map<u32, ShredInfo>) {
        (self.slot_num, shred_map_contents(self.shreds))
    }
}

impl Default for SlotEntry {
    fn default() -> (r: Self)
        ensures
            r@ == (0u64, no_shreds()),
    {
        SlotEntry { slot_num: 0, shreds: shred_map_new() }
    }
}

/// What the whole store holds.
pub struct SingleMapStoreView {
    pub max_slot: u64,
    pub slots: Seq<(u64, Map<u32, ShredInfo>)>,
}

impl SingleMapStoreView {
    pub open spec fn wf(self) -> bool {
        &&& 0 < self.slots.len() <= u64::MAX
        &&& forall|i: int| 0 <= i < self.slots.len() ==> (#[trigger] self.slots[i]).0 <= self.max_slot
    }

    /// The retention window, in slots: the number of ring entries.
    pub open spec fn capacity(self) -> nat {
        self.slots.len()
    }

    pub open spec fn entry(self, slot: u64) -> (u64, Map<u32, ShredInfo>) {
        self.slots[ring_index(slot, self.capacity())]
    }

    /// The shred with index `idx` of `slot`, when the store holds the slot.
    pub open spec fn lookup(self, slot: u64, idx: u32) -> Option<ShredInfo> {
        if slot_in_window(slot, self.max_slot, self.capacity()) && self.entry(slot).0 == slot {
            map_get(self.entry(slot).1, idx)
        } else {
            None
        }
    }

    /// The store after a shred of `slot` arrives: a newer slot starts a fresh
    /// map, the same slot adds to it, an older one is ignored.
    pub open spec fn store(self, slot: u64, idx: u32, info: ShredInfo) -> SingleMapStoreView {
        let e = self.entry(slot);
        let e2 = if slot > e.0 {
            (slot, no_shreds().insert(idx, info))
        } else if slot == e.0 {
            (e.0, e.1.insert(idx, info))
        } else {
            e
        };
        SingleMapStoreView {
            max_slot: max_u64(self.max_slot, slot),
            slots: self.slots.update(ring_index(slot, self.capacity()), e2),
        }
    }
}

/// The single-map shred store.
pub struct ShredStore {
    slots: RingSlotStore<SlotEntry>,
}

impl View for ShredStore {
    type V = SingleMapStoreView;

    closed spec fn view(&self) -> SingleMapStoreView {
        SingleMapStoreView {
            max_slot: self.slots.max_slot_spec(),
            slots: self.slots.slots().map_values(|e: SlotEntry| e@),
        }
    }
}

impl ShredStore {
    pub closed spec fn well_formed(&self) -> bool {
        self.slots.well_formed() && self@.wf()
    }

    /// The view of a well-formed store is well formed.
    pub proof fn lemma_view_wf(&self)
        requires
            self.well_formed(),
        ensures
            self@.wf(),
    {
    }

    /// An empty store that keeps the last `capacity` slots.
    pub fn with_capacity(capacity: usize) -> (r: Self)
        requires
            capacity > 0,
        ensures
            r.well_formed(),
            r@.wf(),
            r@.max_slot == 0,
            r@.slots.len() == capacity,
            forall|i: int| 0 <= i < capacity ==> #[trigger] r@.slots[i] == (0u64, no_shreds()),
    {
        let slots = RingSlotStore::<SlotEntry>::with_capacity(capacity);
        let r = ShredStore { slots };
        assert forall|i: int| 0 <= i < capacity implies #[trigger] r@.slots[i] == (0u64, no_shreds()) by {
            assert(call_ensures(SlotEntry::default, (), r.slots.slots()[i]));
        }
        r
    }

    /// An empty store with the default window of `CAPACITY` slots.
    pub fn new() -> (r: Self)
        ensures
            r.well_formed(),
            r@.wf(),
            r@.max_slot == 0,
            r@.slots.len() == CAPACITY,
            forall|i: int| 0 <= i < CAPACITY ==> #[trigger] r@.slots[i] == (0u64, no_shreds()),
    {
        Self::with_capacity(CAPACITY)
    }

    /// The retention window, in slots.
    pub fn capacity(&self) -> (r: usize)
        ensures
            r == self@.capacity(),
    {
        self.slots.capacity()
    }

    /// Records a shred of `slot` with index `shred_index` (see `SingleMapStoreView::store`).
    pub fn store_shred_internal(
        &mut self,
        slot: u64,
        shred_index: u32,
        shred: [u8; SHRED_SIZE],
        shred_len: usize,
    )
        requires
            old(self).well_formed(),
        ensures
            final(self).well_formed(),
            final(self)@.wf(),
            final(self)@ == old(self)@.store(slot, shred_index, (shred_len, shred)),
    {
        let ghost old_view = self@;
        let slot_entry = self.slots.get_unchecked_mut(slot);
        let stored_slot_num = slot_entry.slot_num;
        if slot > stored_slot_num {
            slot_entry.shreds = shred_map_new();
            slot_entry.slot_num = slot;
            shred_map_insert(&mut slot_entry.shreds, shred_index, (shred_len, shred));
        } else if slot == stored_slot_num {
            shred_map_insert(&mut slot_entry.shreds, shred_index, (shred_len, shred));
        }
        let current_max = self.slots.max_slot();
        if slot > current_max {
            self.slots.update_max_slot(slot);
        }
        proof {
            let new_view = old_view.store(slot, shred_index, (shred_len, shred));
            assert(self@.slots =~= new_view.slots);
            assert forall|i: int| 0 <= i < self@.slots.len() implies (#[trigger] self@.slots[i]).0 <= self@.max_slot by {
                if i != ring_index(slot, old_view.capacity()) {
                    assert(self@.slots[i] == old_view.slots[i]);
                }
            }
        }
    }

    fn get_shred_internal(&self, slot_num: u64, shred_num: u32) -> (r: Option<ShredInfo>)
        requires
            self.well_formed(),
        ensures
            r == self@.lookup(slot_num, shred_num),
    {
        let max_slot_value = self.slots.max_slot();
        if !in_window(slot_num, max_slot_value, self.slots.capacity() as u64) {
            return None;
        }
        let slot_entry = self.slots.get_unchecked(slot_num);
        if slot_entry.slot_num == slot_num {
            shred_map_get(&slot_entry.shreds, shred_num)
        } else {
            None
        }
    }

    /// The shred with index `shred_num` of `slot_num`, when the store holds the slot.
    pub fn get_shred_num(&self, slot_num: u64, shred_num: u32) -> (r: Option<ShredInfo>)
        requires
            self.well_formed(),
        ensures
            r == self@.lookup(slot_num, shred_num),
    {
        self.get_shred_internal(slot_num, shred_num)
    }

    /// The largest slot seen.
    pub fn max_slot(&self) -> (r: u64)
        ensures
            r == self@.max_slot,
    {
        self.slots.max_slot()
    }
}

/// Read after write: a shred stored for a slot that its ring entry accepts
/// and that stays in the window can be looked up.
pub proof fn lemma_single_map_read_after_write(v: SingleMapStoreView, slot: u64, idx: u32, info: ShredInfo)
    requires
        v.wf(),
        v.entry(slot).0 <= slot,
        v.max_slot <= slot + v.capacity(),
    ensures
        v.store(slot, idx, info).lookup(slot, idx) == Some(info),
{
    assert(v.store(slot, idx, info).entry(slot).0 == slot);
}

/// A shred of a slot older than the one its ring entry holds changes nothing.
pub proof fn lemma_single_map_stale_store_ignored(v: SingleMapStoreView, slot: u64, idx: u32, info: ShredInfo)
    requires
        v.wf(),
        slot < v.entry(slot).0,
    ensures
        v.store(slot, idx, info) == v,
{
    assert(v.entry(slot).0 <= v.max_slot);
    assert(v.store(slot, idx, info).slots =~= v.slots);
}

/// A shred of a slot newer than the one its ring entry holds leaves that
/// slot with exactly the one new shred: every other index answers nothing.
pub proof fn lemma_single_map_newer_slot_starts_empty(
    v: SingleMapStoreView,
    slot: u64,
    idx: u32,
    info: ShredInfo,
    other_idx: u32,
)
    requires
        v.wf(),
        slot > v.entry(slot).0,
        other_idx != idx,
    ensures
        v.store(slot, idx, info).lookup(slot, other_idx) is None,
{
}

/// A shred of the slot its ring entry already holds takes nothing away:
/// every other index answers as before.
pub proof fn lemma_single_map_same_slot_keeps_others(
    v: SingleMapStoreView,
    slot: u64,
    idx: u32,
    info: ShredInfo,
    other_idx: u32,
)
    requires
        v.wf(),
        slot == v.entry(slot).0,
        other_idx != idx,
    ensures
        v.store(slot, idx, info).lookup(slot, other_idx) == v.lookup(slot, other_idx),
{
    assert(v.entry(slot).0 <= v.max_slot);
}

} // verus!
