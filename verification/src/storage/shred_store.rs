//! The shred store: for each slot of the retention window, the data and the
//! coding shreds received, keyed by shred index.
use vstd::prelude::*;
use crate::types::{
    in_window, max_u64, ring_index, slot_in_window, RingSlotStore, ShredInfo, ShredType,
    CAPACITY, SHRED_SIZE,
};
use crate::maps::{
    lists_keys_once, no_shreds, shred_map_clear, shred_map_contents, shred_map_get,
    shred_map_insert, shred_map_keys, shred_map_new, ShredMap,
};

verus! {

/// The shreds of one slot of one type, keyed by shred index.
pub type SlotMap = ShredMap;

/// One ring entry: the slot it currently holds and that slot's shreds.
pub struct SlotInfo {
    pub slot_num: u64,
    pub data: SlotMap,
    pub code: SlotMap,
}

/// What a ring entry holds.
pub struct SlotShreds {
    pub slot_num: u64,
    pub data: Map<u32, ShredInfo>,
    pub code: Map<u32, ShredInfo>,
}

impl View for SlotInfo {
    type V = SlotShreds;

    open spec fn view(&self) -> SlotShreds {
        SlotShreds {
            slot_num: self.slot_num,
            data: shred_map_contents(self.data),
            code: shred_map_contents(self.code),
        }
    }
}

pub open spec fn empty_slot(slot_num: u64) -> SlotShreds {
    SlotShreds { slot_num, data: no_shreds(), code: no_shreds() }
}

impl Default for SlotInfo {
    fn default() -> (r: Self)
        ensures
            r@ == empty_slot(0),
    {
        SlotInfo { slot_num: 0, data: shred_map_new(), code: shred_map_new() }
    }
}

/// The value stored under `k`, if any.
pub open spec fn map_get<V>(m: Map<u32, V>, k: u32) -> Option<V> {
    if m.contains_key(k) {
        Some(m[k])
    } else {
        None
    }
}

/// The values of `m` under `keys`, in that order.
pub open spec fn values_at<V>(m: Map<u32, V>, keys: Seq<u32>) -> Seq<V> {
    keys.map_values(|k: u32| m[k])
}

/// Every stored shred uses at most `SHRED_SIZE` bytes of its buffer.
pub open spec fn lengths_fit(m: Map<u32, ShredInfo>) -> bool {
    forall|k: u32| #[trigger] m.contains_key(k) ==> m[k].0 <= SHRED_SIZE
}

/// What the whole store holds.
pub struct ShredStoreView {
    pub max_slot: u64,
    pub slots: Seq<SlotShreds>,
}

impl ShredStoreView {
    pub open spec fn wf(self) -> bool {
        &&& 0 < self.slots.len() <= u64::MAX
        &&& forall|i: int| 0 <= i < self.slots.len() ==> (#[trigger] self.slots[i]).slot_num <= self.max_slot
        &&& forall|i: int| 0 <= i < self.slots.len() ==> lengths_fit((#[trigger] self.slots[i]).data)
        &&& forall|i: int| 0 <= i < self.slots.len() ==> lengths_fit((#[trigger] self.slots[i]).code)
    }

    /// The retention window, in slots: the number of ring entries.
    pub open spec fn capacity(self) -> nat {
        self.slots.len()
    }

    /// The ring entry that `slot` maps to.
    pub open spec fn entry(self, slot: u64) -> SlotShreds {
        self.slots[ring_index(slot, self.capacity())]
    }

    /// Whether the store answers for `slot`: it is in the window and its ring
    /// entry holds it.
    pub open spec fn holds_slot(self, slot: u64) -> bool {
        slot_in_window(slot, self.max_slot, self.capacity()) && self.entry(slot).slot_num == slot
    }

    /// The data shred and the coding shred with index `idx` of `slot`.
    pub open spec fn lookup(self, slot: u64, idx: u32) -> (Option<ShredInfo>, Option<ShredInfo>) {
        if self.holds_slot(slot) {
            (map_get(self.entry(slot).data, idx), map_get(self.entry(slot).code, idx))
        } else {
            (None, None)
        }
    }

    /// The entry after a shred of `slot` arrives: a newer slot replaces the
    /// entry's shreds, an older one is ignored.
    pub open spec fn stored_entry(
        e: SlotShreds,
        slot: u64,
        idx: u32,
        info: ShredInfo,
        ty: ShredType,
    ) -> SlotShreds {
        if slot < e.slot_num {
            e
        } else {
            let base = if slot > e.slot_num { empty_slot(slot) } else { e };
            match ty {
                ShredType::Data => SlotShreds { data: base.data.insert(idx, info), ..base },
                ShredType::Code => SlotShreds { code: base.code.insert(idx, info), ..base },
            }
        }
    }

    /// The store after a shred of `slot` with index `idx` arrives.
    pub open spec fn store(
        self,
        slot: u64,
        idx: u32,
        info: ShredInfo,
        ty: ShredType,
    ) -> ShredStoreView {
        ShredStoreView {
            max_slot: max_u64(self.max_slot, slot),
            slots: self.slots.update(
                ring_index(slot, self.capacity()),
                Self::stored_entry(self.entry(slot), slot, idx, info, ty),
            ),
        }
    }
}

/// The shred store.
pub struct ShredStore {
    inner: RingSlotStore<SlotInfo>,
}

impl View for ShredStore {
    type V = ShredStoreView;

    closed spec fn view(&self) -> ShredStoreView {
        ShredStoreView {
            max_slot: self.inner.max_slot_spec(),
            slots: self.inner.slots().map_values(|e: SlotInfo| e@),
        }
    }
}

impl ShredStore {
    pub closed spec fn well_formed(&self) -> bool {
        self.inner.well_formed() && self@.wf()
    }

    /// The view of a well-formed store is well formed.
    pub proof fn lemma_view_wf(&self)
        requires
            self.well_formed(),
        ensures
            self@.wf(),
    {
    }

    /// An empty store that keeps the last `capacity` slots: every entry holds
    /// slot zero with no shreds.
    pub fn with_capacity(capacity: usize) -> (r: Self)
        requires
            capacity > 0,
        ensures
            r.well_formed(),
            r@.wf(),
            r@.max_slot == 0,
            r@.slots.len() == capacity,
            forall|i: int| 0 <= i < capacity ==> #[trigger] r@.slots[i] == empty_slot(0),
    {
        let inner = RingSlotStore::<SlotInfo>::with_capacity(capacity);
        let r = ShredStore { inner };
        assert forall|i: int| 0 <= i < capacity implies #[trigger] r@.slots[i] == empty_slot(0) by {
            assert(call_ensures(SlotInfo::default, (), r.inner.slots()[i]));
        }
        r
    }

    /// An empty store with the default window of `CAPACITY` slots.
    pub fn new() -> (r: Self)
        ensures
            r.well_formed(),
            r@.wf(),
            r@.max_slot == 0,
            r@.slots.len() == CAPACITY,
            forall|i: int| 0 <= i < CAPACITY ==> #[trigger] r@.slots[i] == empty_slot(0),
    {
        Self::with_capacity(CAPACITY)
    }

    /// The retention window, in slots.
    pub fn capacity(&self) -> (r: usize)
        ensures
            r == self@.capacity(),
    {
        self.inner.capacity()
    }

    /// Records a shred of `slot` with index `shred_index`: a slot newer than
    /// the one its ring entry holds takes the entry over, an older one is
    /// dropped; the largest slot is raised to `slot`.
    pub fn store_shred_internal(
        &mut self,
        slot: u64,
        shred_index: u32,
        shred: [u8; SHRED_SIZE],
        shred_len: usize,
        shred_type: ShredType,
    )
        requires
            old(self).well_formed(),
            shred_len <= SHRED_SIZE,
        ensures
            final(self).well_formed(),
            final(self)@.wf(),
            final(self)@ == old(self)@.store(slot, shred_index, (shred_len, shred), shred_type),
    {
        let ghost old_view = self@;
        let slot_entry = self.inner.get_unchecked_mut(slot);
        let stored_slot_num = slot_entry.slot_num;
        if slot >= stored_slot_num {
            if slot > stored_slot_num {
                shred_map_clear(&mut slot_entry.data);
                shred_map_clear(&mut slot_entry.code);
                slot_entry.slot_num = slot;
            }
            match shred_type {
                ShredType::Data => {
                    shred_map_insert(&mut slot_entry.data, shred_index, (shred_len, shred));
                },
                ShredType::Code => {
                    shred_map_insert(&mut slot_entry.code, shred_index, (shred_len, shred));
                },
            }
        }
        let current_max = self.inner.max_slot();
        if slot > current_max {
            self.inner.update_max_slot(slot);
        }
        proof {
            let new_view = old_view.store(slot, shred_index, (shred_len, shred), shred_type);
            assert(self@.slots =~= new_view.slots);
            assert forall|i: int| 0 <= i < self@.slots.len() implies lengths_fit(
                (#[trigger] self@.slots[i]).data,
            ) && lengths_fit(self@.slots[i].code) && self@.slots[i].slot_num <= self@.max_slot by {
                if i != ring_index(slot, old_view.capacity()) {
                    assert(self@.slots[i] == old_view.slots[i]);
                }
            }
        }
    }

    /// The data shred and the coding shred with index `shred_num` of `slot_num`.
    fn get_shred_internal(&self, slot_num: u64, shred_num: u32) -> (r: (
        Option<ShredInfo>,
        Option<ShredInfo>,
    ))
        requires
            self.well_formed(),
        ensures
            r == self@.lookup(slot_num, shred_num),
    {
        let max_slot_value = self.inner.max_slot();
        if !in_window(slot_num, max_slot_value, self.inner.capacity() as u64) {
            return (None, None);
        }
        let slot_entry = self.inner.get_unchecked(slot_num);
        if slot_entry.slot_num == slot_num {
            (shred_map_get(&slot_entry.data, shred_num), shred_map_get(&slot_entry.code, shred_num))
        } else {
            (None, None)
        }
    }

    /// The data shred and the coding shred with index `shred_num` of `slot_num`.
    pub fn get_shred_num(&self, slot_num: u64, shred_num: u32) -> (r: (
        Option<ShredInfo>,
        Option<ShredInfo>,
    ))
        requires
            self.well_formed(),
        ensures
            r == self@.lookup(slot_num, shred_num),
            r.0 matches Some(info) ==> info.0 <= SHRED_SIZE,
            r.1 matches Some(info) ==> info.0 <= SHRED_SIZE,
    {
        self.get_shred_internal(slot_num, shred_num)
    }

    /// All shreds of `slot_num`: its data shreds, then its coding shreds, each
    /// group in the order its map lists them; empty when the store does not
    /// hold the slot.
    pub fn get_slot_shreds(&self, slot_num: u64) -> (r: Vec<ShredInfo>)
        requires
            self.well_formed(),
        ensures
            !self@.holds_slot(slot_num) ==> r@.len() == 0,
            self@.holds_slot(slot_num) ==> exists|dk: Seq<u32>, ck: Seq<u32>|
                {
                    &&& lists_keys_once(self@.entry(slot_num).data, dk)
                    &&& lists_keys_once(self@.entry(slot_num).code, ck)
                    &&& r@ == values_at(self@.entry(slot_num).data, dk) + values_at(
                        self@.entry(slot_num).code,
                        ck,
                    )
                },
            forall|i: int| 0 <= i < r@.len() ==> (#[trigger] r@[i]).0 <= SHRED_SIZE,
    {
        let max_slot_value = self.inner.max_slot();
        if !in_window(slot_num, max_slot_value, self.inner.capacity() as u64) {
            return Vec::new();
        }
        let slot_entry = self.inner.get_unchecked(slot_num);
        if slot_entry.slot_num != slot_num {
            return Vec::new();
        }
        let ghost data = shred_map_contents(slot_entry.data);
        let ghost code = shred_map_contents(slot_entry.code);
        proof {
            assert(data == self@.entry(slot_num).data);
            assert(code == self@.entry(slot_num).code);
        }
        let data_keys = shred_map_keys(&slot_entry.data);
        let code_keys = shred_map_keys(&slot_entry.code);
        let mut result: Vec<ShredInfo> = Vec::new();
        let mut i: usize = 0;
        while i < data_keys.len()
            invariant
                0 <= i <= data_keys@.len(),
                lists_keys_once(data, data_keys@),
                data == shred_map_contents(slot_entry.data),
                lengths_fit(data),
                result@ == values_at(data, data_keys@.take(i as int)),
            decreases data_keys@.len() - i,
        {
            let k = data_keys[i];
            assert(data_keys@.to_set().contains(k));
            let v = shred_map_get(&slot_entry.data, k);
            result.push(v.unwrap());
            proof {
                assert(data_keys@.take(i + 1) =~= data_keys@.take(i as int).push(k));
            }
            i = i + 1;
        }
        let ghost data_part = result@;
        let mut j: usize = 0;
        while j < code_keys.len()
            invariant
                0 <= j <= code_keys@.len(),
                lists_keys_once(code, code_keys@),
                code == shred_map_contents(slot_entry.code),
                lengths_fit(code),
                result@ == data_part + values_at(code, code_keys@.take(j as int)),
            decreases code_keys@.len() - j,
        {
            let k = code_keys[j];
            assert(code_keys@.to_set().contains(k));
            let v = shred_map_get(&slot_entry.code, k);
            result.push(v.unwrap());
            proof {
                assert(code_keys@.take(j + 1) =~= code_keys@.take(j as int).push(k));
            }
            j = j + 1;
        }
        proof {
            assert(data_keys@.take(data_keys@.len() as int) =~= data_keys@);
            assert(code_keys@.take(code_keys@.len() as int) =~= code_keys@);
            assert forall|x: int| 0 <= x < result@.len() implies (#[trigger] result@[x]).0 <= SHRED_SIZE by {
                if x < data_part.len() {
                    assert(data.contains_key(data_keys@[x]));
                } else {
                    assert(code_keys@.to_set().contains(code_keys@[x - data_part.len()]));
                }
            }
        }
        result
    }

    /// The largest slot seen.
    pub fn max_slot(&self) -> (r: u64)
        ensures
            r == self@.max_slot,
    {
        self.inner.max_slot()
    }
}

/// Read after write: once a shred is stored for a slot that its ring entry
/// accepts (the entry holds no newer slot) and that stays in the window, a
/// lookup of that slot and index returns the shred, in the data or coding
/// position according to its type.
pub proof fn lemma_read_after_write(
    v: ShredStoreView,
    slot: u64,
    idx: u32,
    info: ShredInfo,
    ty: ShredType,
)
    requires
        v.wf(),
        v.entry(slot).slot_num <= slot,
        v.max_slot <= slot + v.capacity(),
    ensures
        ty == ShredType::Data ==> v.store(slot, idx, info, ty).lookup(slot, idx).0 == Some(info),
        ty == ShredType::Code ==> v.store(slot, idx, info, ty).lookup(slot, idx).1 == Some(info),
{
    let w = v.store(slot, idx, info, ty);
    assert(w.entry(slot) == ShredStoreView::stored_entry(v.entry(slot), slot, idx, info, ty));
}

/// A shred of a slot older than the one its ring entry holds changes nothing.
pub proof fn lemma_stale_store_ignored(
    v: ShredStoreView,
    slot: u64,
    idx: u32,
    info: ShredInfo,
    ty: ShredType,
)
    requires
        v.wf(),
        slot < v.entry(slot).slot_num,
    ensures
        v.store(slot, idx, info, ty) == v,
{
    let w = v.store(slot, idx, info, ty);
    assert(v.entry(slot).slot_num <= v.max_slot);
    assert(w.slots =~= v.slots);
}

/// Storing a shred changes no answer for a slot at another ring position
/// that is in the window after the store.
pub proof fn lemma_store_keeps_other_positions(
    v: ShredStoreView,
    slot: u64,
    idx: u32,
    info: ShredInfo,
    ty: ShredType,
    other: u64,
    other_idx: u32,
)
    requires
        v.wf(),
        ring_index(other, v.capacity()) != ring_index(slot, v.capacity()),
        slot_in_window(other, max_u64(v.max_slot, slot), v.capacity()),
    ensures
        v.store(slot, idx, info, ty).lookup(other, other_idx) == v.lookup(other, other_idx),
{
    let w = v.store(slot, idx, info, ty);
    assert(w.entry(other) == v.entry(other));
    assert(v.entry(other).slot_num <= v.max_slot);
}

/// A shred of a newer slot evicts the slot its ring entry held: nothing of
/// the older slot can be looked up afterwards. (An entry that was never
/// written holds slot zero at every ring position; that is no eviction.)
pub proof fn lemma_newer_slot_evicts_older(
    v: ShredStoreView,
    slot: u64,
    idx: u32,
    info: ShredInfo,
    ty: ShredType,
    any_idx: u32,
)
    requires
        v.wf(),
        slot > v.entry(slot).slot_num,
        ring_index(v.entry(slot).slot_num, v.capacity()) == ring_index(slot, v.capacity()),
    ensures
        v.store(slot, idx, info, ty).lookup(v.entry(slot).slot_num, any_idx) == (
            None::<ShredInfo>,
            None::<ShredInfo>,
        ),
{
    let old_slot = v.entry(slot).slot_num;
    let w = v.store(slot, idx, info, ty);
    assert(w.entry(old_slot).slot_num == slot);
}

/// A shred of a slot newer than the one its ring entry holds leaves that
/// slot with exactly the one new shred: every other index of the slot has
/// neither a data nor a coding shred, and the stored index has nothing of
/// the other type.
pub proof fn lemma_newer_slot_starts_empty(
    v: ShredStoreView,
    slot: u64,
    idx: u32,
    info: ShredInfo,
    ty: ShredType,
    other_idx: u32,
)
    requires
        v.wf(),
        slot > v.entry(slot).slot_num,
    ensures
        other_idx != idx ==> v.store(slot, idx, info, ty).lookup(slot, other_idx) == (
            None::<ShredInfo>,
            None::<ShredInfo>,
        ),
        ty == ShredType::Data ==> v.store(slot, idx, info, ty).lookup(slot, idx).1 is None,
        ty == ShredType::Code ==> v.store(slot, idx, info, ty).lookup(slot, idx).0 is None,
{
    let w = v.store(slot, idx, info, ty);
    assert(w.entry(slot) == ShredStoreView::stored_entry(v.entry(slot), slot, idx, info, ty));
}

/// A shred of the slot its ring entry already holds adds to that slot and
/// takes nothing away: every other index answers as before, and so does the
/// other type at the stored index.
pub proof fn lemma_same_slot_keeps_other_shreds(
    v: ShredStoreView,
    slot: u64,
    idx: u32,
    info: ShredInfo,
    ty: ShredType,
    other_idx: u32,
)
    requires
        v.wf(),
        slot == v.entry(slot).slot_num,
    ensures
        other_idx != idx ==> v.store(slot, idx, info, ty).lookup(slot, other_idx) == v.lookup(
            slot,
            other_idx,
        ),
        ty == ShredType::Data ==> v.store(slot, idx, info, ty).lookup(slot, idx).1 == v.lookup(slot, idx).1,
        ty == ShredType::Code ==> v.store(slot, idx, info, ty).lookup(slot, idx).0 == v.lookup(slot, idx).0,
{
    let w = v.store(slot, idx, info, ty);
    assert(v.entry(slot).slot_num <= v.max_slot);
    assert(w.max_slot == v.max_slot);
    assert(w.entry(slot) == ShredStoreView::stored_entry(v.entry(slot), slot, idx, info, ty));
}

} // verus!
