//! The slot-metadata store: for each slot of the retention window, which
//! shred indices arrived in each FEC set, the erasure parameters of each FEC
//! set, the last FEC set of the slot and when the slot last saw a shred; and
//! the bookkeeping that hands quiet slots to repair.
use vstd::prelude::*;
use std::collections::HashMap;
use std::time::{Duration, SystemTime, SystemTimeError};
use crate::types::{
    max_u64, ring_index, slot_in_window, RingSlotStore, ShredHeader, ShredType, CAPACITY,
    DEFER_REPAIR_THRESHOLD,
};
use crate::maps::{
    fec_meta_map_contains_key, fec_meta_map_contents, fec_meta_map_insert, fec_meta_map_new,
    index_map_clear, index_map_contents, index_map_entry, index_map_new, no_fec_meta, no_indices,
    FecMetaMap, IndexMap,
};

verus! {

/// Index of a FEC set within its slot.
pub type FecIndex = u32;

/// Index of a shred within its slot.
pub type Index = u32;

/// Shred indices of a slot, by FEC set.
pub type FecMap = IndexMap;

/// Erasure parameters of a slot, by FEC set.
pub type FecInfoMap = FecMetaMap;

/// Erasure parameters of one FEC set.
#[derive(Clone, Copy, Debug, PartialEq, Eq, Structural)]
pub struct FecMeta {
    pub num_data_shreds: u16,
    pub num_coding_shreds: u16,
}

impl Default for FecMeta {
    fn default() -> (r: Self)
        ensures
            r.num_data_shreds == 0 && r.num_coding_shreds == 0,
    {
        FecMeta { num_data_shreds: 0, num_coding_shreds: 0 }
    }
}

/// One ring entry of the metadata store.
pub struct SlotMetadata {
    pub slot_num: u64,
    pub fec_data_map: FecMap,
    pub fec_coding_map: FecMap,
    pub fec_meta: FecInfoMap,
    pub timestamp: u64,
    pub last_fec_set: u32,
    pub completed: bool,
}

/// What a ring entry of the metadata store holds.
pub struct SlotMetaView {
    pub slot_num: u64,
    pub data: Map<u32, Seq<u32>>,
    pub coding: Map<u32, Seq<u32>>,
    pub meta: Map<u32, FecMeta>,
    pub timestamp: u64,
    pub last_fec_set: u32,
    pub completed: bool,
}

impl View for SlotMetadata {
    type V = SlotMetaView;

    open spec fn view(&self) -> SlotMetaView {
        SlotMetaView {
            slot_num: self.slot_num,
            data: index_map_contents(self.fec_data_map),
            coding: index_map_contents(self.fec_coding_map),
            meta: fec_meta_map_contents(self.fec_meta),
            timestamp: self.timestamp,
            last_fec_set: self.last_fec_set,
            completed: self.completed,
        }
    }
}

pub open spec fn empty_slot_meta() -> SlotMetaView {
    SlotMetaView {
        slot_num: 0,
        data: no_indices(),
        coding: no_indices(),
        meta: no_fec_meta(),
        timestamp: 0,
        last_fec_set: 0,
        completed: false,
    }
}

impl Default for SlotMetadata {
    fn default() -> (r: Self)
        ensures
            r@ == empty_slot_meta(),
    {
        SlotMetadata {
            slot_num: 0,
            fec_data_map: index_map_new(),
            fec_coding_map: index_map_new(),
            fec_meta: fec_meta_map_new(),
            timestamp: 0,
            last_fec_set: 0,
            completed: false,
        }
    }
}

/// The indices listed under `fec`, or none.
pub open spec fn indices_of(m: Map<u32, Seq<u32>>, fec: u32) -> Seq<u32> {
    if m.contains_key(fec) {
        m[fec]
    } else {
        Seq::empty()
    }
}

impl SlotMetaView {
    /// The entry after the shred `h` is recorded in it (the arrival time aside):
    /// a data shred that ends its slot names the slot's last FEC set; the first
    /// coding shred of a FEC set records its erasure parameters; and, unless
    /// the entry holds a newer slot, the shred's index is appended to the list
    /// of its FEC set, a newer slot first clearing both index maps.
    pub open spec fn record(self, h: ShredHeader) -> SlotMetaView {
        let fec = h.fec_set_index;
        let e1 = if h.shred_type == ShredType::Data && h.last_in_slot {
            SlotMetaView { last_fec_set: fec, ..self }
        } else {
            self
        };
        let e2 = if h.shred_type == ShredType::Code && !e1.meta.contains_key(fec) {
            match h.coding_header {
                Some(c) => SlotMetaView {
                    meta: e1.meta.insert(
                        fec,
                        FecMeta {
                            num_data_shreds: c.num_data_shreds,
                            num_coding_shreds: c.num_coding_shreds,
                        },
                    ),
                    ..e1
                },
                None => e1,
            }
        } else {
            e1
        };
        if h.slot < e2.slot_num {
            e2
        } else {
            let base = if h.slot > e2.slot_num {
                SlotMetaView { slot_num: h.slot, data: no_indices(), coding: no_indices(), ..e2 }
            } else {
                e2
            };
            match h.shred_type {
                ShredType::Data => SlotMetaView {
                    data: base.data.insert(fec, indices_of(base.data, fec).push(h.index)),
                    ..base
                },
                ShredType::Code => SlotMetaView {
                    coding: base.coding.insert(fec, indices_of(base.coding, fec).push(h.index)),
                    ..base
                },
            }
        }
    }
}

/// What the whole metadata store holds.
pub struct SlotMetaStoreView {
    pub max_slot: u64,
    pub slots: Seq<SlotMetaView>,
}

impl SlotMetaStoreView {
    pub open spec fn wf(self) -> bool {
        &&& 0 < self.slots.len() <= u64::MAX
        &&& forall|i: int| 0 <= i < self.slots.len() ==> (#[trigger] self.slots[i]).slot_num <= self.max_slot
    }

    /// The retention window, in slots: the number of ring entries.
    pub open spec fn capacity(self) -> nat {
        self.slots.len()
    }

    /// The ring entry that `slot` maps to.
    pub open spec fn entry(self, slot: u64) -> SlotMetaView {
        self.slots[ring_index(slot, self.capacity())]
    }

    /// Whether the store answers for `slot`: it is in the window and its ring
    /// entry holds it.
    pub open spec fn holds_slot(self, slot: u64) -> bool {
        slot_in_window(slot, self.max_slot, self.capacity()) && self.entry(slot).slot_num == slot
    }

    /// The store after the shred `h` is recorded (the arrival time aside).
    pub open spec fn record(self, h: ShredHeader) -> SlotMetaStoreView {
        SlotMetaStoreView {
            max_slot: max_u64(self.max_slot, h.slot),
            slots: self.slots.update(ring_index(h.slot, self.capacity()), self.entry(h.slot).record(h)),
        }
    }

    /// The store after the entry of `slot` is stamped with `timestamp`.
    pub open spec fn stamp(self, slot: u64, timestamp: u64) -> SlotMetaStoreView {
        SlotMetaStoreView {
            slots: self.slots.update(
                ring_index(slot, self.capacity()),
                SlotMetaView { timestamp, ..self.entry(slot) },
            ),
            ..self
        }
    }
}

/// The clock could not be read as a time after the Unix epoch.
#[derive(Debug)]
pub enum ClockError {
    BeforeUnixEpoch,
}

#[verifier::external_type_specification]
#[verifier::external_body]
pub struct ExSystemTime(SystemTime);

#[verifier::external_type_specification]
#[verifier::external_body]
pub struct ExSystemTimeError(SystemTimeError);

/// `SystemTime::now`: the current time; nothing is known of it.
#[verifier::external_body]
fn system_time_now() -> SystemTime {
    SystemTime::now()
}

/// `SystemTime::duration_since(UNIX_EPOCH)`: fails when the time lies before
/// the epoch; nothing else is known of it.
#[verifier::external_body]
fn since_unix_epoch(t: &SystemTime) -> Result<Duration, SystemTimeError> {
    t.duration_since(std::time::UNIX_EPOCH)
}

/// `Duration::as_millis`; nothing is known of the duration.
#[verifier::external_body]
fn duration_millis(d: &Duration) -> u128 {
    d.as_millis()
}

/// Milliseconds since the Unix epoch, truncated to 64 bits as the store keeps them.
/// Nothing is stated of the result: the clock decides both its value and
/// whether it succeeds.
fn now_millis() -> Result<u64, ClockError> {
    let now = system_time_now();
    match since_unix_epoch(&now) {
        Ok(d) => {
            let ms = duration_millis(&d);
            Ok(ms as u64)
        },
        Err(_) => Err(ClockError::BeforeUnixEpoch),
    }
}

/// True when a slot last stamped at `stored_ms` counts as stale at `current_ms`.
pub open spec fn is_stale(stored_ms: u64, current_ms: u64) -> bool {
    current_ms >= stored_ms + DEFER_REPAIR_THRESHOLD
}

/// The metadata store.
pub struct SlotMetaStore {
    inner: RingSlotStore<SlotMetadata>,
}

impl View for SlotMetaStore {
    type V = SlotMetaStoreView;

    closed spec fn view(&self) -> SlotMetaStoreView {
        SlotMetaStoreView {
            max_slot: self.inner.max_slot_spec(),
            slots: self.inner.slots().map_values(|e: SlotMetadata| e@),
        }
    }
}

impl SlotMetaStore {
    pub closed spec fn well_formed(&self) -> bool {
        self.inner.well_formed() && self@.wf()
    }

    /// The view of a well-formed store is well formed.
    pub proof fn lemma_view_wf(&self)
        requires
            self.well_formed(),
        ensures
            self@.wf(),
    {
    }

    /// An empty store that keeps the last `capacity` slots.
    pub fn with_capacity(capacity: usize) -> (r: Self)
        requires
            capacity > 0,
        ensures
            r.well_formed(),
            r@.wf(),
            r@.max_slot == 0,
            r@.slots.len() == capacity,
            forall|i: int| 0 <= i < capacity ==> #[trigger] r@.slots[i] == empty_slot_meta(),
    {
        let inner = RingSlotStore::<SlotMetadata>::with_capacity(capacity);
        let r = SlotMetaStore { inner };
        assert forall|i: int| 0 <= i < capacity implies #[trigger] r@.slots[i] == empty_slot_meta() by {
            assert(call_ensures(SlotMetadata::default, (), r.inner.slots()[i]));
        }
        r
    }

    /// An empty store with the default window of `CAPACITY` slots.
    pub fn new() -> (r: Self)
        ensures
            r.well_formed(),
            r@.wf(),
            r@.max_slot == 0,
            r@.slots.len() == CAPACITY,
            forall|i: int| 0 <= i < CAPACITY ==> #[trigger] r@.slots[i] == empty_slot_meta(),
    {
        Self::with_capacity(CAPACITY)
    }

    /// The retention window, in slots.
    pub fn capacity(&self) -> (r: usize)
        ensures
            r == self@.capacity(),
    {
        self.inner.capacity()
    }

    /// The largest slot seen.
    pub fn max_slot(&self) -> (r: u64)
        ensures
            r == self@.max_slot,
    {
        self.inner.max_slot()
    }

    /// The ring entry that `slot` maps to, whatever slot it holds.
    pub fn slot_entry(&self, slot: u64) -> (r: &SlotMetadata)
        requires
            self.well_formed(),
        ensures
            r@ == self@.entry(slot),
    {
        self.inner.get_unchecked(slot)
    }

    /// Records the shred `h` (see `SlotMetaView::record`) and raises the
    /// largest slot to its slot.
    pub fn record_shred_meta(&mut self, h: &ShredHeader)
        requires
            old(self).well_formed(),
        ensures
            final(self).well_formed(),
            final(self)@.wf(),
            final(self)@ == old(self)@.record(*h),
    {
        let ghost old_view = self@;
        let slot = h.slot;
        let fec_index = h.fec_set_index;
        let shred_index = h.index;
        let shred_type = h.shred_type;
        let slot_entry = self.inner.get_unchecked_mut(slot);
        let ghost e0 = slot_entry@;
        let stored_slot_num = slot_entry.slot_num;
        if shred_type == ShredType::Data {
            if h.last_in_slot {
                slot_entry.last_fec_set = fec_index;
            }
        }
        if shred_type == ShredType::Code {
            if !fec_meta_map_contains_key(&slot_entry.fec_meta, fec_index) {
                match h.coding_header {
                    Some(coding_header) => {
                        fec_meta_map_insert(
                            &mut slot_entry.fec_meta,
                            fec_index,
                            FecMeta {
                                num_data_shreds: coding_header.num_data_shreds,
                                num_coding_shreds: coding_header.num_coding_shreds,
                            },
                        );
                    },
                    None => {},
                }
            }
        }
        if slot >= stored_slot_num {
            if slot > stored_slot_num {
                index_map_clear(&mut slot_entry.fec_data_map);
                index_map_clear(&mut slot_entry.fec_coding_map);
                slot_entry.slot_num = slot;
            }
            match shred_type {
                ShredType::Data => {
                    let list = index_map_entry(&mut slot_entry.fec_data_map, fec_index);
                    list.push(shred_index);
                },
                ShredType::Code => {
                    let list = index_map_entry(&mut slot_entry.fec_coding_map, fec_index);
                    list.push(shred_index);
                },
            }
        }
        proof {
            assert(slot_entry@ == e0.record(*h));
        }
        let current_max = self.inner.max_slot();
        if slot > current_max {
            self.inner.update_max_slot(slot);
        }
        proof {
            let new_view = old_view.record(*h);
            assert(self@.slots =~= new_view.slots);
            assert forall|i: int| 0 <= i < self@.slots.len() implies (#[trigger] self@.slots[i]).slot_num
                <= self@.max_slot by {
                if i != ring_index(slot, old_view.capacity()) {
                    assert(self@.slots[i] == old_view.slots[i]);
                }
            }
        }
    }

    /// Stamps the ring entry of `slot` with the arrival time `timestamp`.
    pub fn set_timestamp(&mut self, slot: u64, timestamp: u64)
        requires
            old(self).well_formed(),
        ensures
            final(self).well_formed(),
            final(self)@.wf(),
            final(self)@ == old(self)@.stamp(slot, timestamp),
    {
        let ghost old_view = self@;
        let slot_entry = self.inner.get_unchecked_mut(slot);
        slot_entry.timestamp = timestamp;
        proof {
            assert(self@.slots =~= old_view.stamp(slot, timestamp).slots);
        }
    }

    /// Records the shred `h`, then stamps its slot's entry with the current
    /// time in milliseconds; when the clock reads before the Unix epoch the
    /// record stands and the stamp is not made.
    pub fn store_shred_meta(&mut self, h: &ShredHeader) -> (r: Result<(), ClockError>)
        requires
            old(self).well_formed(),
        ensures
            final(self).well_formed(),
            match r {
                Ok(()) => exists|t: u64| final(self)@ == old(self)@.record(*h).stamp(h.slot, t),
                Err(_) => final(self)@ == old(self)@.record(*h),
            },
    {
        self.record_shred_meta(h);
        match now_millis() {
            Ok(timestamp) => {
                self.set_timestamp(h.slot, timestamp);
                Ok(())
            },
            Err(e) => Err(e),
        }
    }

    /// Whether the slot's entry was last stamped at least
    /// `DEFER_REPAIR_THRESHOLD` milliseconds before `current_ms`.
    pub fn slot_is_stale_at(&self, slot: u64, current_ms: u64) -> (r: bool)
        requires
            self.well_formed(),
        ensures
            r == is_stale(self@.entry(slot).timestamp, current_ms),
    {
        let slot_entry = self.inner.get_unchecked(slot);
        let stored = slot_entry.timestamp;
        current_ms.saturating_sub(stored) >= DEFER_REPAIR_THRESHOLD
    }

    /// The staleness check against the clock: returns whether the slot is
    /// stale and how many milliseconds passed since its stamp; when the clock
    /// cannot be read the stamp itself stands for the current time.
    pub fn check_slot_staleness(&self, slot: u64) -> (r: (bool, u64))
        requires
            self.well_formed(),
        ensures
            exists|now: u64|
                r == (is_stale(self@.entry(slot).timestamp, now), (if now
                    >= self@.entry(slot).timestamp {
                    (now - self@.entry(slot).timestamp) as u64
                } else {
                    0u64
                })),
    {
        let slot_entry = self.inner.get_unchecked(slot);
        let stored = slot_entry.timestamp;
        let current = match now_millis() {
            Ok(ms) => ms,
            Err(_) => stored,
        };
        let stale = self.slot_is_stale_at(slot, current);
        (stale, current.saturating_sub(stored))
    }
}

#[verifier::external_type_specification]
#[verifier::external_body]
pub struct ExDelayKey(tokio_util::time::delay_queue::Key);

/// Which slots have a repair timer running, and the timer of each.
pub struct RepairTimers {
    timers: HashMap<u64, tokio_util::time::delay_queue::Key>,
}

impl RepairTimers {
    /// The slots with a running timer, and their timers.
    pub closed spec fn timers(&self) -> Map<u64, tokio_util::time::delay_queue::Key> {
        self.timers@
    }

    /// No timers.
    pub fn new() -> (r: Self)
        ensures
            r.timers() == Map::<u64, tokio_util::time::delay_queue::Key>::empty(),
    {
        RepairTimers { timers: HashMap::new() }
    }

    /// A shred of `slot` arrived: the timer to restart, if the slot has one;
    /// `None` asks for a new timer, to be registered with `start_timer`.
    pub fn timer_to_reset(&self, slot: u64) -> (r: Option<tokio_util::time::delay_queue::Key>)
        ensures
            r == (if self.timers().contains_key(slot) {
                Some(self.timers()[slot])
            } else {
                None
            }),
    {
        broadcast use vstd::std_specs::hash::group_hash_axioms;
        match self.timers.get(&slot) {
            Some(k) => Some(*k),
            None => None,
        }
    }

    /// Registers the new timer of `slot`.
    pub fn start_timer(&mut self, slot: u64, key: tokio_util::time::delay_queue::Key)
        ensures
            final(self).timers() == old(self).timers().insert(slot, key),
    {
        broadcast use vstd::std_specs::hash::group_hash_axioms;
        self.timers.insert(slot, key);
    }

    /// The timer of `slot` fired: the slot no longer has one, and it is the
    /// slot to hand to repair.
    pub fn timer_expired(&mut self, slot: u64) -> (r: u64)
        ensures
            final(self).timers() == old(self).timers().remove(slot),
            r == slot,
    {
        broadcast use vstd::std_specs::hash::group_hash_axioms;
        self.timers.remove(&slot);
        slot
    }
}

/// A recorded shred whose ring entry accepts its slot is appended to the
/// index list of its FEC set: to the list as it was when the entry already
/// held the slot, to an empty list when the slot takes the entry over.
pub proof fn lemma_record_appends_index(v: SlotMetaStoreView, h: ShredHeader)
    requires
        v.wf(),
        v.entry(h.slot).slot_num <= h.slot,
    ensures
        v.record(h).entry(h.slot).slot_num == h.slot,
        h.shred_type == ShredType::Data ==> indices_of(v.record(h).entry(h.slot).data, h.fec_set_index)
            == (if v.entry(h.slot).slot_num == h.slot {
            indices_of(v.entry(h.slot).data, h.fec_set_index)
        } else {
            Seq::<u32>::empty()
        }).push(h.index),
        h.shred_type == ShredType::Code ==> indices_of(
            v.record(h).entry(h.slot).coding,
            h.fec_set_index,
        ) == (if v.entry(h.slot).slot_num == h.slot {
            indices_of(v.entry(h.slot).coding, h.fec_set_index)
        } else {
            Seq::<u32>::empty()
        }).push(h.index),
{
    assert(v.record(h).entry(h.slot) == v.entry(h.slot).record(h));
}

/// The erasure parameters of a FEC set are those of its first coding shred:
/// a later coding shred of the same FEC set leaves them as they were.
pub proof fn lemma_first_coding_header_wins(v: SlotMetaStoreView, h: ShredHeader)
    requires
        v.wf(),
        h.shred_type == ShredType::Code,
        h.coding_header is Some,
    ensures
        v.record(h).entry(h.slot).meta.contains_key(h.fec_set_index),
        v.entry(h.slot).meta.contains_key(h.fec_set_index) ==> v.record(h).entry(h.slot).meta[h.fec_set_index]
            == v.entry(h.slot).meta[h.fec_set_index],
        !v.entry(h.slot).meta.contains_key(h.fec_set_index) ==> v.record(h).entry(
            h.slot,
        ).meta[h.fec_set_index] == (FecMeta {
            num_data_shreds: h.coding_header.unwrap().num_data_shreds,
            num_coding_shreds: h.coding_header.unwrap().num_coding_shreds,
        }),
{
    assert(v.record(h).entry(h.slot) == v.entry(h.slot).record(h));
}

/// Recording never lowers the largest slot, and afterwards the largest slot
/// is at least the recorded shred's slot.
pub proof fn lemma_record_raises_max_slot(v: SlotMetaStoreView, h: ShredHeader)
    ensures
        v.record(h).max_slot >= v.max_slot,
        v.record(h).max_slot >= h.slot,
{
}

/// When a shred of a slot newer than the one its ring entry holds is
/// recorded, the entry's index lists start afresh: the list of the shred's
/// FEC set and type holds only its index, and every other list is empty.
pub proof fn lemma_newer_slot_lists_only_new_index(v: SlotMetaStoreView, h: ShredHeader, fec: u32)
    requires
        v.wf(),
        h.slot > v.entry(h.slot).slot_num,
    ensures
        v.record(h).entry(h.slot).slot_num == h.slot,
        h.shred_type == ShredType::Data ==> indices_of(v.record(h).entry(h.slot).coding, fec).len() == 0,
        h.shred_type == ShredType::Code ==> indices_of(v.record(h).entry(h.slot).data, fec).len() == 0,
        h.shred_type == ShredType::Data ==> indices_of(v.record(h).entry(h.slot).data, fec) == (if fec
            == h.fec_set_index {
            seq![h.index]
        } else {
            Seq::<u32>::empty()
        }),
        h.shred_type == ShredType::Code ==> indices_of(v.record(h).entry(h.slot).coding, fec) == (if fec
            == h.fec_set_index {
            seq![h.index]
        } else {
            Seq::<u32>::empty()
        }),
{
    assert(v.record(h).entry(h.slot) == v.entry(h.slot).record(h));
    assert(Seq::<u32>::empty().push(h.index) =~= seq![h.index]);
}

/// A shred of the slot its ring entry already holds only appends its index:
/// every other FEC set's lists, and the other type's list of its own FEC
/// set, stay as they were.
pub proof fn lemma_same_slot_keeps_other_lists(v: SlotMetaStoreView, h: ShredHeader, fec: u32)
    requires
        v.wf(),
        h.slot == v.entry(h.slot).slot_num,
    ensures
        fec != h.fec_set_index ==> indices_of(v.record(h).entry(h.slot).data, fec) == indices_of(
            v.entry(h.slot).data,
            fec,
        ),
        fec != h.fec_set_index ==> indices_of(v.record(h).entry(h.slot).coding, fec) == indices_of(
            v.entry(h.slot).coding,
            fec,
        ),
        h.shred_type == ShredType::Data ==> indices_of(v.record(h).entry(h.slot).coding, fec) == indices_of(
            v.entry(h.slot).coding,
            fec,
        ),
        h.shred_type == ShredType::Code ==> indices_of(v.record(h).entry(h.slot).data, fec) == indices_of(
            v.entry(h.slot).data,
            fec,
        ),
{
    assert(v.record(h).entry(h.slot) == v.entry(h.slot).record(h));
}

/// Only a data shred that ends its slot names the slot's last FEC set; any
/// other shred leaves it as it was, whatever order shreds arrive in.
pub proof fn lemma_last_fec_set(v: SlotMetaStoreView, h: ShredHeader)
    requires
        v.wf(),
    ensures
        h.shred_type == ShredType::Data && h.last_in_slot ==> v.record(h).entry(h.slot).last_fec_set
            == h.fec_set_index,
        !(h.shred_type == ShredType::Data && h.last_in_slot) ==> v.record(h).entry(h.slot).last_fec_set
            == v.entry(h.slot).last_fec_set,
{
    assert(v.record(h).entry(h.slot) == v.entry(h.slot).record(h));
}

/// Recording a shred changes only its own slot's ring entry, and leaves that
/// entry's arrival stamp as it was (stamping is a separate step).
pub proof fn lemma_record_touches_only_its_entry(v: SlotMetaStoreView, h: ShredHeader, i: int)
    requires
        v.wf(),
        0 <= i < v.slots.len(),
        i != ring_index(h.slot, v.capacity()),
    ensures
        v.record(h).slots[i] == v.slots[i],
        v.record(h).entry(h.slot).timestamp == v.entry(h.slot).timestamp,
        v.record(h).slots.len() == v.slots.len(),
{
    assert(v.record(h).entry(h.slot) == v.entry(h.slot).record(h));
}

/// Stamping sets the entry's arrival time to exactly the given time, and the
/// staleness test then measures from that time.
pub proof fn lemma_stamp_then_staleness(v: SlotMetaStoreView, slot: u64, t: u64, now: u64)
    requires
        v.wf(),
    ensures
        v.stamp(slot, t).entry(slot).timestamp == t,
        is_stale(v.stamp(slot, t).entry(slot).timestamp, now) <==> now >= t + DEFER_REPAIR_THRESHOLD,
{
}

} // verus!
