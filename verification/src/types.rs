//! Shared types: the packet-sized shred buffer, the header fields that the
//! store logic reads from a shred, and the ring of per-slot entries that the
//! stores are built on; the ring's size is the retention window in slots.
use vstd::prelude::*;

verus! {

/// Size of one shred buffer: the largest payload of a Solana packet.
pub const SHRED_SIZE: usize = 1232;

/// A received shred: how many bytes of the buffer are used, and the buffer.
pub type ShredInfo = (usize, [u8; SHRED_SIZE]);

/// The default retention window, in slots: about an hour at 400 ms a slot.
pub const CAPACITY: usize = 9000;

/// Milliseconds without a new shred after which a slot is handed to repair.
pub const DEFER_REPAIR_THRESHOLD: u64 = 200;

/// Whether a shred carries data or erasure coding.
#[derive(Clone, Copy, Debug, PartialEq, Eq, Structural)]
pub enum ShredType {
    Data,
    Code,
}

/// The erasure-coding parameters that a coding shred carries.
#[derive(Clone, Copy, Debug, PartialEq, Eq, Structural)]
pub struct CodingHeader {
    pub num_data_shreds: u16,
    pub num_coding_shreds: u16,
    pub position: u16,
}

/// What the stores read from a parsed shred.
#[derive(Clone, Copy, Debug, PartialEq, Eq, Structural)]
pub struct ShredHeader {
    pub slot: u64,
    pub index: u32,
    pub fec_set_index: u32,
    pub shred_type: ShredType,
    pub last_in_slot: bool,
    /// Present exactly for coding shreds (see `well_formed`).
    pub coding_header: Option<CodingHeader>,
}

impl ShredHeader {
    /// A header as parsing produces it: a coding header is present exactly
    /// when the shred is a coding shred.
    pub open spec fn well_formed(self) -> bool {
        (self.shred_type == ShredType::Code) == (self.coding_header is Some)
    }
}

/// Ring position of a slot in a ring of `capacity` entries.
pub open spec fn ring_index(slot: u64, capacity: nat) -> int {
    (slot as int) % (capacity as int)
}

/// The slots that a ring of `capacity` entries whose newest slot is
/// `max_slot` still answers for: from `max_slot - capacity` (saturating at
/// zero) up to `max_slot`.
pub open spec fn slot_in_window(slot: u64, max_slot: u64, capacity: nat) -> bool {
    slot <= max_slot && max_slot <= slot + capacity
}

pub open spec fn max_u64(a: u64, b: u64) -> u64 {
    if a < b { b } else { a }
}

/// True when `slot` lies in the window of `max_slot` for a ring of
/// `capacity` entries, decided as the stores do.
pub fn in_window(slot: u64, max_slot: u64, capacity: u64) -> (r: bool)
    ensures
        r == slot_in_window(slot, max_slot, capacity as nat),
{
    !(slot > max_slot || slot < max_slot.saturating_sub(capacity))
}

/// A ring of entries indexed by slot modulo its size, together with the
/// largest slot seen so far.
pub struct RingSlotStore<T> {
    store: Vec<T>,
    max_slot: u64,
}

impl<T> RingSlotStore<T> {
    /// The entries, by ring position.
    pub closed spec fn slots(&self) -> Seq<T> {
        self.store@
    }

    /// The largest slot recorded.
    pub closed spec fn max_slot_spec(&self) -> u64 {
        self.max_slot
    }

    /// How many slots the ring keeps.
    pub open spec fn capacity_spec(&self) -> nat {
        self.slots().len()
    }

    pub open spec fn well_formed(&self) -> bool {
        0 < self.slots().len() <= u64::MAX
    }

    /// The entry that a slot maps to.
    pub open spec fn entry_of(&self, slot: u64) -> T {
        self.slots()[ring_index(slot, self.capacity_spec())]
    }

    /// How many slots the ring keeps.
    pub fn capacity(&self) -> (r: usize)
        ensures
            r == self.capacity_spec(),
    {
        self.store.len()
    }

    /// Ring position of a slot.
    pub fn index_for_slot(&self, slot: u64) -> (r: usize)
        requires
            self.well_formed(),
        ensures
            r == ring_index(slot, self.capacity_spec()),
            r < self.capacity_spec(),
    {
        (slot % (self.store.len() as u64)) as usize
    }

    /// The largest slot recorded.
    pub fn max_slot(&self) -> (r: u64)
        ensures
            r == self.max_slot_spec(),
    {
        self.max_slot
    }

    /// Raises the largest slot to `slot` if `slot` is larger.
    pub fn update_max_slot(&mut self, slot: u64)
        ensures
            final(self).max_slot_spec() == max_u64(old(self).max_slot_spec(), slot),
            final(self).slots() == old(self).slots(),
    {
        if slot > self.max_slot {
            self.max_slot = slot;
        }
    }

    /// The entry for `slot` when `slot` is in the window of the largest slot.
    pub fn get(&self, slot: u64) -> (r: Option<&T>)
        requires
            self.well_formed(),
        ensures
            match r {
                Some(e) => slot_in_window(slot, self.max_slot_spec(), self.capacity_spec()) && *e
                    == self.entry_of(slot),
                None => !slot_in_window(slot, self.max_slot_spec(), self.capacity_spec()),
            },
    {
        let max_slot_value = self.max_slot();
        if slot > max_slot_value || slot < max_slot_value.saturating_sub(self.store.len() as u64) {
            return None;
        }
        let index = self.index_for_slot(slot);
        Some(&self.store[index])
    }

    /// The entry that `slot` maps to, whatever slot it currently holds.
    pub fn get_unchecked(&self, slot: u64) -> (r: &T)
        requires
            self.well_formed(),
        ensures
            *r == self.entry_of(slot),
    {
        let index = self.index_for_slot(slot);
        &self.store[index]
    }

    /// Mutable access to the entry that `slot` maps to.
    pub fn get_unchecked_mut(&mut self, slot: u64) -> (r: &mut T)
        requires
            old(self).well_formed(),
        ensures
            *r == old(self).entry_of(slot),
            final(self).slots() == old(self).slots().update(
                ring_index(slot, old(self).capacity_spec()),
                *final(r),
            ),
            final(self).max_slot_spec() == old(self).max_slot_spec(),
    {
        let index = self.index_for_slot(slot);
        &mut self.store[index]
    }

    /// Mutable access to the entry of `slot`, refused for slots above the
    /// largest slot.
    pub fn entry(&mut self, slot: u64) -> (r: Option<&mut T>)
        requires
            old(self).well_formed(),
        ensures
            r is None <==> slot > old(self).max_slot_spec(),
            r is None ==> *final(self) == *old(self),
            final(self).max_slot_spec() == old(self).max_slot_spec(),
            match r {
                Some(e) => *e == old(self).entry_of(slot) && final(self).slots() == old(
                    self,
                ).slots().update(ring_index(slot, old(self).capacity_spec()), *final(e)),
                None => true,
            },
    {
        let index = self.index_for_slot(slot);
        if slot > self.max_slot() {
            return None;
        }
        Some(&mut self.store[index])
    }
}

impl<T: Default> RingSlotStore<T> {
    /// A ring of `capacity` default entries, with largest slot zero.
    pub fn with_capacity(capacity: usize) -> (r: Self)
        requires
            capacity > 0,
        ensures
            r.well_formed(),
            r.capacity_spec() == capacity,
            r.max_slot_spec() == 0,
            forall|i: int| 0 <= i < capacity ==> call_ensures(T::default, (), #[trigger] r.slots()[i]),
    {
        let mut store: Vec<T> = Vec::with_capacity(capacity);
        while store.len() < capacity
            invariant
                store.len() <= capacity,
                forall|i: int| 0 <= i < store.len() ==> call_ensures(T::default, (), #[trigger] store@[i]),
            decreases capacity - store.len(),
        {
            store.push(T::default());
        }
        RingSlotStore { store, max_slot: 0 }
    }

    /// A ring of the default window, `CAPACITY` slots, with default entries.
    pub fn new() -> (r: Self)
        ensures
            r.well_formed(),
            r.capacity_spec() == CAPACITY,
            r.max_slot_spec() == 0,
            forall|i: int| 0 <= i < CAPACITY ==> call_ensures(T::default, (), #[trigger] r.slots()[i]),
    {
        Self::with_capacity(CAPACITY)
    }
}

/// The largest slot after raising `start` by each slot of `slots` in turn.
pub open spec fn raised(start: u64, slots: Seq<u64>) -> u64
    decreases slots.len(),
{
    if slots.len() == 0 {
        start
    } else {
        max_u64(raised(start, slots.drop_last()), slots.last())
    }
}

/// Raising the largest slot never lowers it, and afterwards it is at least
/// the slot that was offered.
pub proof fn lemma_max_slot_monotone(old_max: u64, slot: u64)
    ensures
        max_u64(old_max, slot) >= old_max,
        max_u64(old_max, slot) >= slot,
        max_u64(old_max, slot) == old_max || max_u64(old_max, slot) == slot,
{
}

/// After any sequence of raises the largest slot is the maximum of where it
/// started and every slot offered, whatever their order: it is at least
/// each of them and equal to one of them.
pub proof fn lemma_raised_is_maximum(start: u64, slots: Seq<u64>)
    ensures
        raised(start, slots) >= start,
        forall|i: int| 0 <= i < slots.len() ==> raised(start, slots) >= #[trigger] slots[i],
        raised(start, slots) == start || exists|i: int| 0 <= i < slots.len() && raised(start, slots) == slots[i],
    decreases slots.len(),
{
    if slots.len() > 0 {
        let d = slots.drop_last();
        lemma_raised_is_maximum(start, d);
        assert forall|i: int| 0 <= i < slots.len() implies raised(start, slots) >= #[trigger] slots[i] by {
            if i < slots.len() - 1 {
                assert(slots[i] == d[i]);
            }
        }
        if raised(start, slots) != start {
            if raised(start, slots) == slots.last() {
                assert(slots[slots.len() - 1] == slots.last());
            } else {
                let i = choose|i: int| 0 <= i < d.len() && raised(start, d) == d[i];
                assert(slots[i] == d[i]);
            }
        }
    }
}

/// Two distinct slots in the window share a ring position only when the
/// newer is the largest slot and the older lies exactly `capacity` below it.
pub proof fn lemma_window_positions(a: u64, b: u64, max_slot: u64, capacity: nat)
    requires
        capacity > 0,
        slot_in_window(a, max_slot, capacity),
        slot_in_window(b, max_slot, capacity),
        a < b,
        ring_index(a, capacity) == ring_index(b, capacity),
    ensures
        b == a + capacity,
        b == max_slot,
{
    let c = capacity as int;
    assert(b == a + c) by (nonlinear_arith)
        requires
            c > 0,
            a < b,
            b <= a + c,
            (a as int) % c == (b as int) % c,
    {
        vstd::arithmetic::div_mod::lemma_fundamental_div_mod(a as int, c);
        vstd::arithmetic::div_mod::lemma_fundamental_div_mod(b as int, c);
    }
}

} // verus!
