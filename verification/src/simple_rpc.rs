//! The answers of the query interface: the largest slot of each store, a
//! single shred, all shreds of a slot, and the FEC sets of a slot.
use vstd::prelude::*;
use base64::Engine as _;
use crate::types::{in_window, slot_in_window, ShredInfo, SHRED_SIZE};
use crate::maps::{fec_meta_map_contents, fec_meta_map_get, fec_meta_map_keys, index_map_get, lists_keys_once};
use crate::storage::shred_store::{values_at, ShredStore};
use crate::storage::slot_metadata::{indices_of, FecMeta, SlotMetaStore};

verus! {

pub struct MaxSlotResponse {
    pub max_slot: u64,
}

/// One shred, its used bytes in base64.
pub struct ShredResponse {
    pub slot: u64,
    pub data: String,
}

pub struct AllShredsResponse {
    pub slot: u64,
    pub shreds: Vec<ShredResponse>,
}

pub struct FecMetaResponse {
    pub fec_index: u32,
    pub num_data_shreds: u16,
    pub num_coding_shreds: u16,
}

pub struct SlotFecResponse {
    pub slot: u64,
    pub fec_sets: Vec<FecMetaResponse>,
}

pub struct FecSetDetailsResponse {
    pub slot: u64,
    pub fec_index: u32,
    pub num_data_shreds: u16,
    pub num_coding_shreds: u16,
    pub data_indices: Vec<u32>,
    pub coding_indices: Vec<u32>,
}

/// Why a query is refused.
#[derive(Clone, Copy, Debug, PartialEq, Eq, Structural)]
pub enum RpcError {
    /// No data shred with that index is stored for the slot.
    ShredNotFound { slot: u64, shred_index: u32 },
    /// The slot lies outside the window of the store's largest slot.
    SlotOutOfRange { slot: u64, max_slot: u64 },
    /// The store holds no shred of the slot.
    NoShredsFound { slot: u64 },
    /// The slot's ring entry holds another slot.
    SlotMismatch { expected: u64, found: u64 },
    /// No FEC set of the slot has erasure parameters.
    NoFecMetadata { slot: u64 },
    /// The FEC set has no erasure parameters in the slot.
    FecSetNotFound { fec_index: u32, slot: u64 },
}

/// The character of a 6-bit value in the standard base64 alphabet.
pub open spec fn base64_digit(v: int) -> char {
    if v < 26 {
        (65 + v) as char
    } else if v < 52 {
        (97 + v - 26) as char
    } else if v < 62 {
        (48 + v - 52) as char
    } else if v == 62 {
        '+'
    } else {
        '/'
    }
}

/// The standard base64 encoding, with padding, of `bytes`: every three bytes
/// become four characters of six bits each; a last group of one or two
/// bytes is padded with `=` to four characters.
pub open spec fn standard_base64_encode(bytes: Seq<u8>) -> Seq<char>
    decreases bytes.len(),
{
    if bytes.len() == 0 {
        Seq::empty()
    } else if bytes.len() == 1 {
        let a = bytes[0] as int;
        seq![base64_digit(a / 4), base64_digit((a % 4) * 16), '=', '=']
    } else if bytes.len() == 2 {
        let a = bytes[0] as int;
        let b = bytes[1] as int;
        seq![base64_digit(a / 4), base64_digit((a % 4) * 16 + b / 16), base64_digit((b % 16) * 4), '=']
    } else {
        let a = bytes[0] as int;
        let b = bytes[1] as int;
        let c = bytes[2] as int;
        seq![
            base64_digit(a / 4),
            base64_digit((a % 4) * 16 + b / 16),
            base64_digit((b % 16) * 4 + c / 64),
            base64_digit(c % 64),
        ] + standard_base64_encode(bytes.subrange(3, bytes.len() as int))
    }
}

/// `base64::engine::general_purpose::STANDARD.encode`: the padded base64 text
/// of `bytes` in the standard alphabet.
#[verifier::external_body]
fn base64_encode(bytes: &[u8]) -> (result: String)
    ensures
        result@ == standard_base64_encode(bytes@),
{
    base64::engine::general_purpose::STANDARD.encode(bytes)
}

/// The base64 text of the used bytes of a stored shred.
pub open spec fn encoded(info: ShredInfo) -> Seq<char> {
    standard_base64_encode(info.1@.subrange(0, info.0 as int))
}

/// The base64 text of the used bytes of a stored shred.
pub fn encode_shred(info: &ShredInfo) -> (r: String)
    requires
        info.0 <= SHRED_SIZE,
    ensures
        r@ == encoded(*info),
{
    let bytes = vstd::slice::slice_subrange(info.1.as_slice(), 0, info.0);
    base64_encode(bytes)
}

/// The shred store's largest slot.
pub fn handle_max_slot(store: &ShredStore) -> (r: MaxSlotResponse)
    ensures
        r.max_slot == store@.max_slot,
{
    MaxSlotResponse { max_slot: store.max_slot() }
}

/// The metadata store's largest slot.
pub fn handle_meta_max_slot(meta_store: &SlotMetaStore) -> (r: MaxSlotResponse)
    ensures
        r.max_slot == meta_store@.max_slot,
{
    MaxSlotResponse { max_slot: meta_store.max_slot() }
}

/// The data shred with index `shred_index` of `slot`, in base64.
pub fn handle_slot_shred(store: &ShredStore, slot: u64, shred_index: u32) -> (r: Result<ShredResponse, RpcError>)
    requires
        store.well_formed(),
    ensures
        match store@.lookup(slot, shred_index).0 {
            Some(info) => r matches Ok(resp) && resp.slot == slot && resp.data@ == encoded(info),
            None => r == Err::<ShredResponse, RpcError>(RpcError::ShredNotFound { slot, shred_index }),
        },
{
    let shreds = store.get_shred_num(slot, shred_index);
    match shreds.0 {
        Some(info) => {
            let encoded = encode_shred(&info);
            Ok(ShredResponse { slot, data: encoded })
        },
        None => Err(RpcError::ShredNotFound { slot, shred_index }),
    }
}

/// All shreds of `slot` in base64: data shreds, then coding shreds, each
/// group in its map's order.
pub fn handle_all_shreds(store: &ShredStore, slot: u64) -> (r: Result<AllShredsResponse, RpcError>)
    requires
        store.well_formed(),
    ensures
        !slot_in_window(slot, store@.max_slot, store@.capacity()) ==> r == Err::<AllShredsResponse, RpcError>(
            RpcError::SlotOutOfRange { slot, max_slot: store@.max_slot },
        ),
        slot_in_window(slot, store@.max_slot, store@.capacity()) && (!store@.holds_slot(slot) || (store@.entry(
            slot,
        ).data.dom().is_empty() && store@.entry(slot).code.dom().is_empty())) ==> r == Err::<
            AllShredsResponse,
            RpcError,
        >(RpcError::NoShredsFound { slot }),
        store@.holds_slot(slot) && (!store@.entry(slot).data.dom().is_empty() || !store@.entry(
            slot,
        ).code.dom().is_empty()) ==> r is Ok,
        match r {
            Ok(resp) => {
                &&& store@.holds_slot(slot)
                &&& resp.slot == slot
                &&& resp.shreds@.len() > 0
                &&& exists|dk: Seq<u32>, ck: Seq<u32>|
                    #![trigger lists_keys_once(store@.entry(slot).data, dk), lists_keys_once(store@.entry(slot).code, ck)]
                    {
                        let infos = values_at(store@.entry(slot).data, dk) + values_at(store@.entry(slot).code, ck);
                        &&& lists_keys_once(store@.entry(slot).data, dk)
                        &&& lists_keys_once(store@.entry(slot).code, ck)
                        &&& resp.shreds@.len() == infos.len()
                        &&& forall|i: int| 0 <= i < infos.len() ==> (#[trigger] resp.shreds@[i]).slot == slot
                            && resp.shreds@[i].data@ == encoded(infos[i])
                    }
            },
            Err(_) => true,
        },
{
    let max_slot = store.max_slot();
    if !in_window(slot, max_slot, store.capacity() as u64) {
        return Err(RpcError::SlotOutOfRange { slot, max_slot });
    }
    let stored_shreds = store.get_slot_shreds(slot);
    let ghost infos = stored_shreds@;
    let mut shreds: Vec<ShredResponse> = Vec::new();
    let mut i: usize = 0;
    while i < stored_shreds.len()
        invariant
            infos == stored_shreds@,
            i <= infos.len(),
            forall|x: int| 0 <= x < infos.len() ==> (#[trigger] infos[x]).0 <= SHRED_SIZE,
            shreds@.len() == i,
            forall|x: int| 0 <= x < i ==> (#[trigger] shreds@[x]).slot == slot && shreds@[x].data@ == encoded(infos[x]),
        decreases infos.len() - i,
    {
        let encoded = encode_shred(&stored_shreds[i]);
        shreds.push(ShredResponse { slot, data: encoded });
        i = i + 1;
    }
    if shreds.len() == 0 {
        proof {
            if store@.holds_slot(slot) {
                let (dk, ck) = choose|dk: Seq<u32>, ck: Seq<u32>|
                    {
                        &&& lists_keys_once(store@.entry(slot).data, dk)
                        &&& lists_keys_once(store@.entry(slot).code, ck)
                        &&& infos == values_at(store@.entry(slot).data, dk) + values_at(store@.entry(slot).code, ck)
                    };
                assert(dk.len() == 0 && ck.len() == 0);
                assert(dk =~= Seq::<u32>::empty());
                assert(ck =~= Seq::<u32>::empty());
                assert(store@.entry(slot).data.dom() =~= dk.to_set());
                assert(store@.entry(slot).code.dom() =~= ck.to_set());
            }
        }
        return Err(RpcError::NoShredsFound { slot });
    }
    proof {
        let (dk, ck) = choose|dk: Seq<u32>, ck: Seq<u32>|
            {
                &&& lists_keys_once(store@.entry(slot).data, dk)
                &&& lists_keys_once(store@.entry(slot).code, ck)
                &&& infos == values_at(store@.entry(slot).data, dk) + values_at(store@.entry(slot).code, ck)
            };
        if store@.entry(slot).data.dom().is_empty() && store@.entry(slot).code.dom().is_empty() {
            if dk.len() > 0 {
                assert(dk.to_set().contains(dk[0]));
            }
            if ck.len() > 0 {
                assert(ck.to_set().contains(ck[0]));
            }
        }
    }
    Ok(AllShredsResponse { slot, shreds })
}

/// The erasure parameters of every FEC set of `slot` that has them, in the
/// metadata map's order.
pub fn handle_slot_fec_meta(meta_store: &SlotMetaStore, slot: u64) -> (r: Result<SlotFecResponse, RpcError>)
    requires
        meta_store.well_formed(),
    ensures
        !slot_in_window(slot, meta_store@.max_slot, meta_store@.capacity()) ==> r == Err::<SlotFecResponse, RpcError>(
            RpcError::SlotOutOfRange { slot, max_slot: meta_store@.max_slot },
        ),
        slot_in_window(slot, meta_store@.max_slot, meta_store@.capacity()) && meta_store@.entry(slot).slot_num != slot ==> r
            == Err::<SlotFecResponse, RpcError>(
            RpcError::SlotMismatch { expected: slot, found: meta_store@.entry(slot).slot_num },
        ),
        meta_store@.holds_slot(slot) && meta_store@.entry(slot).meta.dom().is_empty() ==> r == Err::<
            SlotFecResponse,
            RpcError,
        >(RpcError::NoFecMetadata { slot }),
        meta_store@.holds_slot(slot) && !meta_store@.entry(slot).meta.dom().is_empty() ==> r is Ok,
        match r {
            Ok(resp) => {
                let meta = meta_store@.entry(slot).meta;
                &&& meta_store@.holds_slot(slot)
                &&& resp.slot == slot
                &&& resp.fec_sets@.len() > 0
                &&& exists|keys: Seq<u32>|
                    #![trigger lists_keys_once(meta, keys)]
                    {
                        &&& lists_keys_once(meta, keys)
                        &&& resp.fec_sets@.len() == keys.len()
                        &&& forall|i: int| 0 <= i < keys.len() ==> (#[trigger] resp.fec_sets@[i]).fec_index == keys[i]
                            && resp.fec_sets@[i].num_data_shreds == meta[keys[i]].num_data_shreds
                            && resp.fec_sets@[i].num_coding_shreds == meta[keys[i]].num_coding_shreds
                    }
            },
            Err(_) => true,
        },
{
    let max_slot = meta_store.max_slot();
    if !in_window(slot, max_slot, meta_store.capacity() as u64) {
        return Err(RpcError::SlotOutOfRange { slot, max_slot });
    }
    let slot_entry = meta_store.slot_entry(slot);
    let stored_slot_num = slot_entry.slot_num;
    if stored_slot_num != slot {
        return Err(RpcError::SlotMismatch { expected: slot, found: stored_slot_num });
    }
    let ghost meta = fec_meta_map_contents(slot_entry.fec_meta);
    let keys = fec_meta_map_keys(&slot_entry.fec_meta);
    let mut fec_sets: Vec<FecMetaResponse> = Vec::new();
    let mut i: usize = 0;
    while i < keys.len()
        invariant
            meta == fec_meta_map_contents(slot_entry.fec_meta),
            lists_keys_once(meta, keys@),
            i <= keys@.len(),
            fec_sets@.len() == i,
            forall|x: int| 0 <= x < i ==> (#[trigger] fec_sets@[x]).fec_index == keys@[x]
                && fec_sets@[x].num_data_shreds == meta[keys@[x]].num_data_shreds
                && fec_sets@[x].num_coding_shreds == meta[keys@[x]].num_coding_shreds,
        decreases keys@.len() - i,
    {
        let fec_index = keys[i];
        assert(keys@.to_set().contains(fec_index));
        let m = fec_meta_map_get(&slot_entry.fec_meta, fec_index).unwrap();
        fec_sets.push(
            FecMetaResponse {
                fec_index,
                num_data_shreds: m.num_data_shreds,
                num_coding_shreds: m.num_coding_shreds,
            },
        );
        i = i + 1;
    }
    if fec_sets.len() == 0 {
        proof {
            assert(meta == meta_store@.entry(slot).meta);
            assert(keys@ =~= Seq::<u32>::empty());
            assert(meta.dom() =~= keys@.to_set());
        }
        return Err(RpcError::NoFecMetadata { slot });
    }
    proof {
        assert(meta == meta_store@.entry(slot).meta);
        if meta.dom().is_empty() {
            assert(keys@.to_set().contains(keys@[0]));
        }
        assert(lists_keys_once(meta, keys@));
    }
    Ok(SlotFecResponse { slot, fec_sets })
}

/// One FEC set of `slot`: its erasure parameters and the indices of its data
/// and coding shreds, in arrival order.
pub fn handle_fec_set_details(meta_store: &SlotMetaStore, slot: u64, fec_index: u32) -> (r: Result<
    FecSetDetailsResponse,
    RpcError,
>)
    requires
        meta_store.well_formed(),
    ensures
        !slot_in_window(slot, meta_store@.max_slot, meta_store@.capacity()) ==> r == Err::<FecSetDetailsResponse, RpcError>(
            RpcError::SlotOutOfRange { slot, max_slot: meta_store@.max_slot },
        ),
        slot_in_window(slot, meta_store@.max_slot, meta_store@.capacity()) && meta_store@.entry(slot).slot_num != slot ==> r
            == Err::<FecSetDetailsResponse, RpcError>(
            RpcError::SlotMismatch { expected: slot, found: meta_store@.entry(slot).slot_num },
        ),
        meta_store@.holds_slot(slot) && !meta_store@.entry(slot).meta.contains_key(fec_index) ==> r
            == Err::<FecSetDetailsResponse, RpcError>(RpcError::FecSetNotFound { fec_index, slot }),
        meta_store@.holds_slot(slot) && meta_store@.entry(slot).meta.contains_key(fec_index) ==> r is Ok,
        match r {
            Ok(resp) => {
                let e = meta_store@.entry(slot);
                &&& meta_store@.holds_slot(slot)
                &&& e.meta.contains_key(fec_index)
                &&& resp.slot == slot
                &&& resp.fec_index == fec_index
                &&& resp.num_data_shreds == e.meta[fec_index].num_data_shreds
                &&& resp.num_coding_shreds == e.meta[fec_index].num_coding_shreds
                &&& resp.data_indices@ == indices_of(e.data, fec_index)
                &&& resp.coding_indices@ == indices_of(e.coding, fec_index)
            },
            Err(_) => true,
        },
{
    let max_slot = meta_store.max_slot();
    if !in_window(slot, max_slot, meta_store.capacity() as u64) {
        return Err(RpcError::SlotOutOfRange { slot, max_slot });
    }
    let slot_entry = meta_store.slot_entry(slot);
    let stored_slot_num = slot_entry.slot_num;
    if stored_slot_num != slot {
        return Err(RpcError::SlotMismatch { expected: slot, found: stored_slot_num });
    }
    let meta: FecMeta = match fec_meta_map_get(&slot_entry.fec_meta, fec_index) {
        Some(m) => m,
        None => {
            return Err(RpcError::FecSetNotFound { fec_index, slot });
        },
    };
    let data_indices = match index_map_get(&slot_entry.fec_data_map, fec_index) {
        Some(indices) => indices,
        None => Vec::new(),
    };
    let coding_indices = match index_map_get(&slot_entry.fec_coding_map, fec_index) {
        Some(indices) => indices,
        None => Vec::new(),
    };
    Ok(
        FecSetDetailsResponse {
            slot,
            fec_index,
            num_data_shreds: meta.num_data_shreds,
            num_coding_shreds: meta.num_coding_shreds,
            data_indices,
            coding_indices,
        },
    )
}

} // verus!
