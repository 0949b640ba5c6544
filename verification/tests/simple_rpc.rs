use overcast::simple_rpc::{
    encode_shred, handle_all_shreds, handle_fec_set_details, handle_max_slot, handle_meta_max_slot,
    handle_slot_fec_meta, handle_slot_shred, RpcError,
};
use overcast::storage::shred_store::ShredStore;
use overcast::storage::slot_metadata::SlotMetaStore;
use overcast::types::{CodingHeader, ShredHeader, ShredType, SHRED_SIZE};

fn bytes(prefix: &[u8]) -> [u8; SHRED_SIZE] {
    let mut arr = [0xffu8; SHRED_SIZE];
    arr[..prefix.len()].copy_from_slice(prefix);
    arr
}

#[test]
fn shred_reply_is_base64_of_used_bytes() {
    let mut store = ShredStore::new();
    store.store_shred_internal(10, 2, bytes(&[1, 2, 3]), 3, ShredType::Data);
    let r = handle_slot_shred(&store, 10, 2).unwrap();
    assert_eq!(r.slot, 10);
    assert_eq!(r.data, "AQID");
    assert_eq!(handle_slot_shred(&store, 10, 3).err(), Some(RpcError::ShredNotFound { slot: 10, shred_index: 3 }));
    // a coding shred is not served by this query
    store.store_shred_internal(10, 4, bytes(&[1]), 1, ShredType::Code);
    assert_eq!(handle_slot_shred(&store, 10, 4).err(), Some(RpcError::ShredNotFound { slot: 10, shred_index: 4 }));
    assert_eq!(handle_max_slot(&store).max_slot, 10);
}

#[test]
fn encode_uses_only_the_used_length() {
    assert_eq!(encode_shred(&(0, bytes(&[]))), "");
    assert_eq!(encode_shred(&(2, bytes(&[0x4d, 0x61]))), "TWE=");
}

#[test]
fn all_shreds_reply() {
    let mut store = ShredStore::new();
    assert_eq!(handle_all_shreds(&store, 1).err(), Some(RpcError::SlotOutOfRange { slot: 1, max_slot: 0 }));
    assert_eq!(handle_all_shreds(&store, 0).err(), Some(RpcError::NoShredsFound { slot: 0 }));
    store.store_shred_internal(5, 0, bytes(&[1, 2, 3]), 3, ShredType::Data);
    store.store_shred_internal(5, 1, bytes(&[0x4d, 0x61]), 2, ShredType::Code);
    let r = handle_all_shreds(&store, 5).unwrap();
    assert_eq!(r.slot, 5);
    assert_eq!(r.shreds.len(), 2);
    assert_eq!(r.shreds[0].data, "AQID");
    assert_eq!(r.shreds[1].data, "TWE=");
    assert!(r.shreds.iter().all(|s| s.slot == 5));
    assert_eq!(handle_all_shreds(&store, 4).err(), Some(RpcError::NoShredsFound { slot: 4 }));
}

fn header(slot: u64, index: u32, fec: u32, ty: ShredType) -> ShredHeader {
    ShredHeader {
        slot,
        index,
        fec_set_index: fec,
        shred_type: ty,
        last_in_slot: false,
        coding_header: match ty {
            ShredType::Code => Some(CodingHeader { num_data_shreds: 3, num_coding_shreds: 2, position: 0 }),
            ShredType::Data => None,
        },
    }
}

#[test]
fn fec_meta_reply() {
    let mut meta = SlotMetaStore::new();
    meta.record_shred_meta(&header(20, 0, 0, ShredType::Data));
    assert_eq!(handle_slot_fec_meta(&meta, 21).err(), Some(RpcError::SlotOutOfRange { slot: 21, max_slot: 20 }));
    assert_eq!(handle_slot_fec_meta(&meta, 19).err(), Some(RpcError::SlotMismatch { expected: 19, found: 0 }));
    assert_eq!(handle_slot_fec_meta(&meta, 20).err(), Some(RpcError::NoFecMetadata { slot: 20 }));
    meta.record_shred_meta(&header(20, 0, 0, ShredType::Code));
    let r = handle_slot_fec_meta(&meta, 20).unwrap();
    assert_eq!(r.slot, 20);
    assert_eq!(r.fec_sets.len(), 1);
    assert_eq!(r.fec_sets[0].fec_index, 0);
    assert_eq!(r.fec_sets[0].num_data_shreds, 3);
    assert_eq!(r.fec_sets[0].num_coding_shreds, 2);
    assert_eq!(handle_meta_max_slot(&meta).max_slot, 20);
}

#[test]
fn fec_set_details_reply() {
    let mut meta = SlotMetaStore::new();
    meta.record_shred_meta(&header(30, 0, 0, ShredType::Data));
    meta.record_shred_meta(&header(30, 2, 0, ShredType::Data));
    assert_eq!(
        handle_fec_set_details(&meta, 30, 0).err(),
        Some(RpcError::FecSetNotFound { fec_index: 0, slot: 30 })
    );
    meta.record_shred_meta(&header(30, 1, 0, ShredType::Code));
    let r = handle_fec_set_details(&meta, 30, 0).unwrap();
    assert_eq!((r.slot, r.fec_index), (30, 0));
    assert_eq!((r.num_data_shreds, r.num_coding_shreds), (3, 2));
    assert_eq!(r.data_indices, vec![0, 2]);
    assert_eq!(r.coding_indices, vec![1]);
    assert_eq!(handle_fec_set_details(&meta, 31, 0).err(), Some(RpcError::SlotOutOfRange { slot: 31, max_slot: 30 }));
    assert_eq!(handle_fec_set_details(&meta, 29, 0).err(), Some(RpcError::SlotMismatch { expected: 29, found: 0 }));
}

#[test]
fn served_shred_decodes_back_to_its_bytes() {
    let mut store = ShredStore::new();
    let raw = bytes(&[9, 8, 7, 6, 5]);
    store.store_shred_internal(3, 1, raw, 5, ShredType::Data);
    let r = handle_slot_shred(&store, 3, 1).unwrap();
    let decoded = overcast::coding::decode_shred_data(&r.data).unwrap();
    assert_eq!(decoded, vec![9u8, 8, 7, 6, 5]);
}

#[test]
fn configured_window_applies_to_queries() {
    let mut store = ShredStore::with_capacity(4);
    store.store_shred_internal(10, 0, bytes(&[1]), 1, ShredType::Data);
    assert_eq!(handle_all_shreds(&store, 5).err(), Some(RpcError::SlotOutOfRange { slot: 5, max_slot: 10 }));
    assert!(handle_all_shreds(&store, 10).is_ok());
    let mut meta = SlotMetaStore::with_capacity(4);
    meta.record_shred_meta(&header(10, 0, 0, ShredType::Code));
    assert_eq!(handle_slot_fec_meta(&meta, 5).err(), Some(RpcError::SlotOutOfRange { slot: 5, max_slot: 10 }));
    assert!(handle_fec_set_details(&meta, 10, 0).is_ok());
}
