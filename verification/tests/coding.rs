use overcast::coding::{
    decode_shred_data, get_coding_header_for_fec_set, group_by_fec_set, process_shreds_with_recovery,
    sort_shreds_by_type, CodingError, FecSetMap, ShredEntry,
};
use overcast::types::{CodingHeader, ShredHeader, ShredType};

fn entry(index: u32, ty: ShredType, fec: u32, tag: u8) -> ShredEntry {
    let coding_header = match ty {
        ShredType::Code => Some(CodingHeader { num_data_shreds: 4, num_coding_shreds: 2, position: index as u16 }),
        ShredType::Data => None,
    };
    ShredEntry {
        header: ShredHeader {
            slot: 1,
            index,
            fec_set_index: fec,
            shred_type: ty,
            last_in_slot: false,
            coding_header,
        },
        payload: vec![tag],
    }
}

fn indices(v: &[ShredEntry]) -> Vec<u32> {
    v.iter().map(|e| e.header.index).collect()
}

fn tags(v: &[ShredEntry]) -> Vec<u8> {
    v.iter().map(|e| e.payload[0]).collect()
}

#[test]
fn sorts_by_type_then_index() {
    let shreds = vec![
        entry(3, ShredType::Data, 0, 1),
        entry(1, ShredType::Code, 0, 2),
        entry(0, ShredType::Data, 0, 3),
        entry(0, ShredType::Code, 0, 4),
        entry(2, ShredType::Data, 0, 5),
    ];
    let (data, coding) = sort_shreds_by_type(shreds);
    assert_eq!(indices(&data), vec![0, 2, 3]);
    assert_eq!(indices(&coding), vec![0, 1]);
    assert!(data.iter().all(|e| e.header.shred_type == ShredType::Data));
    assert!(coding.iter().all(|e| e.header.shred_type == ShredType::Code));
}

#[test]
fn sort_is_stable_for_equal_indices() {
    let shreds = vec![
        entry(1, ShredType::Data, 0, 10),
        entry(0, ShredType::Data, 0, 11),
        entry(1, ShredType::Data, 0, 12),
        entry(1, ShredType::Data, 0, 13),
    ];
    let (data, coding) = sort_shreds_by_type(shreds);
    assert_eq!(tags(&data), vec![11, 10, 12, 13]);
    assert!(coding.is_empty());
}

#[test]
fn empty_input_sorts_to_empty() {
    let (data, coding) = sort_shreds_by_type(Vec::new());
    assert!(data.is_empty() && coding.is_empty());
}

#[test]
fn recovered_shreds_are_merged() {
    let shreds = vec![entry(2, ShredType::Data, 0, 1), entry(0, ShredType::Code, 0, 2)];
    let recovered = vec![entry(1, ShredType::Data, 0, 3), entry(0, ShredType::Data, 0, 4)];
    let (data, coding) = process_shreds_with_recovery(shreds, recovered);
    assert_eq!(indices(&data), vec![0, 1, 2]);
    assert_eq!(tags(&data), vec![4, 3, 1]);
    assert_eq!(indices(&coding), vec![0]);
}

#[test]
fn coding_header_of_first_coding_shred() {
    let shreds = vec![
        entry(0, ShredType::Data, 0, 1),
        entry(5, ShredType::Code, 0, 2),
        entry(6, ShredType::Code, 0, 3),
    ];
    assert_eq!(
        get_coding_header_for_fec_set(&shreds),
        Some(CodingHeader { num_data_shreds: 4, num_coding_shreds: 2, position: 5 })
    );
    let only_data = vec![entry(0, ShredType::Data, 0, 1)];
    assert_eq!(get_coding_header_for_fec_set(&only_data), None);
    assert_eq!(get_coding_header_for_fec_set(&[]), None);
}

#[test]
fn decodes_base64_shred_data() {
    assert_eq!(decode_shred_data("AQID").unwrap(), vec![1u8, 2, 3]);
    assert_eq!(decode_shred_data("").unwrap(), Vec::<u8>::new());
    assert!(matches!(decode_shred_data("not base64!"), Err(CodingError::InvalidBase64(_))));
}

#[test]
fn groups_shreds_by_fec_set_in_order() {
    let shreds = vec![
        entry(0, ShredType::Data, 0, 1),
        entry(32, ShredType::Data, 32, 2),
        entry(1, ShredType::Data, 0, 3),
        entry(0, ShredType::Code, 0, 4),
    ];
    let groups = group_by_fec_set(shreds);
    assert_eq!(tags(groups.get(0).unwrap()), vec![1, 3, 4]);
    assert_eq!(tags(groups.get(32).unwrap()), vec![2]);
    assert!(groups.get(64).is_none());
    let map = groups.into_map();
    assert_eq!(map.len(), 2);
}

#[test]
fn add_shred_starts_and_extends_groups() {
    let mut groups = FecSetMap::new();
    assert!(groups.get(0).is_none());
    groups.add_shred(entry(0, ShredType::Data, 0, 7));
    groups.add_shred(entry(1, ShredType::Data, 0, 8));
    assert_eq!(tags(groups.get(0).unwrap()), vec![7, 8]);
}
