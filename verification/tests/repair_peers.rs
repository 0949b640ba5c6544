use overcast::repair_peers::{peer_age_secs, sleep_chunk, PeerAddr, PeerIp, RepairPeerTable, NANOS_PER_SEC};

fn addr(last_octet: u32, port: u16) -> PeerAddr {
    PeerAddr { ip: PeerIp::V4(0x0a00_0000 | last_octet), port }
}

#[test]
fn refresh_adds_announced_peers() {
    let mut table = RepairPeerTable::new();
    let now = 1_000 * NANOS_PER_SEC;
    table.refresh(now, 300, &vec![Some(addr(1, 8000)), None, Some(addr(2, 8001))]);
    assert_eq!(table.len(), 2);
    let peers = table.get_repair_peers();
    assert!(peers.contains(&addr(1, 8000)));
    assert!(peers.contains(&addr(2, 8001)));
    for (_, info) in table.peer_list() {
        assert_eq!(info.last_seen, now);
    }
}

#[test]
fn same_ip_keeps_latest_address() {
    let mut table = RepairPeerTable::new();
    table.refresh(10, 300, &vec![Some(addr(1, 8000)), Some(addr(1, 9000))]);
    assert_eq!(table.get_repair_peers(), vec![addr(1, 9000)]);
    table.refresh(20, 300, &vec![Some(addr(1, 7000))]);
    assert_eq!(table.get_repair_peers(), vec![addr(1, 7000)]);
    assert_eq!(table.peer_list()[0].1.last_seen, 20);
}

#[test]
fn stale_peers_are_dropped() {
    let mut table = RepairPeerTable::new();
    let t0 = 1_000 * NANOS_PER_SEC;
    table.refresh(t0, 300, &vec![Some(addr(1, 8000))]);
    table.refresh(t0 + 100 * NANOS_PER_SEC, 300, &vec![Some(addr(2, 8000))]);
    // peer 1 is 299.999... seconds old: kept
    table.refresh(t0 + 300 * NANOS_PER_SEC - 1, 300, &vec![]);
    assert_eq!(table.len(), 2);
    // peer 1 is 300 seconds old: dropped; peer 2 is 200 seconds old: kept
    table.refresh(t0 + 300 * NANOS_PER_SEC, 300, &vec![]);
    assert_eq!(table.get_repair_peers(), vec![addr(2, 8000)]);
}

#[test]
fn peers_from_the_future_are_kept() {
    let mut table = RepairPeerTable::new();
    table.refresh(5_000 * NANOS_PER_SEC, 1, &vec![Some(addr(3, 1))]);
    table.refresh(1_000 * NANOS_PER_SEC, 1, &vec![]);
    assert_eq!(table.len(), 1);
}

#[test]
fn ipv6_and_ipv4_are_distinct() {
    let mut table = RepairPeerTable::new();
    let v6 = PeerAddr { ip: PeerIp::V6(1), port: 1 };
    let v4 = PeerAddr { ip: PeerIp::V4(1), port: 1 };
    table.refresh(1, 10, &vec![Some(v6), Some(v4)]);
    assert_eq!(table.len(), 2);
}

#[test]
fn ages_and_sleep_chunks() {
    assert_eq!(peer_age_secs(10 * NANOS_PER_SEC, 0), 10);
    assert_eq!(peer_age_secs(10 * NANOS_PER_SEC - 1, 0), 9);
    assert_eq!(peer_age_secs(0, 10), 0);
    assert_eq!(sleep_chunk(12), 5);
    assert_eq!(sleep_chunk(5), 5);
    assert_eq!(sleep_chunk(3), 3);
    assert_eq!(sleep_chunk(0), 0);
}
