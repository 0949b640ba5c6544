//! The repair-peer table: for each IP, the repair address a peer announced
//! and when it was last seen; refreshed from the peers that gossip reports,
//! dropping those not seen for too long.
use vstd::prelude::*;

verus! {

/// An IP address, version 4 or 6, as its bits.
#[derive(Clone, Copy, Debug, PartialEq, Eq, Structural)]
pub enum PeerIp {
    V4(u32),
    V6(u128),
}

/// An IP address and port.
#[derive(Clone, Copy, Debug, PartialEq, Eq, Structural)]
pub struct PeerAddr {
    pub ip: PeerIp,
    pub port: u16,
}

/// A known repair peer: its repair address and when it was last seen, in
/// nanoseconds since the Unix epoch.
#[derive(Clone, Copy, Debug, PartialEq, Eq, Structural)]
pub struct RepairPeerInfo {
    pub socket_addr: PeerAddr,
    pub last_seen: u128,
}

pub const NANOS_PER_SEC: u128 = 1_000_000_000;

/// Whole seconds from `last_seen` to `now`; zero when `last_seen` is later.
pub open spec fn age_secs(now: u128, last_seen: u128) -> u128 {
    if now >= last_seen {
        ((now - last_seen) / (NANOS_PER_SEC as int)) as u128
    } else {
        0
    }
}

/// A peer last seen at `last_seen` is kept at `now`: it was seen fewer than
/// `stale_threshold` whole seconds ago, or its time lies after `now`.
pub open spec fn is_fresh(now: u128, last_seen: u128, stale_threshold: u64) -> bool {
    now < last_seen || age_secs(now, last_seen) < stale_threshold
}

/// Whole seconds since a peer was last seen (zero when its time lies after `now`).
pub fn peer_age_secs(now: u128, last_seen: u128) -> (r: u128)
    ensures
        r == age_secs(now, last_seen),
{
    if now >= last_seen {
        (now - last_seen) / NANOS_PER_SEC
    } else {
        0
    }
}

/// How long to sleep next while `remaining` seconds of the refresh interval
/// are left: at most five seconds, so that a stop request is seen soon.
pub fn sleep_chunk(remaining: u64) -> (r: u64)
    ensures
        r == (if remaining < 5 { remaining } else { 5 }),
{
    if remaining < 5 {
        remaining
    } else {
        5
    }
}

/// The map that a list of (IP, peer) pairs describes, later pairs winning.
pub open spec fn entries_map(s: Seq<(PeerIp, RepairPeerInfo)>) -> Map<PeerIp, RepairPeerInfo>
    decreases s.len(),
{
    if s.len() == 0 {
        Map::empty()
    } else {
        entries_map(s.drop_last()).insert(s.last().0, s.last().1)
    }
}

/// Every peer is filed under the IP of its own repair address.
pub open spec fn filed_by_addr(s: Seq<(PeerIp, RepairPeerInfo)>) -> bool {
    forall|i: int| 0 <= i < s.len() ==> (#[trigger] s[i]).0 == s[i].1.socket_addr.ip
}

pub open spec fn distinct_ips(s: Seq<(PeerIp, RepairPeerInfo)>) -> bool {
    forall|i: int, j: int| 0 <= i < j < s.len() ==> s[i].0 != s[j].0
}

/// The peers of `m` that are still fresh at `now`.
pub open spec fn fresh_peers(
    m: Map<PeerIp, RepairPeerInfo>,
    now: u128,
    stale_threshold: u64,
) -> Map<PeerIp, RepairPeerInfo> {
    Map::new(
        |ip: PeerIp| m.contains_key(ip) && is_fresh(now, m[ip].last_seen, stale_threshold),
        |ip: PeerIp| m[ip],
    )
}

/// `m` after each announced repair address in `found` is recorded as seen at `now`.
pub open spec fn record_found(
    m: Map<PeerIp, RepairPeerInfo>,
    found: Seq<Option<PeerAddr>>,
    now: u128,
) -> Map<PeerIp, RepairPeerInfo>
    decreases found.len(),
{
    if found.len() == 0 {
        m
    } else {
        let prev = record_found(m, found.drop_last(), now);
        match found.last() {
            Some(a) => prev.insert(a.ip, RepairPeerInfo { socket_addr: a, last_seen: now }),
            None => prev,
        }
    }
}

/// The table after a refresh at `now`: stale peers dropped, then every
/// announced repair address recorded.
pub open spec fn refreshed(
    m: Map<PeerIp, RepairPeerInfo>,
    now: u128,
    stale_threshold: u64,
    found: Seq<Option<PeerAddr>>,
) -> Map<PeerIp, RepairPeerInfo> {
    record_found(fresh_peers(m, now, stale_threshold), found, now)
}

proof fn lemma_entries_map(s: Seq<(PeerIp, RepairPeerInfo)>)
    requires
        distinct_ips(s),
    ensures
        forall|i: int| 0 <= i < s.len() ==> #[trigger] entries_map(s).contains_key(s[i].0) && entries_map(s)[s[i].0] == s[i].1,
        forall|ip: PeerIp| #[trigger] entries_map(s).contains_key(ip) ==> exists|i: int| 0 <= i < s.len() && s[i].0 == ip,
        entries_map(s).dom().finite(),
        entries_map(s).dom().len() == s.len(),
    decreases s.len(),
{
    if s.len() > 0 {
        let d = s.drop_last();
        assert(distinct_ips(d));
        lemma_entries_map(d);
        assert forall|i: int| 0 <= i < s.len() implies #[trigger] entries_map(s).contains_key(s[i].0) && entries_map(s)[s[i].0] == s[i].1 by {
            if i < s.len() - 1 {
                assert(d[i] == s[i]);
                assert(s[i].0 != s.last().0);
            }
        }
        assert forall|ip: PeerIp| #[trigger] entries_map(s).contains_key(ip) implies exists|i: int| 0 <= i < s.len() && s[i].0 == ip by {
            if ip != s.last().0 {
                let k = choose|k: int| 0 <= k < d.len() && d[k].0 == ip;
                assert(s[k].0 == ip);
            }
        }
        assert(!entries_map(d).contains_key(s.last().0)) by {
            if entries_map(d).contains_key(s.last().0) {
                let k = choose|k: int| 0 <= k < d.len() && d[k].0 == s.last().0;
                assert(s[k].0 == s[s.len() - 1].0);
            }
        }
    }
}

pub open spec fn fresh_entry(now: u128, stale_threshold: u64) -> spec_fn((PeerIp, RepairPeerInfo)) -> bool {
    |x: (PeerIp, RepairPeerInfo)| is_fresh(now, x.1.last_seen, stale_threshold)
}

proof fn lemma_filter_fresh(s: Seq<(PeerIp, RepairPeerInfo)>, now: u128, stale_threshold: u64)
    requires
        distinct_ips(s),
        filed_by_addr(s),
    ensures
        distinct_ips(s.filter(fresh_entry(now, stale_threshold))),
        filed_by_addr(s.filter(fresh_entry(now, stale_threshold))),
        entries_map(s.filter(fresh_entry(now, stale_threshold))) == fresh_peers(entries_map(s), now, stale_threshold),
    decreases s.len(),
{
    reveal(Seq::filter);
    let p = fresh_entry(now, stale_threshold);
    if s.len() == 0 {
        assert(fresh_peers(entries_map(s), now, stale_threshold) =~= Map::<PeerIp, RepairPeerInfo>::empty());
    } else {
        let d = s.drop_last();
        let x = s.last();
        assert(distinct_ips(d));
        assert(filed_by_addr(d)) by {
            assert forall|i: int| 0 <= i < d.len() implies (#[trigger] d[i]).0 == d[i].1.socket_addr.ip by {
                assert(d[i] == s[i]);
            }
        }
        assert(x.0 == x.1.socket_addr.ip) by {
            assert(s[s.len() - 1] == x);
        }
        lemma_filter_fresh(d, now, stale_threshold);
        lemma_entries_map(d);
        lemma_entries_map(d.filter(p));
        assert(!entries_map(d).contains_key(x.0)) by {
            if entries_map(d).contains_key(x.0) {
                let k = choose|k: int| 0 <= k < d.len() && d[k].0 == x.0;
                assert(s[k].0 == s[s.len() - 1].0);
            }
        }
        let fd = d.filter(p);
        if p(x) {
            assert(s.filter(p) == fd.push(x));
            assert(distinct_ips(fd.push(x))) by {
                assert forall|a: int, b: int| 0 <= a < b < fd.push(x).len() implies fd.push(x)[a].0 != fd.push(x)[b].0 by {
                    if b == fd.len() {
                        assert(entries_map(fd).contains_key(fd[a].0));
                    }
                }
            }
            assert(fd.push(x).drop_last() =~= fd);
            assert(filed_by_addr(fd.push(x))) by {
                assert forall|i: int| 0 <= i < fd.push(x).len() implies (#[trigger] fd.push(x)[i]).0
                    == fd.push(x)[i].1.socket_addr.ip by {
                    if i < fd.len() {
                        assert(fd.push(x)[i] == fd[i]);
                    }
                }
            }
        } else {
            assert(s.filter(p) == fd);
        }
        assert(entries_map(s.filter(p)) =~= fresh_peers(entries_map(s), now, stale_threshold));
    }
}

proof fn lemma_update_entry(s: Seq<(PeerIp, RepairPeerInfo)>, i: int, info: RepairPeerInfo)
    requires
        distinct_ips(s),
        0 <= i < s.len(),
    ensures
        distinct_ips(s.update(i, (s[i].0, info))),
        entries_map(s.update(i, (s[i].0, info))) == entries_map(s).insert(s[i].0, info),
    decreases s.len(),
{
    let n = s.update(i, (s[i].0, info));
    assert(distinct_ips(n)) by {
        assert forall|a: int, b: int| 0 <= a < b < n.len() implies n[a].0 != n[b].0 by {
            assert(n[a].0 == s[a].0);
            assert(n[b].0 == s[b].0);
        }
    }
    let d = s.drop_last();
    if i == s.len() - 1 {
        assert(n.drop_last() =~= d);
        assert(entries_map(n) =~= entries_map(s).insert(s[i].0, info));
    } else {
        assert(distinct_ips(d));
        lemma_update_entry(d, i, info);
        assert(n.drop_last() =~= d.update(i, (s[i].0, info)));
        assert(s.last().0 != s[i].0);
        assert(entries_map(n) =~= entries_map(s).insert(s[i].0, info));
    }
}

/// The repair-peer table.
pub struct RepairPeerTable {
    entries: Vec<(PeerIp, RepairPeerInfo)>,
}

impl RepairPeerTable {
    /// The known peers, by IP.
    pub closed spec fn peers(&self) -> Map<PeerIp, RepairPeerInfo> {
        entries_map(self.entries@)
    }

    pub closed spec fn well_formed(&self) -> bool {
        distinct_ips(self.entries@) && filed_by_addr(self.entries@)
    }

    /// Every known peer is filed under the IP of its own repair address, so
    /// no two known peers share an IP.
    pub proof fn lemma_peers_filed_by_ip(&self)
        requires
            self.well_formed(),
        ensures
            forall|ip: PeerIp| #[trigger] self.peers().contains_key(ip) ==> self.peers()[ip].socket_addr.ip == ip,
    {
        lemma_entries_map(self.entries@);
        assert forall|ip: PeerIp| #[trigger] self.peers().contains_key(ip) implies self.peers()[ip].socket_addr.ip == ip by {
            let k = choose|k: int| 0 <= k < self.entries@.len() && self.entries@[k].0 == ip;
            assert(entries_map(self.entries@).contains_key(self.entries@[k].0));
        }
    }

    /// An empty table.
    pub fn new() -> (r: Self)
        ensures
            r.well_formed(),
            r.peers() == Map::<PeerIp, RepairPeerInfo>::empty(),
    {
        RepairPeerTable { entries: Vec::new() }
    }

    /// How many peers the table knows.
    pub fn len(&self) -> (r: usize)
        requires
            self.well_formed(),
        ensures
            r == self.peers().dom().len(),
    {
        proof {
            lemma_entries_map(self.entries@);
        }
        self.entries.len()
    }

    /// The known peers, each IP once, in the table's order.
    pub fn peer_list(&self) -> (r: Vec<(PeerIp, RepairPeerInfo)>)
        requires
            self.well_formed(),
        ensures
            distinct_ips(r@),
            filed_by_addr(r@),
            entries_map(r@) == self.peers(),
    {
        let mut out: Vec<(PeerIp, RepairPeerInfo)> = Vec::new();
        let mut i: usize = 0;
        while i < self.entries.len()
            invariant
                i <= self.entries@.len(),
                out@ == self.entries@.take(i as int),
            decreases self.entries@.len() - i,
        {
            out.push(self.entries[i]);
            proof {
                assert(self.entries@.take(i + 1) =~= self.entries@.take(i as int).push(self.entries@[i as int]));
            }
            i = i + 1;
        }
        proof {
            assert(self.entries@.take(i as int) =~= self.entries@);
        }
        out
    }

    /// The repair addresses of the known peers, one per IP, in the table's order.
    pub fn get_repair_peers(&self) -> (r: Vec<PeerAddr>)
        requires
            self.well_formed(),
        ensures
            exists|ips: Seq<PeerIp>|
                {
                    &&& ips.no_duplicates()
                    &&& ips.to_set() == self.peers().dom()
                    &&& r@ == ips.map_values(|ip: PeerIp| self.peers()[ip].socket_addr)
                },
            forall|i: int, j: int| 0 <= i < j < r@.len() ==> r@[i].ip != r@[j].ip,
    {
        let mut out: Vec<PeerAddr> = Vec::new();
        let mut i: usize = 0;
        let ghost e = self.entries@;
        proof {
            lemma_entries_map(e);
        }
        while i < self.entries.len()
            invariant
                e == self.entries@,
                i <= e.len(),
                out@.len() == i,
                forall|k: int| 0 <= k < i ==> #[trigger] out@[k] == e[k].1.socket_addr,
            decreases e.len() - i,
        {
            out.push(self.entries[i].1.socket_addr);
            i = i + 1;
        }
        let ghost ips = e.map_values(|p: (PeerIp, RepairPeerInfo)| p.0);
        proof {
            assert(ips.no_duplicates());
            assert forall|ip: PeerIp| ips.to_set().contains(ip) <==> self.peers().dom().contains(ip) by {
                if ips.to_set().contains(ip) {
                    let k = choose|k: int| 0 <= k < ips.len() && ips[k] == ip;
                    assert(e[k].0 == ip);
                }
                if self.peers().dom().contains(ip) {
                    let k = choose|k: int| 0 <= k < e.len() && e[k].0 == ip;
                    assert(ips[k] == ip);
                    assert(ips.contains(ip));
                }
            }
            assert(ips.to_set() =~= self.peers().dom());
            let want = ips.map_values(|ip: PeerIp| self.peers()[ip].socket_addr);
            assert forall|k: int| 0 <= k < out@.len() implies out@[k] == want[k] by {
                assert(entries_map(e).contains_key(e[k].0));
                assert(self.peers()[e[k].0] == e[k].1);
            }
            assert(out@ =~= want);
            assert forall|a: int, b: int| 0 <= a < b < out@.len() implies out@[a].ip != out@[b].ip by {
                assert(e[a].0 == e[a].1.socket_addr.ip);
                assert(e[b].0 == e[b].1.socket_addr.ip);
            }
        }
        out
    }

    /// Drops the peers that are no longer fresh at `now`.
    pub fn retain_fresh(&mut self, now: u128, stale_threshold: u64)
        requires
            old(self).well_formed(),
        ensures
            final(self).well_formed(),
            final(self).peers() == fresh_peers(old(self).peers(), now, stale_threshold),
    {
        let ghost e = self.entries@;
        let ghost p = fresh_entry(now, stale_threshold);
        let mut kept: Vec<(PeerIp, RepairPeerInfo)> = Vec::new();
        let mut i: usize = 0;
        proof {
            reveal(Seq::filter);
            assert(e.take(0).filter(p) =~= Seq::<(PeerIp, RepairPeerInfo)>::empty());
        }
        while i < self.entries.len()
            invariant
                e == self.entries@,
                i <= e.len(),
                p == fresh_entry(now, stale_threshold),
                kept@ == e.take(i as int).filter(p),
            decreases e.len() - i,
        {
            let item = self.entries[i];
            proof {
                reveal(Seq::filter);
                assert(e.take(i + 1).drop_last() =~= e.take(i as int));
                assert(e.take(i + 1).last() == item);
            }
            if peer_age_secs(now, item.1.last_seen) < stale_threshold as u128 || now < item.1.last_seen {
                kept.push(item);
            }
            i = i + 1;
        }
        proof {
            assert(e.take(e.len() as int) =~= e);
            lemma_filter_fresh(e, now, stale_threshold);
        }
        self.entries = kept;
    }

    /// Records that the peer at `addr` was seen at `now`, replacing what the
    /// table knew of its IP.
    pub fn record_seen(&mut self, addr: PeerAddr, now: u128)
        requires
            old(self).well_formed(),
        ensures
            final(self).well_formed(),
            final(self).peers() == old(self).peers().insert(
                addr.ip,
                RepairPeerInfo { socket_addr: addr, last_seen: now },
            ),
    {
        let info = RepairPeerInfo { socket_addr: addr, last_seen: now };
        let ghost e = self.entries@;
        let mut i: usize = 0;
        while i < self.entries.len()
            invariant
                e == self.entries@,
                i <= e.len(),
                forall|j: int| 0 <= j < i ==> e[j].0 != addr.ip,
            ensures
                i <= e.len(),
                forall|j: int| 0 <= j < i ==> e[j].0 != addr.ip,
                i < e.len() ==> e[i as int].0 == addr.ip,
            decreases e.len() - i,
        {
            if self.entries[i].0 == addr.ip {
                break;
            }
            i = i + 1;
        }
        if i < self.entries.len() {
            proof {
                lemma_update_entry(e, i as int, info);
            }
            self.entries.set(i, (addr.ip, info));
            proof {
                let n = self.entries@;
                assert forall|j: int| 0 <= j < n.len() implies (#[trigger] n[j]).0 == n[j].1.socket_addr.ip by {
                    if j != i {
                        assert(n[j] == e[j]);
                    }
                }
            }
        } else {
            self.entries.push((addr.ip, info));
            proof {
                let n = self.entries@;
                assert(n.drop_last() =~= e);
                assert(distinct_ips(n)) by {
                    assert forall|a: int, b: int| 0 <= a < b < n.len() implies n[a].0 != n[b].0 by {
                        assert(n[a] == e[a]);
                        if b < n.len() - 1 {
                            assert(n[b] == e[b]);
                        }
                    }
                }
                assert forall|j: int| 0 <= j < n.len() implies (#[trigger] n[j]).0 == n[j].1.socket_addr.ip by {
                    if j < n.len() - 1 {
                        assert(n[j] == e[j]);
                    }
                }
            }
        }
    }

    /// One refresh: drops the peers not fresh at `now`, then records as seen
    /// at `now` every repair address in `found` (the peers that gossip
    /// reports; `None` for a peer that announces no repair address).
    pub fn refresh(&mut self, now: u128, stale_threshold: u64, found: &Vec<Option<PeerAddr>>)
        requires
            old(self).well_formed(),
        ensures
            final(self).well_formed(),
            final(self).peers() == refreshed(old(self).peers(), now, stale_threshold, found@),
    {
        self.retain_fresh(now, stale_threshold);
        let ghost start = self.peers();
        let mut i: usize = 0;
        while i < found.len()
            invariant
                i <= found@.len(),
                self.well_formed(),
                self.peers() == record_found(start, found@.take(i as int), now),
            decreases found@.len() - i,
        {
            proof {
                assert(found@.take(i + 1).drop_last() =~= found@.take(i as int));
            }
            match found[i] {
                Some(addr) => {
                    self.record_seen(addr, now);
                },
                None => {},
            }
            i = i + 1;
        }
        proof {
            assert(found@.take(found@.len() as int) =~= found@);
        }
    }
}

/// What recording announced addresses does: every announced IP is known
/// afterwards, seen at `now`, under an address of that IP; an IP that was not
/// announced keeps what it had.
pub proof fn lemma_record_found(m: Map<PeerIp, RepairPeerInfo>, found: Seq<Option<PeerAddr>>, now: u128)
    ensures
        forall|k: int| 0 <= k < found.len() && (#[trigger] found[k]) is Some ==> {
            let ip = found[k].unwrap().ip;
            &&& record_found(m, found, now).contains_key(ip)
            &&& record_found(m, found, now)[ip].last_seen == now
            &&& record_found(m, found, now)[ip].socket_addr.ip == ip
        },
        forall|ip: PeerIp|
            (forall|k: int| 0 <= k < found.len() && (#[trigger] found[k]) is Some ==> found[k].unwrap().ip != ip)
                ==> (#[trigger] record_found(m, found, now).contains_key(ip) == m.contains_key(ip)
                && (m.contains_key(ip) ==> record_found(m, found, now)[ip] == m[ip])),
    decreases found.len(),
{
    if found.len() > 0 {
        let d = found.drop_last();
        lemma_record_found(m, d, now);
        assert forall|k: int| 0 <= k < found.len() && (#[trigger] found[k]) is Some implies {
            let ip = found[k].unwrap().ip;
            &&& record_found(m, found, now).contains_key(ip)
            &&& record_found(m, found, now)[ip].last_seen == now
            &&& record_found(m, found, now)[ip].socket_addr.ip == ip
        } by {
            if k < found.len() - 1 {
                assert(d[k] == found[k]);
            }
        }
        assert forall|ip: PeerIp|
            (forall|k: int| 0 <= k < found.len() && (#[trigger] found[k]) is Some ==> found[k].unwrap().ip != ip) implies
                (#[trigger] record_found(m, found, now).contains_key(ip) == m.contains_key(ip)
                && (m.contains_key(ip) ==> record_found(m, found, now)[ip] == m[ip])) by {
            assert forall|k: int| 0 <= k < d.len() && (#[trigger] d[k]) is Some implies d[k].unwrap().ip != ip by {
                assert(found[k] == d[k]);
            }
            if found.last() is Some {
                assert(found[found.len() - 1] is Some);
            }
        }
    }
}

/// After a refresh every repair address that gossip announced is in the
/// table under its IP, seen at the time of the refresh.
pub proof fn lemma_refresh_records_announced(
    m: Map<PeerIp, RepairPeerInfo>,
    now: u128,
    stale_threshold: u64,
    found: Seq<Option<PeerAddr>>,
    k: int,
)
    requires
        0 <= k < found.len(),
        found[k] is Some,
    ensures
        refreshed(m, now, stale_threshold, found).contains_key(found[k].unwrap().ip),
        refreshed(m, now, stale_threshold, found)[found[k].unwrap().ip].last_seen == now,
        refreshed(m, now, stale_threshold, found)[found[k].unwrap().ip].socket_addr.ip == found[k].unwrap().ip,
{
    lemma_record_found(fresh_peers(m, now, stale_threshold), found, now);
}

/// After a refresh with a positive threshold every peer in the table is
/// fresh: a peer that was not announced again stays only if it was seen
/// fewer than `stale_threshold` seconds ago (or its time lies ahead).
pub proof fn lemma_refresh_keeps_only_fresh(
    m: Map<PeerIp, RepairPeerInfo>,
    now: u128,
    stale_threshold: u64,
    found: Seq<Option<PeerAddr>>,
    ip: PeerIp,
)
    requires
        stale_threshold > 0,
        refreshed(m, now, stale_threshold, found).contains_key(ip),
    ensures
        is_fresh(now, refreshed(m, now, stale_threshold, found)[ip].last_seen, stale_threshold),
{
    let f = fresh_peers(m, now, stale_threshold);
    lemma_record_found(f, found, now);
    if exists|k: int| 0 <= k < found.len() && (#[trigger] found[k]) is Some && found[k].unwrap().ip == ip {
        let k = choose|k: int| 0 <= k < found.len() && (#[trigger] found[k]) is Some && found[k].unwrap().ip == ip;
        assert(record_found(f, found, now)[ip].last_seen == now);
        assert(age_secs(now, now) == 0) by (nonlinear_arith);
    } else {
        assert(record_found(f, found, now)[ip] == f[ip]);
    }
}

/// A refresh that announces nothing only drops stale peers: the table keeps
/// exactly the peers that are fresh at `now`, unchanged.
pub proof fn lemma_refresh_without_announcements(
    m: Map<PeerIp, RepairPeerInfo>,
    now: u128,
    stale_threshold: u64,
)
    ensures
        refreshed(m, now, stale_threshold, Seq::empty()) == fresh_peers(m, now, stale_threshold),
{
}

} // verus!
