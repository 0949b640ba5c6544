# overcast

A lightweight shred cache for a Solana-style network. It keeps the shreds
and per-slot metadata of the most recent slots in fixed-size rings, answers
queries about them, orders shreds for erasure recovery, hands slots that
stopped receiving shreds to repair, and tracks the peers that serve repair.

Layout:

- `src/` — the library, verified with Verus:
  - `types.rs`: shred buffers, shred headers, and the slot ring (`RingSlotStore`), whose size is
    the retention window (`CAPACITY`, 9000 slots — about an hour — unless a store is built
    `with_capacity`);
  - `maps.rs`: the `ahash` maps of a slot entry, seen through their contents;
  - `storage/shred_store.rs`: data and coding shreds per slot;
  - `storage/slot_metadata.rs`: FEC-set bookkeeping per slot, staleness, repair timers;
  - `shred_store.rs`: the single-map variant of the shred store;
  - `coding.rs`: sorting shreds by type and index, coding headers, base64 shred data, grouping by FEC set;
  - `simple_rpc.rs`: the answers of the query interface;
  - `repair_peers.rs`: the repair-peer table;
  - `repair/self_repair.rs`: the repair steps.
- `tests/` — tests of the library.
- `app/` — the node around it: sockets, threads, gossip, HTTP routes and JSON.
