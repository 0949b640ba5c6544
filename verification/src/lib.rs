//! A lightweight shred cache for a Solana-style network: ring-buffered shred
//! and slot-metadata stores, the replies of its query interface, the ordering
//! of shreds for recovery, and the bookkeeping of repair peers.
pub mod types;
pub mod maps;
pub mod storage;
pub mod shred_store;
pub mod coding;
pub mod repair_peers;
pub mod simple_rpc;
pub mod repair;
