//! The two per-slot stores fed by the shred stream.
pub mod shred_store;
pub mod slot_metadata;
