//! Self-repair of slots that stopped receiving shreds.
pub mod self_repair;
