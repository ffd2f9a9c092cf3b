//! Record shapes and the conflict-free replicated types that their fields are made of.

pub mod crdt;
pub mod records;
pub mod wal_entry;
