//! An encrypted, erasure-coded storage engine: its data types, rules and
//! state machines, each with a contract that Verus proves.

pub mod byte_map;
pub mod bytes;
pub mod text;
pub mod types;
pub mod crypto;
pub mod ec;
pub mod chunk;
pub mod entities;
pub mod ordered;
pub mod plugin_host;
pub mod metadata;
pub mod lease;
pub mod repair;
pub mod api;
pub mod bloom;
pub mod merkle;
pub mod antientropy;
pub mod events;
pub mod identity;
pub mod placement;
pub mod keystore;
pub mod vault;
pub mod recovery;
pub mod share;
