//! Entries of the write-ahead log and the operations they carry.

use vstd::prelude::*;

use crate::types::BlakeHash;
use crate::types::DeviceId;
use crate::types::Ed25519Sig;
use crate::types::FileId;
use crate::types::Hlc;
use crate::types::WalEntryId;

verus! {

/// An entry of a device's log.
#[derive(Clone, PartialEq, Eq, Debug)]
pub struct WalEntry {
    pub wal_id: WalEntryId,
    pub hlc: Hlc,
    pub device_id: DeviceId,
    pub op: Op,
    pub signature: Ed25519Sig,
    pub idempotency_key: Option<Vec<u8>>,
}

/// An operation on a replicated field. Values are encoded records whose shape the target decides.
#[derive(Clone, PartialEq, Eq, Debug)]
pub enum Op {
    LwwSet { target: Key, value: Vec<u8>, previous_value: Option<Vec<u8>> },
    LwwRegister { target: Key, value: Vec<u8> },
    LwwRegisterIndirect {
        target: Key,
        value_hash: BlakeHash,
        value_storage_key: Vec<u8>,
        value_size_bytes: u32,
        previous_value_hash: Option<BlakeHash>,
    },
    OrSetAdd { target: Key, add_id: u128, value: Vec<u8> },
    OrSetRemove { target: Key, remove_for_add_ids: Vec<u128> },
    CounterInc { target: Key, delta: i64 },
    MapPut { target: Key, map_key: Vec<u8>, value: Vec<u8> },
    MapDel { target: Key, map_key: Vec<u8>, remove_for_add_ids: Vec<u128> },
    PathMove {
        from_path: String,
        to_path: String,
        file_id: FileId,
        linked_remove_id: u128,
        linked_add_id: u128,
    },
}

/// What an operation writes to: a kind of record, its identifier and one of its fields.
#[derive(Clone, PartialEq, Eq, PartialOrd, Ord, Hash, Debug)]
pub struct Key {
    pub kind: KeyKind,
    pub primary: Vec<u8>,
    pub field: String,
}

impl Key {
    /// The key with these parts.
    pub fn new(kind: KeyKind, primary: Vec<u8>, field: &str) -> (r: Self)
        ensures
            r.kind == kind,
            r.primary == primary,
            r.field@ == field@,
    {
        Key { kind, primary, field: field.to_owned() }
    }
}

/// The kinds of record that an operation can write to.
#[derive(Clone, Copy, PartialEq, Eq, Structural, PartialOrd, Ord, Hash, Debug)]
pub enum KeyKind {
    Vault,
    File,
    Chunk,
    Shard,
    Shadow,
    Provider,
    VaultProvider,
    Peer,
    Device,
    Share,
    Identity,
}

} // verus!
