//! Column families.

use vstd::prelude::*;

verus! {

/// A namespace of keys. Backends map each to a tree or table of their own.
#[derive(Clone, Copy, PartialEq, Eq, Structural, Hash, Debug)]
pub enum ColumnFamily {
    Files,
    Chunks,
    Shards,
    Shadows,
    Peers,
    Shares,
    Devices,
    Providers,
    VaultMeta,
    BloomState,
    MerkleState,
    WalIndex,
    LargeValues,
    Identity,
    PathIndex,
}

/// How many column families there are.
pub const COLUMN_FAMILIES: usize = 15;

impl ColumnFamily {
    /// The name of the column family.
    pub open spec fn label(self) -> Seq<char> {
        match self {
            ColumnFamily::Files => "files"@,
            ColumnFamily::Chunks => "chunks"@,
            ColumnFamily::Shards => "shards"@,
            ColumnFamily::Shadows => "shadows"@,
            ColumnFamily::Peers => "peers"@,
            ColumnFamily::Shares => "shares"@,
            ColumnFamily::Devices => "devices"@,
            ColumnFamily::Providers => "providers"@,
            ColumnFamily::VaultMeta => "vault_meta"@,
            ColumnFamily::BloomState => "bloom_state"@,
            ColumnFamily::MerkleState => "merkle_state"@,
            ColumnFamily::WalIndex => "wal_index"@,
            ColumnFamily::LargeValues => "large_values"@,
            ColumnFamily::Identity => "identity"@,
            ColumnFamily::PathIndex => "path_index"@,
        }
    }

    /// The position of the column family among all of them.
    pub open spec fn position(self) -> int {
        match self {
            ColumnFamily::Files => 0,
            ColumnFamily::Chunks => 1,
            ColumnFamily::Shards => 2,
            ColumnFamily::Shadows => 3,
            ColumnFamily::Peers => 4,
            ColumnFamily::Shares => 5,
            ColumnFamily::Devices => 6,
            ColumnFamily::Providers => 7,
            ColumnFamily::VaultMeta => 8,
            ColumnFamily::BloomState => 9,
            ColumnFamily::MerkleState => 10,
            ColumnFamily::WalIndex => 11,
            ColumnFamily::LargeValues => 12,
            ColumnFamily::Identity => 13,
            ColumnFamily::PathIndex => 14,
        }
    }

    /// The name of the column family.
    pub fn as_str(self) -> (r: &'static str)
        ensures
            r@ == self.label(),
    {
        match self {
            ColumnFamily::Files => "files",
            ColumnFamily::Chunks => "chunks",
            ColumnFamily::Shards => "shards",
            ColumnFamily::Shadows => "shadows",
            ColumnFamily::Peers => "peers",
            ColumnFamily::Shares => "shares",
            ColumnFamily::Devices => "devices",
            ColumnFamily::Providers => "providers",
            ColumnFamily::VaultMeta => "vault_meta",
            ColumnFamily::BloomState => "bloom_state",
            ColumnFamily::MerkleState => "merkle_state",
            ColumnFamily::WalIndex => "wal_index",
            ColumnFamily::LargeValues => "large_values",
            ColumnFamily::Identity => "identity",
            ColumnFamily::PathIndex => "path_index",
        }
    }

    /// The position of the column family among all of them.
    pub fn index(self) -> (r: usize)
        ensures
            r == self.position(),
            r < COLUMN_FAMILIES,
    {
        match self {
            ColumnFamily::Files => 0,
            ColumnFamily::Chunks => 1,
            ColumnFamily::Shards => 2,
            ColumnFamily::Shadows => 3,
            ColumnFamily::Peers => 4,
            ColumnFamily::Shares => 5,
            ColumnFamily::Devices => 6,
            ColumnFamily::Providers => 7,
            ColumnFamily::VaultMeta => 8,
            ColumnFamily::BloomState => 9,
            ColumnFamily::MerkleState => 10,
            ColumnFamily::WalIndex => 11,
            ColumnFamily::LargeValues => 12,
            ColumnFamily::Identity => 13,
            ColumnFamily::PathIndex => 14,
        }
    }

    /// All column families, in order.
    pub fn all() -> (r: [ColumnFamily; 15])
        ensures
            forall|i: int| 0 <= i < 15 ==> (#[trigger] r@[i]).position() == i,
    {
        [
            ColumnFamily::Files,
            ColumnFamily::Chunks,
            ColumnFamily::Shards,
            ColumnFamily::Shadows,
            ColumnFamily::Peers,
            ColumnFamily::Shares,
            ColumnFamily::Devices,
            ColumnFamily::Providers,
            ColumnFamily::VaultMeta,
            ColumnFamily::BloomState,
            ColumnFamily::MerkleState,
            ColumnFamily::WalIndex,
            ColumnFamily::LargeValues,
            ColumnFamily::Identity,
            ColumnFamily::PathIndex,
        ]
    }
}

/// A column family is known by its position.
pub proof fn lemma_position_injective(a: ColumnFamily, b: ColumnFamily)
    requires
        a.position() == b.position(),
    ensures
        a == b,
{
}

/// Different families have different labels.
pub proof fn lemma_labels_apart(a: ColumnFamily, b: ColumnFamily)
    requires
        a.label() == b.label(),
    ensures
        a == b,
{
    reveal_strlit("files");
    reveal_strlit("chunks");
    reveal_strlit("shards");
    reveal_strlit("shadows");
    reveal_strlit("peers");
    reveal_strlit("shares");
    reveal_strlit("devices");
    reveal_strlit("providers");
    reveal_strlit("vault_meta");
    reveal_strlit("bloom_state");
    reveal_strlit("merkle_state");
    reveal_strlit("wal_index");
    reveal_strlit("large_values");
    reveal_strlit("identity");
    reveal_strlit("path_index");
    let (s, t) = (a.label(), b.label());
    assert(s.len() == t.len() && s[0] == t[0] && s[4] == t[4]);
}

} // verus!
