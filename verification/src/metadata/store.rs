//! The keys under which records stand.

use vstd::prelude::*;
use vstd::string::*;
use vstd::utf8::*;

use super::backend::read_of;
use super::backend::value_in;
use super::backend::Backend;
use super::backend::DbState;
use super::backend::Txn;
use super::backend::WriteOp;
use super::backend::ops_applied;
use super::cf::ColumnFamily;
use super::table::lists_prefix;
use super::table::Row;
use super::MetadataError;
use crate::byte_map::keys_increase;
use crate::bytes::be128;
use crate::bytes::bytes_eq;
use crate::bytes::has_prefix;
use crate::bytes::lex_lt;
use crate::bytes::of_be128;
use crate::bytes::read_be128;
use crate::bytes::to_vec;
use crate::entities::records::File;
use crate::text::str_eq;
use crate::types::ChunkHash;
use crate::types::DeviceId;
use crate::types::FileId;
use crate::types::IdentityId;
use crate::types::PeerId;
use crate::types::ProviderId;
use crate::types::ShadowId;
use crate::types::ShardId;
use crate::types::ShareId;
use crate::types::VaultId;

verus! {

/// The metadata store: a backend, and the rule for where each record stands in it. Records come
/// and go in their encoded form.
pub struct Store<B: Backend> {
    pub backend: B,
}

/// The key of a vault provider.
pub open spec fn vault_provider_key(id: ProviderId) -> Seq<u8> {
    encode_utf8("vp:"@) + be128(id.0)
}

/// The file that a path index entry points to: the identifier in its first sixteen bytes.
pub open spec fn indexed_file(entry: Seq<u8>) -> Option<FileId> {
    if entry.len() >= 16 {
        Some(FileId(of_be128(entry.subrange(0, 16))))
    } else {
        None
    }
}

/// The record that a row of the path index leads to.
pub open spec fn indexed_record(s: DbState, entry: Seq<u8>) -> Option<Seq<u8>> {
    match indexed_file(entry) {
        Some(id) => value_in(s, ColumnFamily::Files, be128(id.0)),
        None => None,
    }
}

/// The values of rows.
pub open spec fn row_values(rows: Seq<Row>) -> Seq<Seq<u8>> {
    rows.map_values(|r: Row| r.1@)
}

/// The contents of a row of byte strings.
pub open spec fn byte_views(v: Seq<Vec<u8>>) -> Seq<Seq<u8>> {
    v.map_values(|b: Vec<u8>| b@)
}

/// Whether a file record stands at a path.
pub fn stands_at(f: &File, path: &str) -> (r: bool)
    ensures
        r == (f.path.value@ == path@),
{
    str_eq(f.path.value.as_str(), path)
}

/// The first of some files that stands at a path.
pub open spec fn first_at(files: Seq<File>, path: Seq<char>) -> Option<File>
    decreases files.len(),
{
    if files.len() == 0 {
        None
    } else {
        match first_at(files.drop_last(), path) {
            Some(f) => Some(f),
            None => if files.last().path.value@ == path {
                Some(files.last())
            } else {
                None
            },
        }
    }
}

/// The file at a path: the one that the path index leads to, where it stands there itself, and
/// else the first of all files that does.
pub open spec fn resolved(indexed: Option<File>, all: Seq<File>, path: Seq<char>) -> Option<File> {
    match indexed {
        Some(f) if f.path.value@ == path => Some(f),
        _ => first_at(all, path),
    }
}

proof fn lemma_first_at(files: Seq<File>, path: Seq<char>)
    ensures
        match first_at(files, path) {
            Some(f) => f.path.value@ == path && files.contains(f),
            None => forall|i: int| 0 <= i < files.len() ==> (#[trigger] files[i]).path.value@ != path,
        },
    decreases files.len(),
{
    if files.len() > 0 {
        lemma_first_at(files.drop_last(), path);
        let head = files.drop_last();
        match first_at(head, path) {
            Some(f) => {
                let i = choose|i: int| 0 <= i < head.len() && head[i] == f;
                assert(files[i] == f);
            },
            None => {
                if files.last().path.value@ == path {
                    assert(files[files.len() - 1] == files.last());
                }
                assert forall|i: int| 0 <= i < files.len() - 1 implies (#[trigger] files[i]).path.value@
                    != path by {
                    assert(head[i] == files[i]);
                }
            },
        }
    }
}

proof fn lemma_first_at_is(files: Seq<File>, path: Seq<char>, at: int)
    requires
        0 <= at < files.len(),
        files[at].path.value@ == path,
        forall|j: int| 0 <= j < at ==> (#[trigger] files[j]).path.value@ != path,
    ensures
        first_at(files, path) == Some(files[at]),
    decreases files.len(),
{
    let head = files.drop_last();
    if at < files.len() - 1 {
        lemma_first_at_is(head, path, at);
    } else {
        lemma_first_at(head, path);
        if first_at(head, path) is Some {
            let f = first_at(head, path).unwrap();
            let i = choose|i: int| 0 <= i < head.len() && head[i] == f;
            assert(files[i].path.value@ == path);
        }
    }
}

proof fn lemma_first_at_none(files: Seq<File>, path: Seq<char>)
    requires
        forall|j: int| 0 <= j < files.len() ==> (#[trigger] files[j]).path.value@ != path,
    ensures
        first_at(files, path) is None,
{
    lemma_first_at(files, path);
    if first_at(files, path) is Some {
        let f = first_at(files, path).unwrap();
        let i = choose|i: int| 0 <= i < files.len() && files[i] == f;
        assert(files[i].path.value@ != path);
    }
}

/// The first of some files that stands at a path.
pub fn find_file_by_path(files: &Vec<File>, path: &str) -> (r: Option<usize>)
    ensures
        match r {
            Some(i) => i < files@.len() && files@[i as int].path.value@ == path@ && forall|j: int|
                0 <= j < i ==> (#[trigger] files@[j]).path.value@ != path@,
            None => forall|j: int| 0 <= j < files@.len() ==> (#[trigger] files@[j]).path.value@ != path@,
        },
{
    let mut i: usize = 0;
    while i < files.len()
        invariant
            0 <= i <= files@.len(),
            forall|j: int| 0 <= j < i ==> (#[trigger] files@[j]).path.value@ != path@,
        decreases files@.len() - i,
    {
        if stands_at(&files[i], path) {
            return Some(i);
        }
        i = i + 1;
    }
    None
}

/// The file at a path, from the one that the path index leads to and all files.
pub fn resolve_by_path(indexed: Option<File>, mut all: Vec<File>, path: &str) -> (r: Option<File>)
    ensures
        r == resolved(indexed, all@, path@),
{
    if let Some(f) = indexed {
        if stands_at(&f, path) {
            return Some(f);
        }
    }
    match find_file_by_path(&all, path) {
        Some(i) => {
            proof {
                lemma_first_at_is(all@, path@, i as int);
            }
            Some(all.remove(i))
        },
        None => {
            proof {
                lemma_first_at_none(all@, path@);
            }
            None
        },
    }
}

/// Whether a decoder may give this result for these bytes.
pub open spec fn reads_as<F: Fn(Vec<u8>) -> Result<File, MetadataError>>(
    decode: F,
    bytes: Seq<u8>,
    r: Result<File, MetadataError>,
) -> bool {
    exists|b: Vec<u8>| b@ == bytes && #[trigger] decode.ensures((b,), r)
}

/// Whether a decoder reads every byte string as a file.
pub open spec fn reads_all<F: Fn(Vec<u8>) -> Result<File, MetadataError>>(decode: F) -> bool {
    forall|b: Vec<u8>, r: Result<File, MetadataError>| #[trigger] decode.ensures((b,), r) ==> r is Ok
}

/// Whether a record, where there is one, reads as this file.
pub open spec fn record_reads<F: Fn(Vec<u8>) -> Result<File, MetadataError>>(
    decode: F,
    record: Option<Seq<u8>>,
    f: Option<File>,
) -> bool {
    match record {
        Some(bytes) => f is Some && reads_as(decode, bytes, Ok(f.unwrap())),
        None => f is None,
    }
}

/// The record that the path index leads to from a path.
pub open spec fn record_of_path(s: DbState, path: Seq<char>) -> Option<Seq<u8>> {
    match value_in(s, ColumnFamily::PathIndex, encode_utf8(path)) {
        Some(entry) => indexed_record(s, entry),
        None => None,
    }
}

/// Whether these are all files of a state, by increasing identifier, as a decoder reads them.
pub open spec fn all_files<F: Fn(Vec<u8>) -> Result<File, MetadataError>>(
    decode: F,
    s: DbState,
    files: Seq<File>,
) -> bool {
    exists|rows: Seq<Row>| #[trigger]
        lists_prefix(rows, s[ColumnFamily::Files], Seq::empty()) && rows.len() == files.len() && (
        forall|i: int|
            0 <= i < rows.len() ==> reads_as(decode, (#[trigger] rows[i]).1@, Ok(files[i])))
}

/// Whether this is the file at a path of a state, as a decoder reads its records.
pub open spec fn found_at<F: Fn(Vec<u8>) -> Result<File, MetadataError>>(
    decode: F,
    s: DbState,
    path: Seq<char>,
    found: Option<File>,
) -> bool {
    exists|indexed: Option<File>| #[trigger]
        record_reads(decode, record_of_path(s, path), indexed) && (if indexed is Some
            && indexed.unwrap().path.value@ == path {
            found == indexed
        } else {
            exists|all: Seq<File>| #[trigger]
                all_files(decode, s, all) && found == first_at(all, path)
        })
}

/// Whether files are what the rows of the path index lead to, one for one.
pub open spec fn rows_read<F: Fn(Vec<u8>) -> Result<File, MetadataError>>(
    decode: F,
    s: DbState,
    rows: Seq<Row>,
    files: Seq<Option<File>>,
) -> bool {
    &&& rows.len() == files.len()
    &&& forall|i: int|
        0 <= i < rows.len() ==> record_reads(
            decode,
            indexed_record(s, (#[trigger] rows[i]).1@),
            files[i],
        )
}

/// The files that stand where their rows of the path index say.
pub open spec fn own_files(rows: Seq<Row>, files: Seq<Option<File>>) -> Seq<File>
    decreases rows.len(),
{
    if rows.len() == 0 {
        Seq::empty()
    } else {
        let head = own_files(rows.drop_last(), files.drop_last());
        match files.last() {
            Some(f) if encode_utf8(f.path.value@) == rows.last().0@ => head.push(f),
            _ => head,
        }
    }
}

/// Every file that stands where its row of the path index says is listed, nothing else is, and
/// none comes twice.
pub proof fn lemma_own_files(rows: Seq<Row>, files: Seq<Option<File>>)
    requires
        rows.len() == files.len(),
        keys_increase(rows),
    ensures
        forall|f: File| #[trigger]
            own_files(rows, files).contains(f) <==> exists|i: int|
                0 <= i < rows.len() && files[i] == Some(f) && encode_utf8(f.path.value@)
                    == (#[trigger] rows[i]).0@,
        forall|a: int, b: int|
            0 <= a < b < own_files(rows, files).len() ==> lex_lt(
                encode_utf8((#[trigger] own_files(rows, files)[a]).path.value@),
                encode_utf8((#[trigger] own_files(rows, files)[b]).path.value@),
            ),
    decreases rows.len(),
{
    let out = own_files(rows, files);
    if rows.len() > 0 {
        let r0 = rows.drop_last();
        let f0 = files.drop_last();
        let head = own_files(r0, f0);
        lemma_own_files(r0, f0);
        let n = rows.len() - 1;
        assert forall|f: File| #[trigger] out.contains(f) <==> exists|i: int|
            0 <= i < rows.len() && files[i] == Some(f) && encode_utf8(f.path.value@) == (
            #[trigger] rows[i]).0@ by {
            if out.contains(f) {
                let a = choose|a: int| 0 <= a < out.len() && out[a] == f;
                if a < head.len() {
                    assert(head[a] == f);
                    assert(head.contains(f));
                    let i = choose|i: int|
                        0 <= i < r0.len() && f0[i] == Some(f) && encode_utf8(f.path.value@) == (
                        #[trigger] r0[i]).0@;
                    assert(rows[i] == r0[i]);
                } else {
                    assert(rows[n].0@ == encode_utf8(f.path.value@));
                }
            }
            if exists|i: int|
                0 <= i < rows.len() && files[i] == Some(f) && encode_utf8(f.path.value@) == (
                #[trigger] rows[i]).0@ {
                let i = choose|i: int|
                    0 <= i < rows.len() && files[i] == Some(f) && encode_utf8(f.path.value@) == (
                    #[trigger] rows[i]).0@;
                if i < n {
                    assert(r0[i] == rows[i] && f0[i] == files[i]);
                    assert(head.contains(f));
                    let a = choose|a: int| 0 <= a < head.len() && head[a] == f;
                    assert(out[a] == f);
                } else {
                    assert(out[head.len() as int] == f);
                }
            }
        }
        assert forall|a: int, b: int| 0 <= a < b < out.len() implies lex_lt(
            encode_utf8((#[trigger] out[a]).path.value@),
            encode_utf8((#[trigger] out[b]).path.value@),
        ) by {
            assert(out[a] == head[a]);
            if b < head.len() {
                assert(out[b] == head[b]);
            } else {
                assert(head.contains(head[a]));
                let i = choose|i: int|
                    0 <= i < r0.len() && f0[i] == Some(head[a]) && encode_utf8(
                        head[a].path.value@,
                    ) == (#[trigger] r0[i]).0@;
                assert(rows[i] == r0[i]);
                assert(lex_lt(rows[i].0@, rows[n].0@));
            }
        }
    }
}

impl<B: Backend> Store<B> {
    /// A store over a backend.
    pub fn new(backend: B) -> (r: Self)
        ensures
            r.backend == backend,
    {
        Store { backend }
    }

    /// The backend.
    pub fn backend(&self) -> (r: &B)
        ensures
            *r == self.backend,
    {
        &self.backend
    }

    /// Applies a transaction.
    pub fn commit(&mut self, txn: Txn) -> (r: Result<(), MetadataError>)
        requires
            old(self).backend.wf(),
        ensures
            old(self).backend.reliable() ==> r is Ok,
            final(self).backend.reliable() == old(self).backend.reliable(),
            final(self).backend.wf(),
            old(self).backend.commit_gives(txn.ops@, &final(self).backend, r),
            r is Ok ==> final(self).backend.state() == ops_applied(old(self).backend.state(), txn.ops@),
            r is Err ==> final(self).backend.state() == old(self).backend.state(),
    {
        self.backend.commit(txn)
    }

    /// Makes what has been committed durable.
    pub fn flush(&mut self) -> (r: Result<(), MetadataError>)
        requires
            old(self).backend.wf(),
        ensures
            old(self).backend.reliable() ==> r is Ok,
            final(self).backend.reliable() == old(self).backend.reliable(),
            final(self).backend.wf(),
            old(self).backend.flush_gives(&final(self).backend, r),
            final(self).backend.state() == old(self).backend.state(),
    {
        self.backend.flush()
    }

    /// Writes the encoded record of a vault.
    pub fn put_vault(&self, txn: &mut Txn, id: VaultId, encoded: Vec<u8>)
        ensures
            final(txn).ops@.len() == old(txn).ops@.len() + 1,
            final(txn).ops@.drop_last() == old(txn).ops@,
            final(txn).ops@.last().is_put(ColumnFamily::VaultMeta, be128(id.0), encoded@),
    {
        txn.put(ColumnFamily::VaultMeta, id.to_bytes(), encoded);
        assert(txn.ops@.drop_last() =~= old(txn).ops@);
    }

    /// The encoded record of a vault.
    pub fn get_vault(&self, id: VaultId) -> (r: Result<Option<Vec<u8>>, MetadataError>)
        requires
            self.backend.wf(),
        ensures
            self.backend.reliable() ==> r is Ok,
            self.backend.get_gives(ColumnFamily::VaultMeta, be128(id.0), r),
            r matches Ok(v) ==> read_of(v) == value_in(
                self.backend.state(),
                ColumnFamily::VaultMeta,
                be128(id.0),
            ),
    {
        self.backend.get(ColumnFamily::VaultMeta, &id.to_bytes())
    }

    /// Writes the encoded record of a chunk.
    pub fn put_chunk(&self, txn: &mut Txn, id: ChunkHash, encoded: Vec<u8>)
        ensures
            final(txn).ops@.len() == old(txn).ops@.len() + 1,
            final(txn).ops@.drop_last() == old(txn).ops@,
            final(txn).ops@.last().is_put(ColumnFamily::Chunks, id.0@, encoded@),
    {
        txn.put(ColumnFamily::Chunks, to_vec(&id.0), encoded);
        assert(txn.ops@.drop_last() =~= old(txn).ops@);
    }

    /// The encoded record of a chunk.
    pub fn get_chunk(&self, id: ChunkHash) -> (r: Result<Option<Vec<u8>>, MetadataError>)
        requires
            self.backend.wf(),
        ensures
            self.backend.reliable() ==> r is Ok,
            self.backend.get_gives(ColumnFamily::Chunks, id.0@, r),
            r matches Ok(v) ==> read_of(v) == value_in(
                self.backend.state(),
                ColumnFamily::Chunks,
                id.0@,
            ),
    {
        self.backend.get(ColumnFamily::Chunks, &id.0)
    }

    /// Writes the encoded record of a shard.
    pub fn put_shard(&self, txn: &mut Txn, id: ShardId, encoded: Vec<u8>)
        ensures
            final(txn).ops@.len() == old(txn).ops@.len() + 1,
            final(txn).ops@.drop_last() == old(txn).ops@,
            final(txn).ops@.last().is_put(ColumnFamily::Shards, id.0@, encoded@),
    {
        txn.put(ColumnFamily::Shards, to_vec(&id.0), encoded);
        assert(txn.ops@.drop_last() =~= old(txn).ops@);
    }

    /// The encoded record of a shard.
    pub fn get_shard(&self, id: ShardId) -> (r: Result<Option<Vec<u8>>, MetadataError>)
        requires
            self.backend.wf(),
        ensures
            self.backend.reliable() ==> r is Ok,
            self.backend.get_gives(ColumnFamily::Shards, id.0@, r),
            r matches Ok(v) ==> read_of(v) == value_in(
                self.backend.state(),
                ColumnFamily::Shards,
                id.0@,
            ),
    {
        self.backend.get(ColumnFamily::Shards, &id.0)
    }

    /// Writes the encoded record of a shadow.
    pub fn put_shadow(&self, txn: &mut Txn, id: ShadowId, encoded: Vec<u8>)
        ensures
            final(txn).ops@.len() == old(txn).ops@.len() + 1,
            final(txn).ops@.drop_last() == old(txn).ops@,
            final(txn).ops@.last().is_put(ColumnFamily::Shadows, be128(id.0), encoded@),
    {
        txn.put(ColumnFamily::Shadows, id.to_bytes(), encoded);
        assert(txn.ops@.drop_last() =~= old(txn).ops@);
    }

    /// The encoded record of a shadow.
    pub fn get_shadow(&self, id: ShadowId) -> (r: Result<Option<Vec<u8>>, MetadataError>)
        requires
            self.backend.wf(),
        ensures
            self.backend.reliable() ==> r is Ok,
            self.backend.get_gives(ColumnFamily::Shadows, be128(id.0), r),
            r matches Ok(v) ==> read_of(v) == value_in(
                self.backend.state(),
                ColumnFamily::Shadows,
                be128(id.0),
            ),
    {
        self.backend.get(ColumnFamily::Shadows, &id.to_bytes())
    }

    /// Writes the encoded record of a provider.
    pub fn put_provider(&self, txn: &mut Txn, id: ProviderId, encoded: Vec<u8>)
        ensures
            final(txn).ops@.len() == old(txn).ops@.len() + 1,
            final(txn).ops@.drop_last() == old(txn).ops@,
            final(txn).ops@.last().is_put(ColumnFamily::Providers, be128(id.0), encoded@),
    {
        txn.put(ColumnFamily::Providers, id.to_bytes(), encoded);
        assert(txn.ops@.drop_last() =~= old(txn).ops@);
    }

    /// The encoded record of a provider.
    pub fn get_provider(&self, id: ProviderId) -> (r: Result<Option<Vec<u8>>, MetadataError>)
        requires
            self.backend.wf(),
        ensures
            self.backend.reliable() ==> r is Ok,
            self.backend.get_gives(ColumnFamily::Providers, be128(id.0), r),
            r matches Ok(v) ==> read_of(v) == value_in(
                self.backend.state(),
                ColumnFamily::Providers,
                be128(id.0),
            ),
    {
        self.backend.get(ColumnFamily::Providers, &id.to_bytes())
    }

    /// Writes the encoded record of a peer.
    pub fn put_peer(&self, txn: &mut Txn, id: &PeerId, encoded: Vec<u8>)
        ensures
            final(txn).ops@.len() == old(txn).ops@.len() + 1,
            final(txn).ops@.drop_last() == old(txn).ops@,
            final(txn).ops@.last().is_put(ColumnFamily::Peers, encode_utf8(id.0@), encoded@),
    {
        txn.put(ColumnFamily::Peers, to_vec(id.0.as_str().as_bytes()), encoded);
        assert(txn.ops@.drop_last() =~= old(txn).ops@);
    }

    /// The encoded record of a peer.
    pub fn get_peer(&self, id: &PeerId) -> (r: Result<Option<Vec<u8>>, MetadataError>)
        requires
            self.backend.wf(),
        ensures
            self.backend.reliable() ==> r is Ok,
            self.backend.get_gives(ColumnFamily::Peers, encode_utf8(id.0@), r),
            r matches Ok(v) ==> read_of(v) == value_in(
                self.backend.state(),
                ColumnFamily::Peers,
                encode_utf8(id.0@),
            ),
    {
        self.backend.get(ColumnFamily::Peers, id.0.as_str().as_bytes())
    }

    /// Writes the encoded record of a device.
    pub fn put_device(&self, txn: &mut Txn, id: DeviceId, encoded: Vec<u8>)
        ensures
            final(txn).ops@.len() == old(txn).ops@.len() + 1,
            final(txn).ops@.drop_last() == old(txn).ops@,
            final(txn).ops@.last().is_put(ColumnFamily::Devices, be128(id.0), encoded@),
    {
        txn.put(ColumnFamily::Devices, id.to_bytes(), encoded);
        assert(txn.ops@.drop_last() =~= old(txn).ops@);
    }

    /// The encoded record of a device.
    pub fn get_device(&self, id: DeviceId) -> (r: Result<Option<Vec<u8>>, MetadataError>)
        requires
            self.backend.wf(),
        ensures
            self.backend.reliable() ==> r is Ok,
            self.backend.get_gives(ColumnFamily::Devices, be128(id.0), r),
            r matches Ok(v) ==> read_of(v) == value_in(
                self.backend.state(),
                ColumnFamily::Devices,
                be128(id.0),
            ),
    {
        self.backend.get(ColumnFamily::Devices, &id.to_bytes())
    }

    /// Writes the encoded record of an identity.
    pub fn put_identity(&self, txn: &mut Txn, id: &IdentityId, encoded: Vec<u8>)
        ensures
            final(txn).ops@.len() == old(txn).ops@.len() + 1,
            final(txn).ops@.drop_last() == old(txn).ops@,
            final(txn).ops@.last().is_put(ColumnFamily::Identity, encode_utf8(id.0@), encoded@),
    {
        txn.put(ColumnFamily::Identity, to_vec(id.0.as_str().as_bytes()), encoded);
        assert(txn.ops@.drop_last() =~= old(txn).ops@);
    }

    /// The encoded record of an identity.
    pub fn get_identity(&self, id: &IdentityId) -> (r: Result<Option<Vec<u8>>, MetadataError>)
        requires
            self.backend.wf(),
        ensures
            self.backend.reliable() ==> r is Ok,
            self.backend.get_gives(ColumnFamily::Identity, encode_utf8(id.0@), r),
            r matches Ok(v) ==> read_of(v) == value_in(
                self.backend.state(),
                ColumnFamily::Identity,
                encode_utf8(id.0@),
            ),
    {
        self.backend.get(ColumnFamily::Identity, id.0.as_str().as_bytes())
    }

    /// Writes the encoded record of a share.
    pub fn put_share(&self, txn: &mut Txn, id: ShareId, encoded: Vec<u8>)
        ensures
            final(txn).ops@.len() == old(txn).ops@.len() + 1,
            final(txn).ops@.drop_last() == old(txn).ops@,
            final(txn).ops@.last().is_put(ColumnFamily::Shares, be128(id.0), encoded@),
    {
        txn.put(ColumnFamily::Shares, id.to_bytes(), encoded);
        assert(txn.ops@.drop_last() =~= old(txn).ops@);
    }

    /// The encoded record of a share.
    pub fn get_share(&self, id: ShareId) -> (r: Result<Option<Vec<u8>>, MetadataError>)
        requires
            self.backend.wf(),
        ensures
            self.backend.reliable() ==> r is Ok,
            self.backend.get_gives(ColumnFamily::Shares, be128(id.0), r),
            r matches Ok(v) ==> read_of(v) == value_in(
                self.backend.state(),
                ColumnFamily::Shares,
                be128(id.0),
            ),
    {
        self.backend.get(ColumnFamily::Shares, &id.to_bytes())
    }

    /// Writes the encoded record of a vault provider.
    pub fn put_vault_provider(&self, txn: &mut Txn, id: ProviderId, encoded: Vec<u8>)
        ensures
            final(txn).ops@.len() == old(txn).ops@.len() + 1,
            final(txn).ops@.drop_last() == old(txn).ops@,
            final(txn).ops@.last().is_put(ColumnFamily::VaultMeta, vault_provider_key(id), encoded@),
    {
        let mut key = to_vec("vp:".as_bytes());
        crate::bytes::append(&mut key, &id.to_bytes());
        txn.put(ColumnFamily::VaultMeta, key, encoded);
        assert(txn.ops@.drop_last() =~= old(txn).ops@);
    }

    /// Writes the encoded record of a file, and the index entry of its path.
    pub fn put_file(&self, txn: &mut Txn, f: &File, encoded: Vec<u8>)
        ensures
            final(txn).ops@.len() == old(txn).ops@.len() + 2,
            final(txn).ops@.take(old(txn).ops@.len() as int) == old(txn).ops@,
            final(txn).ops@[old(txn).ops@.len() as int].is_put(
                ColumnFamily::Files,
                be128(f.file_id.0),
                encoded@,
            ),
            final(txn).ops@[old(txn).ops@.len() as int + 1].is_put(
                ColumnFamily::PathIndex,
                encode_utf8(f.path.value@),
                be128(f.file_id.0),
            ),
    {
        txn.put(ColumnFamily::Files, f.file_id.to_bytes(), encoded);
        txn.put(
            ColumnFamily::PathIndex,
            to_vec(f.path.value.as_str().as_bytes()),
            f.file_id.to_bytes(),
        );
        assert(txn.ops@.take(old(txn).ops@.len() as int) =~= old(txn).ops@);
    }

    /// The encoded record of a file.
    pub fn get_file(&self, id: FileId) -> (r: Result<Option<Vec<u8>>, MetadataError>)
        requires
            self.backend.wf(),
        ensures
            self.backend.reliable() ==> r is Ok,
            self.backend.get_gives(ColumnFamily::Files, be128(id.0), r),
            r matches Ok(v) ==> read_of(v) == value_in(
                self.backend.state(),
                ColumnFamily::Files,
                be128(id.0),
            ),
    {
        self.backend.get(ColumnFamily::Files, &id.to_bytes())
    }

    /// Removes the record of a file. The path index keeps its entry.
    pub fn delete_file(&self, txn: &mut Txn, id: FileId)
        ensures
            final(txn).ops@.len() == old(txn).ops@.len() + 1,
            final(txn).ops@.drop_last() == old(txn).ops@,
            final(txn).ops@.last().is_delete(ColumnFamily::Files, be128(id.0)),
    {
        txn.delete(ColumnFamily::Files, id.to_bytes());
        assert(txn.ops@.drop_last() =~= old(txn).ops@);
    }

    fn record_at(&self, entry: &[u8]) -> (r: Result<Option<Vec<u8>>, MetadataError>)
        requires
            self.backend.wf(),
        ensures
            self.backend.reliable() ==> r is Ok,
            r matches Ok(v) ==> read_of(v) == indexed_record(self.backend.state(), entry@),
            r matches Err(e) ==> exists|key: Seq<u8>| #[trigger]
                self.backend.get_gives(ColumnFamily::Files, key, Err(e)),
    {
        if entry.len() < 16 {
            return Ok(None);
        }

        let id = FileId(read_be128(entry, 0));
        self.get_file(id)
    }

    /// Whether an error came from the backend or the decoder.
    pub open spec fn handed_on<F: Fn(Vec<u8>) -> Result<File, MetadataError>>(
        &self,
        decode: F,
        e: MetadataError,
    ) -> bool {
        ||| exists|cf: ColumnFamily, key: Seq<u8>| #[trigger] self.backend.get_gives(cf, key, Err(e))
        ||| exists|cf: ColumnFamily, prefix: Seq<u8>| #[trigger]
            self.backend.scan_gives(cf, prefix, Err(e))
        ||| exists|bytes: Seq<u8>| #[trigger] reads_as(decode, bytes, Err(e))
    }

    /// Reads the file that an entry of the path index leads to.
    fn file_at<F: Fn(Vec<u8>) -> Result<File, MetadataError>>(&self, entry: &[u8], decode: &F) -> (r:
        Result<Option<File>, MetadataError>)
        requires
            self.backend.wf(),
            forall|b: Vec<u8>| #[trigger] decode.requires((b,)),
        ensures
            self.backend.reliable() && reads_all(*decode) ==> r is Ok,
            r matches Ok(f) ==> record_reads(
                *decode,
                indexed_record(self.backend.state(), entry@),
                f,
            ),
            r matches Err(e) ==> self.handed_on(*decode, e),
    {
        match self.record_at(entry) {
            Ok(Some(bytes)) => {
                let ghost b = bytes;
                let read = decode(bytes);
                assert(decode.ensures((b,), read));
                assert(reads_as(*decode, b@, read));
                match read {
                    Ok(f) => Ok(Some(f)),
                    Err(e) => Err(e),
                }
            },
            Ok(None) => Ok(None),
            Err(e) => Err(e),
        }
    }

    /// Reads all files, by increasing identifier.
    fn decoded_files<F: Fn(Vec<u8>) -> Result<File, MetadataError>>(&self, decode: &F) -> (r: Result<
        Vec<File>,
        MetadataError,
    >)
        requires
            self.backend.wf(),
            forall|b: Vec<u8>| #[trigger] decode.requires((b,)),
        ensures
            self.backend.reliable() && reads_all(*decode) ==> r is Ok,
            r matches Ok(files) ==> all_files(*decode, self.backend.state(), files@),
            r matches Err(e) ==> self.handed_on(*decode, e),
    {
        let records = match self.iter_files() {
            Ok(records) => records,
            Err(e) => {
                return Err(e);
            },
        };
        let mut out: Vec<File> = Vec::new();
        let mut i: usize = 0;
        while i < records.len()
            invariant
                forall|b: Vec<u8>| #[trigger] decode.requires((b,)),
                0 <= i <= records@.len(),
                out@.len() == i,
                forall|j: int|
                    0 <= j < i ==> reads_as(*decode, (#[trigger] records@[j])@, Ok(out@[j])),
            decreases records@.len() - i,
        {
            let bytes = to_vec(&records[i]);
            let ghost b = bytes;
            let read = decode(bytes);
            assert(decode.ensures((b,), read));
            assert(reads_as(*decode, records@[i as int]@, read));
            match read {
                Ok(f) => {
                    out.push(f);
                },
                Err(e) => {
                    return Err(e);
                },
            }
            i = i + 1;
        }
        proof {
            let rows = choose|rows: Seq<Row>| #[trigger]
                lists_prefix(
                    rows,
                    self.backend.state()[ColumnFamily::Files],
                    Seq::empty(),
                ) && byte_views(records@) == row_values(rows);
            assert(byte_views(records@).len() == row_values(rows).len());
            assert forall|k: int| 0 <= k < rows.len() implies reads_as(
                *decode,
                (#[trigger] rows[k]).1@,
                Ok(out@[k]),
            ) by {
                assert(byte_views(records@)[k] == row_values(rows)[k]);
                assert(records@[k]@ == rows[k].1@);
            }
        }
        Ok(out)
    }

    /// The file at a path. The path index answers where the record it leads to stands at that path
    /// itself; where there is none, or it is a leftover, all files are searched.
    pub fn get_file_by_path<F: Fn(Vec<u8>) -> Result<File, MetadataError>>(
        &self,
        path: &str,
        decode: F,
    ) -> (r: Result<Option<File>, MetadataError>)
        requires
            self.backend.wf(),
            forall|b: Vec<u8>| #[trigger] decode.requires((b,)),
        ensures
            self.backend.reliable() && reads_all(decode) ==> r is Ok,
            r matches Ok(found) ==> found_at(decode, self.backend.state(), path@, found),
            r matches Ok(Some(f)) ==> f.path.value@ == path@,
            r matches Err(e) ==> self.handed_on(decode, e),
    {
        let indexed: Option<File> = match self.backend.get(
            ColumnFamily::PathIndex,
            path.as_bytes(),
        ) {
            Ok(Some(entry)) => match self.file_at(&entry, &decode) {
                Ok(f) => f,
                Err(e) => {
                    return Err(e);
                },
            },
            Ok(None) => None,
            Err(e) => {
                return Err(e);
            },
        };
        assert(record_reads(decode, record_of_path(self.backend.state(), path@), indexed));
        let answered: bool = match &indexed {
            Some(f) => stands_at(f, path),
            None => false,
        };
        if answered {
            return Ok(indexed);
        }
        let all = match self.decoded_files(&decode) {
            Ok(all) => all,
            Err(e) => {
                return Err(e);
            },
        };
        proof {
            lemma_first_at(all@, path@);
        }
        Ok(resolve_by_path(indexed, all, path))
    }

    /// The files whose own path begins with `prefix`, by increasing path, as the path index has
    /// them. An entry that leads to a file that stands elsewhere is passed over.
    pub fn list_files_with_prefix<F: Fn(Vec<u8>) -> Result<File, MetadataError>>(
        &self,
        prefix: &str,
        decode: F,
    ) -> (r: Result<Vec<File>, MetadataError>)
        requires
            self.backend.wf(),
            forall|b: Vec<u8>| #[trigger] decode.requires((b,)),
        ensures
            self.backend.reliable() && reads_all(decode) ==> r is Ok,
            r matches Ok(out) ==> (exists|rows: Seq<Row>, files: Seq<Option<File>>|
                lists_prefix(
                    rows,
                    self.backend.state()[ColumnFamily::PathIndex],
                    encode_utf8(prefix@),
                ) && #[trigger] rows_read(decode, self.backend.state(), rows, files) && out@
                    == own_files(rows, files)),
            r matches Ok(out) ==> forall|i: int|
                0 <= i < out@.len() ==> has_prefix(
                    encode_utf8((#[trigger] out@[i]).path.value@),
                    encode_utf8(prefix@),
                ),
            r matches Ok(out) ==> forall|i: int, j: int|
                0 <= i < j < out@.len() ==> lex_lt(
                    encode_utf8((#[trigger] out@[i]).path.value@),
                    encode_utf8((#[trigger] out@[j]).path.value@),
                ),
            r matches Err(e) ==> self.handed_on(decode, e),
    {
        let rows = match self.backend.scan_prefix(ColumnFamily::PathIndex, prefix.as_bytes()) {
            Ok(rows) => rows,
            Err(e) => {
                return Err(e);
            },
        };
        let mut out: Vec<File> = Vec::new();
        let ghost mut files: Seq<Option<File>> = Seq::empty();
        let mut i: usize = 0;
        while i < rows.len()
            invariant
                self.backend.wf(),
                forall|b: Vec<u8>| #[trigger] decode.requires((b,)),
                0 <= i <= rows@.len(),
                files.len() == i,
                forall|j: int|
                    0 <= j < i ==> record_reads(
                        decode,
                        indexed_record(self.backend.state(), (#[trigger] rows@[j]).1@),
                        files[j],
                    ),
                out@ == own_files(rows@.take(i as int), files),
            decreases rows@.len() - i,
        {
            assert(rows@.take(i + 1).drop_last() =~= rows@.take(i as int));
            match self.file_at(&rows[i].1, &decode) {
                Ok(found) => {
                    proof {
                        assert(files.push(found).drop_last() =~= files);
                        files = files.push(found);
                    }
                    if let Some(f) = found {
                        if bytes_eq(f.path.value.as_str().as_bytes(), &rows[i].0) {
                            out.push(f);
                        }
                    }
                },
                Err(e) => {
                    return Err(e);
                },
            }
            i = i + 1;
        }
        proof {
            assert(rows@.take(i as int) =~= rows@);
            assert(rows_read(decode, self.backend.state(), rows@, files));
            lemma_own_files(rows@, files);
            assert forall|k: int| 0 <= k < out@.len() implies has_prefix(
                encode_utf8((#[trigger] out@[k]).path.value@),
                encode_utf8(prefix@),
            ) by {
                assert(own_files(rows@, files).contains(out@[k]));
            }
        }
        Ok(out)
    }

    fn values_of(&self, cf: ColumnFamily) -> (r: Result<Vec<Vec<u8>>, MetadataError>)
        requires
            self.backend.wf(),
        ensures
            self.backend.reliable() ==> r is Ok,
            r matches Ok(out) ==> exists|rows: Seq<Row>| #[trigger]
                lists_prefix(rows, self.backend.state()[cf], Seq::empty()) && byte_views(out@)
                    == row_values(rows),
            r matches Err(e) ==> self.backend.scan_gives(cf, Seq::empty(), Err(e)),
    {
        let none: Vec<u8> = Vec::new();
        assert(none@ =~= Seq::<u8>::empty());
        let rows = match self.backend.scan_prefix(cf, &none) {
            Ok(rows) => rows,
            Err(e) => {
                return Err(e);
            },
        };
        let mut out: Vec<Vec<u8>> = Vec::new();
        let mut i: usize = 0;
        while i < rows.len()
            invariant
                0 <= i <= rows@.len(),
                out@.len() == i,
                forall|j: int| 0 <= j < i ==> (#[trigger] out@[j])@ == rows@[j].1@,
            decreases rows@.len() - i,
        {
            out.push(to_vec(&rows[i].1));
            i = i + 1;
        }
        assert(byte_views(out@) =~= row_values(rows@));
        Ok(out)
    }

    /// The encoded records of all files, by increasing identifier.
    pub fn iter_files(&self) -> (r: Result<Vec<Vec<u8>>, MetadataError>)
        requires
            self.backend.wf(),
        ensures
            self.backend.reliable() ==> r is Ok,
            r matches Ok(out) ==> exists|rows: Seq<Row>| #[trigger]
                lists_prefix(rows, self.backend.state()[ColumnFamily::Files], Seq::empty())
                    && byte_views(out@) == row_values(rows),
            r matches Err(e) ==> self.backend.scan_gives(
                ColumnFamily::Files,
                Seq::empty(),
                Err(e),
            ),
    {
        self.values_of(ColumnFamily::Files)
    }

    /// The encoded records of all providers, by increasing identifier.
    pub fn iter_providers(&self) -> (r: Result<Vec<Vec<u8>>, MetadataError>)
        requires
            self.backend.wf(),
        ensures
            self.backend.reliable() ==> r is Ok,
            r matches Ok(out) ==> exists|rows: Seq<Row>| #[trigger]
                lists_prefix(rows, self.backend.state()[ColumnFamily::Providers], Seq::empty())
                    && byte_views(out@) == row_values(rows),
            r matches Err(e) ==> self.backend.scan_gives(
                ColumnFamily::Providers,
                Seq::empty(),
                Err(e),
            ),
    {
        self.values_of(ColumnFamily::Providers)
    }

    /// Writes a large value under a key.
    pub fn put_large_value(&self, txn: &mut Txn, key: &[u8], value: &[u8])
        ensures
            final(txn).ops@.len() == old(txn).ops@.len() + 1,
            final(txn).ops@.drop_last() == old(txn).ops@,
            final(txn).ops@.last().is_put(ColumnFamily::LargeValues, key@, value@),
    {
        txn.put(ColumnFamily::LargeValues, to_vec(key), to_vec(value));
        assert(txn.ops@.drop_last() =~= old(txn).ops@);
    }

    /// Reads a large value.
    pub fn get_large_value(&self, key: &[u8]) -> (r: Result<Option<Vec<u8>>, MetadataError>)
        requires
            self.backend.wf(),
        ensures
            self.backend.reliable() ==> r is Ok,
            self.backend.get_gives(ColumnFamily::LargeValues, key@, r),
            r matches Ok(v) ==> read_of(v) == value_in(
                self.backend.state(),
                ColumnFamily::LargeValues,
                key@,
            ),
    {
        self.backend.get(ColumnFamily::LargeValues, key)
    }
}

/// Once the writes of `put_file` are committed, the path leads to the record that was put.
pub proof fn lemma_put_file_then_find(
    s: DbState,
    ops: Seq<WriteOp>,
    record: WriteOp,
    entry: WriteOp,
    id: FileId,
    path: Seq<char>,
    encoded: Seq<u8>,
)
    requires
        record.is_put(ColumnFamily::Files, be128(id.0), encoded),
        entry.is_put(ColumnFamily::PathIndex, encode_utf8(path), be128(id.0)),
    ensures
        ({
            let after = ops_applied(s, ops.push(record).push(entry));
            &&& value_in(after, ColumnFamily::PathIndex, encode_utf8(path)) == Some(be128(id.0))
            &&& indexed_record(after, be128(id.0)) == Some(encoded)
            &&& value_in(after, ColumnFamily::Files, be128(id.0)) == Some(encoded)
        }),
{
    super::backend::lemma_last_put_wins(
        s,
        ops,
        record,
        ColumnFamily::Files,
        be128(id.0),
        encoded,
    );
    super::backend::lemma_last_put_wins(
        s,
        ops.push(record),
        entry,
        ColumnFamily::PathIndex,
        encode_utf8(path),
        be128(id.0),
    );
    let after = ops_applied(s, ops.push(record).push(entry));
    assert(value_in(after, ColumnFamily::Files, be128(id.0)) == value_in(
        ops_applied(s, ops.push(record)),
        ColumnFamily::Files,
        be128(id.0),
    ));
    crate::bytes::lemma_be128_round_trip(id.0);
    assert(be128(id.0).subrange(0, 16) =~= be128(id.0));
}

/// A file that was put and stands where its entry says is found at its path, whatever else is
/// there.
pub proof fn lemma_put_file_is_found<F: Fn(Vec<u8>) -> Result<File, MetadataError>>(
    decode: F,
    s: DbState,
    f: File,
    encoded: Seq<u8>,
    found: Option<File>,
)
    requires
        value_in(s, ColumnFamily::PathIndex, encode_utf8(f.path.value@)) == Some(be128(f.file_id.0)),
        value_in(s, ColumnFamily::Files, be128(f.file_id.0)) == Some(encoded),
        forall|r: Result<File, MetadataError>| #[trigger]
            reads_as(decode, encoded, r) ==> r == Ok::<File, MetadataError>(f),
        found_at(decode, s, f.path.value@, found),
    ensures
        found == Some(f),
{
    crate::bytes::lemma_be128_round_trip(f.file_id.0);
    assert(be128(f.file_id.0).subrange(0, 16) =~= be128(f.file_id.0));
    let path = f.path.value@;
    assert(record_of_path(s, path) == Some(encoded));
    let indexed = choose|indexed: Option<File>| #[trigger]
        record_reads(decode, record_of_path(s, path), indexed) && (if indexed is Some
            && indexed.unwrap().path.value@ == path {
            found == indexed
        } else {
            exists|all: Seq<File>| #[trigger]
                all_files(decode, s, all) && found == first_at(all, path)
        });
    assert(reads_as(decode, encoded, Ok(indexed.unwrap())));
}

/// The records of two vault providers stand at different keys.
pub proof fn lemma_vault_provider_keys_apart(a: ProviderId, b: ProviderId)
    requires
        vault_provider_key(a) == vault_provider_key(b),
    ensures
        a == b,
{
    let p = encode_utf8("vp:"@);
    assert((p + be128(a.0)).skip(p.len() as int) =~= be128(a.0));
    assert((p + be128(b.0)).skip(p.len() as int) =~= be128(b.0));
    crate::bytes::lemma_be128_injective(a.0, b.0);
}

/// An entry of the path index names the file whose identifier it begins with; a shorter entry
/// names none.
pub proof fn lemma_index_entry_names(id: FileId, rest: Seq<u8>, entry: Seq<u8>)
    ensures
        indexed_file(be128(id.0) + rest) == Some(id),
        entry.len() < 16 ==> indexed_file(entry) is None,
{
    crate::bytes::lemma_be128_round_trip(id.0);
    assert((be128(id.0) + rest).subrange(0, 16) =~= be128(id.0));
}

/// The file at a path is the indexed one, where that has the path; else the first of all files that
/// has it; and none where no file has it.
pub proof fn lemma_file_resolved(indexed: Option<File>, all: Seq<File>, path: Seq<char>, at: int)
    requires
        0 <= at <= all.len(),
        forall|j: int| 0 <= j < at ==> (#[trigger] all[j]).path.value@ != path,
        at < all.len() ==> all[at].path.value@ == path,
    ensures
        indexed matches Some(f) && f.path.value@ == path ==> resolved(indexed, all, path) == indexed,
        (indexed is None || indexed.unwrap().path.value@ != path) && at < all.len() ==> resolved(
            indexed,
            all,
            path,
        ) == Some(all[at]),
        (indexed is None || indexed.unwrap().path.value@ != path) && at == all.len() ==> resolved(
            indexed,
            all,
            path,
        ) is None,
{
    if at < all.len() {
        lemma_first_at_is(all, path, at);
    } else {
        lemma_first_at_none(all, path);
    }
}

/// What is found at a path is a file that has the path.
pub proof fn lemma_found_has_path<F: Fn(Vec<u8>) -> Result<File, MetadataError>>(
    decode: F,
    s: DbState,
    path: Seq<char>,
    found: Option<File>,
)
    requires
        found_at(decode, s, path, found),
    ensures
        found matches Some(f) ==> f.path.value@ == path,
{
    let indexed = choose|indexed: Option<File>| #[trigger]
        record_reads(decode, record_of_path(s, path), indexed) && (if indexed is Some
            && indexed.unwrap().path.value@ == path {
            found == indexed
        } else {
            exists|all: Seq<File>| #[trigger]
                all_files(decode, s, all) && found == first_at(all, path)
        });
    if !(indexed is Some && indexed.unwrap().path.value@ == path) {
        let all = choose|all: Seq<File>| #[trigger]
            all_files(decode, s, all) && found == first_at(all, path);
        lemma_first_at(all, path);
    }
}

/// Rows and values are told by their bytes, each in its place.
pub proof fn lemma_rows_told(rows: Seq<Row>, values: Seq<Vec<u8>>, i: int)
    ensures
        row_values(rows).len() == rows.len(),
        0 <= i < rows.len() ==> row_values(rows)[i] == rows[i].1@,
        byte_views(values).len() == values.len(),
        0 <= i < values.len() ==> byte_views(values)[i] == values[i]@,
{
}

} // verus!
