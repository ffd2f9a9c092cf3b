//! Snapshots of the metadata store: what goes in, how it is sealed, where it is pushed, and how a
//! pulled one is put back.

use vstd::prelude::*;
use vstd::utf8::*;

use super::ApiError;
use crate::bytes::append;
use crate::bytes::slice_of;
use crate::bytes::to_array12;
use crate::bytes::to_array16;
use crate::bytes::to_vec;
use crate::crypto::aead::aead_opened;
use crate::crypto::aead::aead_sealed;
use crate::crypto::aead::chacha_sealed;
use crate::crypto::subkey::hkdf_sha256_output;
use crate::crypto::aead::decrypt;
use crate::crypto::aead::encrypt;
use crate::crypto::aead::random_12;
use crate::crypto::aead::CHACHA_MAX_BYTES;
use crate::crypto::subkey::derive_subkey;
use crate::crypto::subkey::subkey;
use crate::crypto::SymKey;
use crate::entities::records::SignedSnapshotPointer;
use crate::metadata::backend::ops_applied;
use crate::metadata::backend::value_in;
use crate::metadata::backend::Backend;
use crate::metadata::backend::DbState;
use crate::metadata::backend::Txn;
use crate::metadata::backend::WriteOp;
use crate::metadata::cf::ColumnFamily;
use crate::metadata::MetadataError;
use crate::text::chars_of;
use crate::text::dec_digits;
use crate::text::hex_decode_chars;
use crate::text::hex_decoded;
use crate::text::hex_encode;
use crate::text::hex_text;
use crate::text::lemma_hex_round_trip;
use crate::text::lemma_position_meaning;
use crate::text::position;
use crate::text::joined;
use crate::text::push_chars;
use crate::text::push_decimal;
use crate::text::push_text;
use crate::text::split_at_first;
use crate::text::split_once;
use crate::text::str_eq;
use crate::text::string_of;
use crate::types::uuid_chars;
use crate::types::uuid_text;
use crate::types::AeadNonce;
use crate::types::AeadSuite;
use crate::types::AeadTag;
use crate::types::KeyPurpose;
use crate::types::MonotonicCounter;
use crate::types::ProviderId;
use crate::types::Timestamp;
use crate::types::VaultId;

verus! {

/// An entry of a snapshot: a name and a value.
pub type Entry = (String, Vec<u8>);

/// The contents of entries.
pub open spec fn entry_views(entries: Seq<Entry>) -> Seq<(Seq<char>, Seq<u8>)> {
    entries.map_values(|e: Entry| (e.0@, e.1@))
}

/// The column families that a snapshot covers, in the order in which it covers them.
pub fn snapshot_families() -> (r: [ColumnFamily; 9])
    ensures
        r@ == seq![
            ColumnFamily::Files,
            ColumnFamily::Chunks,
            ColumnFamily::Shards,
            ColumnFamily::Shadows,
            ColumnFamily::Providers,
            ColumnFamily::Identity,
            ColumnFamily::Peers,
            ColumnFamily::Shares,
            ColumnFamily::Devices,
        ],
        forall|i: int| 0 <= i < 9 ==> in_snapshots(#[trigger] r@[i]),
        forall|cf: ColumnFamily| in_snapshots(cf) ==> r@.contains(cf),
{
    let out = [
        ColumnFamily::Files,
        ColumnFamily::Chunks,
        ColumnFamily::Shards,
        ColumnFamily::Shadows,
        ColumnFamily::Providers,
        ColumnFamily::Identity,
        ColumnFamily::Peers,
        ColumnFamily::Shares,
        ColumnFamily::Devices,
    ];
    proof {
        assert(out@ =~= seq![
            ColumnFamily::Files,
            ColumnFamily::Chunks,
            ColumnFamily::Shards,
            ColumnFamily::Shadows,
            ColumnFamily::Providers,
            ColumnFamily::Identity,
            ColumnFamily::Peers,
            ColumnFamily::Shares,
            ColumnFamily::Devices,
        ]);
        assert forall|cf: ColumnFamily| in_snapshots(cf) implies out@.contains(cf) by {
            let i: int = match cf {
                ColumnFamily::Files => 0,
                ColumnFamily::Chunks => 1,
                ColumnFamily::Shards => 2,
                ColumnFamily::Shadows => 3,
                ColumnFamily::Providers => 4,
                ColumnFamily::Identity => 5,
                ColumnFamily::Peers => 6,
                ColumnFamily::Shares => 7,
                _ => 8,
            };
            assert(out@[i] == cf);
        }
    }
    out
}

/// Whether snapshots cover a column family.
pub open spec fn in_snapshots(cf: ColumnFamily) -> bool {
    match cf {
        ColumnFamily::Files => true,
        ColumnFamily::Chunks => true,
        ColumnFamily::Shards => true,
        ColumnFamily::Shadows => true,
        ColumnFamily::Providers => true,
        ColumnFamily::Identity => true,
        ColumnFamily::Peers => true,
        ColumnFamily::Shares => true,
        ColumnFamily::Devices => true,
        _ => false,
    }
}

/// A stored record on its way into a snapshot. `clock` is the physical clock of a file's last
/// change, where the record could be decoded.
pub struct SnapshotRow {
    pub cf: ColumnFamily,
    pub key: Vec<u8>,
    pub value: Vec<u8>,
    pub clock: Option<u64>,
}

/// Whether a row goes into a snapshot. Where only changes since a clock reading are wanted, files
/// that were last changed by then stay out.
pub open spec fn is_included(row: SnapshotRow, since: Option<u64>) -> bool {
    match (row.cf, since, row.clock) {
        (ColumnFamily::Files, Some(s), Some(c)) => c > s,
        _ => true,
    }
}

/// The name of an entry: its column family and its key in hexadecimal.
pub open spec fn entry_name(cf: ColumnFamily, key: Seq<u8>) -> Seq<char> {
    cf.label() + seq!['/'] + hex_text(key)
}

/// The entries of the rows that are included, in order.
pub open spec fn entries_of(rows: Seq<SnapshotRow>, since: Option<u64>) -> Seq<(Seq<char>, Seq<u8>)>
    decreases rows.len(),
{
    if rows.len() == 0 {
        Seq::empty()
    } else {
        let head = entries_of(rows.drop_last(), since);
        let row = rows.last();
        if is_included(row, since) {
            head.push((entry_name(row.cf, row.key@), row.value@))
        } else {
            head
        }
    }
}

/// Gathers the entries of a snapshot.
pub fn collect_entries(rows: &Vec<SnapshotRow>, since: Option<u64>) -> (r: Vec<Entry>)
    ensures
        entry_views(r@) == entries_of(rows@, since),
        since is None ==> r@.len() == rows@.len() && forall|i: int|
            #![trigger r@[i]]
            0 <= i < rows@.len() ==> r@[i].0@ == rows@[i].cf.label() + seq!['/'] + hex_text(
                rows@[i].key@,
            ) && r@[i].1@ == rows@[i].value@,
{
    let mut out: Vec<Entry> = Vec::new();
    let mut i: usize = 0;
    assert(entry_views(out@) =~= Seq::<(Seq<char>, Seq<u8>)>::empty());
    while i < rows.len()
        invariant
            0 <= i <= rows@.len(),
            entry_views(out@) == entries_of(rows@.take(i as int), since),
        decreases rows@.len() - i,
    {
        assert(rows@.take(i + 1).drop_last() =~= rows@.take(i as int));
        let row = &rows[i];
        let stale: bool = match (row.cf, since, row.clock) {
            (ColumnFamily::Files, Some(s), Some(c)) => c <= s,
            _ => false,
        };
        if !stale {
            let mut name: Vec<char> = Vec::new();
            push_text(&mut name, row.cf.as_str());
            name.push('/');
            push_chars(&mut name, &hex_encode(&row.key));
            assert(name@ =~= entry_name(row.cf, row.key@));
            let ghost before = out@;
            out.push((string_of(&name), to_vec(&row.value)));
            assert(entry_views(out@) =~= entry_views(before).push(
                (entry_name(row.cf, row.key@), row.value@),
            ));
        }
        i = i + 1;
    }
    assert(rows@.take(i as int) =~= rows@);
    proof {
        if since is None {
            lemma_full_snapshot_has_every_row(rows@);
            assert(entry_views(out@).len() == out@.len());
            assert forall|i: int| #![trigger out@[i]] 0 <= i < rows@.len() implies out@[i].0@
                == rows@[i].cf.label() + seq!['/'] + hex_text(rows@[i].key@) && out@[i].1@
                == rows@[i].value@ by {
                assert(entry_views(out@)[i] == entries_of(rows@, None)[i]);
            }
        }
    }
    out
}

/// Names the CBOR encoding of a row of entries.
pub uninterp spec fn entries_cbor(entries: Seq<(Seq<char>, Seq<u8>)>) -> Seq<u8>;

/// Names the entries that a CBOR text decodes to; `None` where it is none of a row of entries.
pub uninterp spec fn entries_from_cbor(bytes: Seq<u8>) -> Option<Seq<(Seq<char>, Seq<u8>)>>;

/// `ciborium::into_writer` of a row of entries into a byte vector: text, bytes and rows of them
/// always have an encoding, and writing to a vector does not fail.
#[verifier::external_body]
fn encode_entries(entries: &Vec<Entry>) -> (r: Option<Vec<u8>>)
    ensures
        r is Some,
        r.unwrap()@ == entries_cbor(entry_views(entries@)),
{
    let mut out = Vec::new();
    ciborium::into_writer(entries, &mut out).ok()?;
    Some(out)
}

/// `ciborium::from_reader` into a row of entries: what `into_writer` made of a row gives the row
/// back. Nothing is said of the words in which a text is refused.
#[verifier::external_body]
fn decode_entries(bytes: &[u8]) -> (r: Result<Vec<Entry>, String>)
    ensures
        match r {
            Ok(e) => entries_from_cbor(bytes@) == Some(entry_views(e@)),
            Err(_) => entries_from_cbor(bytes@) is None,
        },
        forall|e: Seq<(Seq<char>, Seq<u8>)>|
            bytes@ == #[trigger] entries_cbor(e) ==> r is Ok && entry_views(r.unwrap()@) == e,
{
    ciborium::from_reader(bytes).map_err(|e| format!("{e}"))
}

/// The associated data of a vault's snapshots.
pub open spec fn snapshot_aad(vault: VaultId) -> Seq<u8> {
    encode_utf8("snapshot:"@ + uuid_text(vault.0))
}

fn aad_of(vault: VaultId) -> (r: Vec<u8>)
    ensures
        r@ == snapshot_aad(vault),
{
    let mut t: Vec<char> = Vec::new();
    push_text(&mut t, "snapshot:");
    push_chars(&mut t, &uuid_chars(vault.0));
    assert(t@ =~= "snapshot:"@ + uuid_text(vault.0));
    let s = string_of(&t);
    to_vec(s.as_str().as_bytes())
}

/// A sealed snapshot: the nonce, then the encrypted entries and their tag.
pub open spec fn snapshot_sealed(
    master: Seq<u8>,
    vault: VaultId,
    nonce: Seq<u8>,
    entries: Seq<(Seq<char>, Seq<u8>)>,
) -> Seq<u8> {
    nonce + aead_sealed(
        AeadSuite::ChaCha20Poly1305,
        subkey(master, KeyPurpose::Snapshot, None),
        nonce,
        entries_cbor(entries),
        snapshot_aad(vault),
    )
}

/// Seals entries with a given nonce.
pub fn seal_with_nonce(master: &SymKey, vault: VaultId, nonce: [u8; 12], entries: &Vec<Entry>) -> (r: Result<
    Vec<u8>,
    ApiError,
>)
    ensures
        if entries_cbor(entry_views(entries@)).len() <= CHACHA_MAX_BYTES {
            r matches Ok(blob) && blob@ == snapshot_sealed(
                master.0@,
                vault,
                nonce@,
                entry_views(entries@),
            ) && blob@.len() == 28 + entries_cbor(entry_views(entries@)).len()
        } else {
            r matches Err(e) && e.says(400, "aead: AeadVerify"@)
        },
        r matches Ok(blob) ==> blob@ == nonce@ + chacha_sealed(
            hkdf_sha256_output(master.0@, encode_utf8("kp:snapshot"@)),
            nonce@,
            entries_cbor(entry_views(entries@)),
            encode_utf8("snapshot:"@ + uuid_text(vault.0)),
        ),
{
    let payload = match encode_entries(entries) {
        Some(p) => p,
        None => {
            return Err(ApiError::bad("encode"));
        },
    };
    let key = match derive_subkey(master, KeyPurpose::Snapshot, None) {
        Ok(k) => k,
        Err(_) => {
            return Err(ApiError::bad("derive"));
        },
    };
    let aad = aad_of(vault);
    let n = AeadNonce::N12(nonce);
    match encrypt(AeadSuite::ChaCha20Poly1305, &key, &n, &payload, &aad) {
        Ok((ct, tag)) => {
            let mut blob = to_vec(&nonce);
            append(&mut blob, &ct);
            append(&mut blob, &tag.0);
            assert(blob@ =~= nonce@ + (ct@ + tag.0@));
            Ok(blob)
        },
        Err(_) => Err(ApiError::bad("aead: AeadVerify")),
    }
}

/// Seals entries with a random nonce.
pub fn seal_snapshot(master: &SymKey, vault: VaultId, entries: &Vec<Entry>) -> (r: Result<
    Vec<u8>,
    ApiError,
>)
    ensures
        if entries_cbor(entry_views(entries@)).len() <= CHACHA_MAX_BYTES {
            r matches Ok(blob) && blob@.len() >= 28 && blob@ == snapshot_sealed(
                master.0@,
                vault,
                blob@.take(12),
                entry_views(entries@),
            )
        } else {
            r matches Err(e) && e.says(400, "aead: AeadVerify"@)
        },
{
    let n = random_12();
    let r = seal_with_nonce(master, vault, n, entries);
    proof {
        if r is Ok {
            assert(r->Ok_0@.take(12) =~= n@);
        }
    }
    r
}

/// Whether an error answers a snapshot that decrypts to something else than a row of entries. It
/// ends with the words of the decoder.
pub open spec fn is_decode_refusal(e: ApiError) -> bool {
    exists|why: Seq<char>| #[trigger] e.says(400, "snapshot decode: "@ + why)
}

/// Opens a sealed snapshot. One that was sealed for the same vault under the same master key gives
/// its entries back.
pub fn open_snapshot(master: &SymKey, vault: VaultId, blob: &[u8]) -> (r: Result<Vec<Entry>, ApiError>)
    ensures
        if blob@.len() < 28 {
            r matches Err(e) && e.says(400, "snapshot blob too short"@)
        } else if blob@.len() - 28 > CHACHA_MAX_BYTES {
            r matches Err(e) && e.says(400, "snapshot AEAD verification failed"@)
        } else {
            match aead_opened(
                AeadSuite::ChaCha20Poly1305,
                subkey(master.0@, KeyPurpose::Snapshot, None),
                blob@.take(12),
                blob@.skip(12),
                snapshot_aad(vault),
            ) {
                None => r matches Err(e) && e.says(400, "snapshot AEAD verification failed"@),
                Some(plain) => match entries_from_cbor(plain) {
                    None => r matches Err(e) && is_decode_refusal(e),
                    Some(entries) => r matches Ok(out) && entry_views(out@) == entries,
                },
            }
        },
        forall|nonce: Seq<u8>, entries: Seq<(Seq<char>, Seq<u8>)>|
            nonce.len() == 12 && entries_cbor(entries).len() <= CHACHA_MAX_BYTES && blob@.len() == 28
                + entries_cbor(entries).len() && blob@ == #[trigger] snapshot_sealed(
                master.0@,
                vault,
                nonce,
                entries,
            ) ==> (r matches Ok(out) && entry_views(out@) == entries),
{
    if blob.len() < 28 {
        return Err(ApiError::bad("snapshot blob too short"));
    }
    let end: usize = blob.len() - 16;
    let nonce = to_array12(&slice_of(blob, 0, 12));
    let ct = slice_of(blob, 12, end);
    let tag = AeadTag(to_array16(&slice_of(blob, end, blob.len())));
    assert(nonce@ =~= blob@.take(12));
    assert(ct@ + tag.0@ =~= blob@.skip(12));
    let key = match derive_subkey(master, KeyPurpose::Snapshot, None) {
        Ok(k) => k,
        Err(_) => {
            return Err(ApiError::bad("derive"));
        },
    };
    let aad = aad_of(vault);
    let n = AeadNonce::N12(nonce);
    let opened = decrypt(AeadSuite::ChaCha20Poly1305, &key, &n, &ct, &tag, &aad);
    proof {
        assert forall|nonce2: Seq<u8>, entries: Seq<(Seq<char>, Seq<u8>)>|
            nonce2.len() == 12 && entries_cbor(entries).len() <= CHACHA_MAX_BYTES && blob@.len() == 28
                + entries_cbor(entries).len() && blob@ == #[trigger] snapshot_sealed(
                master.0@,
                vault,
                nonce2,
                entries,
            ) implies opened is Ok && opened.unwrap()@ == entries_cbor(entries) by {
            let sealed = aead_sealed(
                AeadSuite::ChaCha20Poly1305,
                key.0@,
                nonce2,
                entries_cbor(entries),
                aad@,
            );
            assert(blob@ == nonce2 + sealed);
            assert(nonce2 =~= blob@.take(12));
            assert(sealed =~= blob@.skip(12));
        }
    }
    match opened {
        Ok(plain) => match decode_entries(&plain) {
            Ok(e) => Ok(e),
            Err(why) => {
                let text = joined("snapshot decode: ", why.as_str());
                assert(text@ == "snapshot decode: "@ + why@);
                Err(ApiError::bad(text.as_str()))
            },
        },
        Err(_) => Err(ApiError::bad("snapshot AEAD verification failed")),
    }
}

/// The column family of a name, among those that snapshots cover.
pub open spec fn family_named(name: Seq<char>) -> Option<ColumnFamily> {
    if name == "files"@ {
        Some(ColumnFamily::Files)
    } else if name == "chunks"@ {
        Some(ColumnFamily::Chunks)
    } else if name == "shards"@ {
        Some(ColumnFamily::Shards)
    } else if name == "shadows"@ {
        Some(ColumnFamily::Shadows)
    } else if name == "providers"@ {
        Some(ColumnFamily::Providers)
    } else if name == "identity"@ {
        Some(ColumnFamily::Identity)
    } else if name == "peers"@ {
        Some(ColumnFamily::Peers)
    } else if name == "shares"@ {
        Some(ColumnFamily::Shares)
    } else if name == "devices"@ {
        Some(ColumnFamily::Devices)
    } else {
        None
    }
}

fn family_by_name(name: &str) -> (r: Option<ColumnFamily>)
    ensures
        r == family_named(name@),
{
    if str_eq(name, "files") {
        Some(ColumnFamily::Files)
    } else if str_eq(name, "chunks") {
        Some(ColumnFamily::Chunks)
    } else if str_eq(name, "shards") {
        Some(ColumnFamily::Shards)
    } else if str_eq(name, "shadows") {
        Some(ColumnFamily::Shadows)
    } else if str_eq(name, "providers") {
        Some(ColumnFamily::Providers)
    } else if str_eq(name, "identity") {
        Some(ColumnFamily::Identity)
    } else if str_eq(name, "peers") {
        Some(ColumnFamily::Peers)
    } else if str_eq(name, "shares") {
        Some(ColumnFamily::Shares)
    } else if str_eq(name, "devices") {
        Some(ColumnFamily::Devices)
    } else {
        None
    }
}

/// Where an entry belongs, as its name says; `None` where the name is not understood.
pub open spec fn entry_place(name: Seq<char>) -> Option<(ColumnFamily, Seq<u8>)> {
    match split_at_first(name, '/') {
        Some((family, hex)) => match (family_named(family), hex_decoded(hex)) {
            (Some(cf), Some(key)) => Some((cf, key)),
            _ => None,
        },
        None => None,
    }
}

/// A state after an entry has been put back. An entry without a place changes nothing.
pub open spec fn entry_applied(s: DbState, e: (Seq<char>, Seq<u8>)) -> DbState {
    match entry_place(e.0) {
        Some((cf, key)) => s.insert(cf, s[cf].insert(key, e.1)),
        None => s,
    }
}

/// A state after entries have been put back, in order.
pub open spec fn entries_applied(s: DbState, entries: Seq<(Seq<char>, Seq<u8>)>) -> DbState
    decreases entries.len(),
{
    if entries.len() == 0 {
        s
    } else {
        entry_applied(entries_applied(s, entries.drop_last()), entries.last())
    }
}

/// How many entries have a place.
pub open spec fn placed(entries: Seq<(Seq<char>, Seq<u8>)>) -> nat
    decreases entries.len(),
{
    if entries.len() == 0 {
        0
    } else {
        placed(entries.drop_last()) + (if entry_place(entries.last().0) is Some {
            1nat
        } else {
            0nat
        })
    }
}

fn place_of(name: &String) -> (r: Option<(ColumnFamily, Vec<u8>)>)
    ensures
        match (r, entry_place(name@)) {
            (Some(a), Some(b)) => a.0 == b.0 && a.1@ == b.1,
            (None, None) => true,
            _ => false,
        },
{
    let n = chars_of(name.as_str());
    let (family, hex) = match split_once(&n, '/') {
        Some(x) => x,
        None => {
            return None;
        },
    };
    let cf = match family_by_name(string_of(&family).as_str()) {
        Some(cf) => cf,
        None => {
            return None;
        },
    };
    match hex_decode_chars(&hex) {
        Some(key) => Some((cf, key)),
        None => None,
    }
}

/// Whether a backend refused the write of one entry with this error.
pub open spec fn refused_at<B: Backend>(
    after: B,
    entries: Seq<(Seq<char>, Seq<u8>)>,
    k: int,
    e: MetadataError,
) -> bool {
    exists|before: B, ops: Seq<WriteOp>| #[trigger]
        before.commit_gives(ops, &after, Err(e)) && before.state() == after.state() && ops.len() == 1
            && (entry_place(entries[k].0) matches Some((cf, key)) && ops[0].is_put(
            cf,
            key,
            entries[k].1,
        ))
}

/// Puts entries back into a store, each in a transaction of its own. The result is how many had a
/// place. A failure leaves the entries before it in the store.
pub fn apply_snapshot<B: Backend>(backend: &mut B, entries: &Vec<Entry>) -> (r: Result<
    usize,
    MetadataError,
>)
    requires
        old(backend).wf(),
    ensures
        final(backend).wf(),
        final(backend).reliable() == old(backend).reliable(),
        old(backend).reliable() ==> r is Ok,
        match r {
            Ok(n) => final(backend).state() == entries_applied(
                old(backend).state(),
                entry_views(entries@),
            ) && n == placed(entry_views(entries@)),
            Err(e) => exists|k: int|
                0 <= k < entries@.len() && final(backend).state() == entries_applied(
                    old(backend).state(),
                    entry_views(entries@).take(k),
                ) && #[trigger] refused_at(*final(backend), entry_views(entries@), k, e),
        },
{
    let ghost start = backend.state();
    let ghost views = entry_views(entries@);
    let mut applied: usize = 0;
    let mut i: usize = 0;
    while i < entries.len()
        invariant
            backend.wf(),
            backend.reliable() == old(backend).reliable(),
            0 <= i <= entries@.len(),
            views == entry_views(entries@),
            start == old(backend).state(),
            backend.state() == entries_applied(start, views.take(i as int)),
            applied == placed(views.take(i as int)),
            applied <= i,
        decreases entries@.len() - i,
    {
        assert(views.take(i + 1).drop_last() =~= views.take(i as int));
        assert(views.take(i + 1).last() == (entries@[i as int].0@, entries@[i as int].1@));
        if let Some((cf, key)) = place_of(&entries[i].0) {
            let mut txn = Txn::new();
            txn.put(cf, key, to_vec(&entries[i].1));
            let ghost ops = txn.ops@;
            let ghost before = *backend;
            proof {
                assert(ops.drop_last() =~= Seq::<WriteOp>::empty());
                assert(ops_applied(backend.state(), ops.drop_last()) == backend.state());
            }
            match backend.commit(txn) {
                Ok(()) => {},
                Err(e) => {
                    proof {
                        assert(before.commit_gives(ops, backend, Err(e)));
                        assert(views[i as int] == (entries@[i as int].0@, entries@[i as int].1@));
                        assert(refused_at(*backend, views, i as int, e));
                    }
                    return Err(e);
                },
            }
            applied = applied + 1;
        }
        i = i + 1;
    }
    assert(views.take(i as int) =~= views);
    Ok(applied)
}

/// The last value that entries give a key, where they give it one.
pub open spec fn last_value(entries: Seq<(Seq<char>, Seq<u8>)>, cf: ColumnFamily, key: Seq<u8>) -> Option<
    Seq<u8>,
>
    decreases entries.len(),
{
    if entries.len() == 0 {
        None
    } else if entry_place(entries.last().0) == Some((cf, key)) {
        Some(entries.last().1)
    } else {
        last_value(entries.drop_last(), cf, key)
    }
}

proof fn lemma_applied_value(
    s: DbState,
    entries: Seq<(Seq<char>, Seq<u8>)>,
    cf: ColumnFamily,
    key: Seq<u8>,
)
    ensures
        value_in(entries_applied(s, entries), cf, key) == (match last_value(entries, cf, key) {
            Some(v) => Some(v),
            None => value_in(s, cf, key),
        }),
    decreases entries.len(),
{
    if entries.len() > 0 {
        lemma_applied_value(s, entries.drop_last(), cf, key);
    }
}

/// Pulling the same snapshot twice leaves the store as pulling it once.
pub proof fn lemma_pull_idempotent(
    s: DbState,
    entries: Seq<(Seq<char>, Seq<u8>)>,
    cf: ColumnFamily,
    key: Seq<u8>,
)
    ensures
        value_in(entries_applied(entries_applied(s, entries), entries), cf, key) == value_in(
            entries_applied(s, entries),
            cf,
            key,
        ),
{
    lemma_applied_value(s, entries, cf, key);
    lemma_applied_value(entries_applied(s, entries), entries, cf, key);
}

proof fn lemma_label_has_no_slash(cf: ColumnFamily)
    requires
        in_snapshots(cf),
    ensures
        forall|i: int| 0 <= i < cf.label().len() ==> cf.label()[i] != '/',
        family_named(cf.label()) == Some(cf),
{
    reveal_strlit("files");
    reveal_strlit("chunks");
    reveal_strlit("shards");
    reveal_strlit("shadows");
    reveal_strlit("providers");
    reveal_strlit("identity");
    reveal_strlit("peers");
    reveal_strlit("shares");
    reveal_strlit("devices");
    assert("files"@ =~= seq!['f', 'i', 'l', 'e', 's']);
    assert("chunks"@ =~= seq!['c', 'h', 'u', 'n', 'k', 's']);
    assert("shards"@ =~= seq!['s', 'h', 'a', 'r', 'd', 's']);
    assert("shadows"@ =~= seq!['s', 'h', 'a', 'd', 'o', 'w', 's']);
    assert("providers"@ =~= seq!['p', 'r', 'o', 'v', 'i', 'd', 'e', 'r', 's']);
    assert("identity"@ =~= seq!['i', 'd', 'e', 'n', 't', 'i', 't', 'y']);
    assert("peers"@ =~= seq!['p', 'e', 'e', 'r', 's']);
    assert("shares"@ =~= seq!['s', 'h', 'a', 'r', 'e', 's']);
    assert("devices"@ =~= seq!['d', 'e', 'v', 'i', 'c', 'e', 's']);
    assert("files"@[0] == 'f' && "peers"@[0] == 'p' && "chunks"@[0] == 'c' && "shards"@[3] == 'r'
        && "shares"@[3] == 'r' && "shards"@[4] == 'd' && "shares"@[4] == 'e');
    assert("files"@.len() == 5 && "chunks"@.len() == 6 && "shards"@.len() == 6 && "shadows"@.len() == 7
        && "providers"@.len() == 9 && "identity"@.len() == 8 && "peers"@.len() == 5 && "shares"@.len()
        == 6 && "devices"@.len() == 7);
    assert("shadows"@[0] == 's' && "devices"@[0] == 'd');
}

proof fn lemma_first_slash(label: Seq<char>, rest: Seq<char>)
    requires
        forall|i: int| 0 <= i < label.len() ==> label[i] != '/',
    ensures
        split_at_first(label.push('/') + rest, '/') == Some((label, rest)),
{
    let name = label.push('/') + rest;
    let n = label.len() as int;
    lemma_position_meaning(name, '/');
    assert(name[n] == '/');
    assert forall|i: int| 0 <= i < n implies name[i] != '/' by {
        assert(name[i] == label[i]);
    }
    assert(position(name, '/') == n);
    assert(name.take(n) =~= label);
    assert(name.skip(n + 1) =~= rest);
}

/// The name of an entry says where it belongs.
#[verifier::spinoff_prover]
pub proof fn lemma_entry_name_place(cf: ColumnFamily, key: Seq<u8>)
    requires
        in_snapshots(cf),
    ensures
        entry_place(entry_name(cf, key)) == Some((cf, key)),
{
    lemma_label_has_no_slash(cf);
    lemma_hex_round_trip(key);
    lemma_first_slash(cf.label(), hex_text(key));
    assert(entry_name(cf, key) =~= cf.label().push('/') + hex_text(key));
}

/// Whether no two rows have one place.
pub open spec fn rows_distinct(rows: Seq<SnapshotRow>) -> bool {
    forall|i: int, j: int|
        0 <= i < j < rows.len() ==> (#[trigger] rows[i]).cf != (#[trigger] rows[j]).cf || rows[i].key@
            != rows[j].key@
}

proof fn lemma_last_value_of_row(rows: Seq<SnapshotRow>, since: Option<u64>, at: int)
    requires
        rows_distinct(rows),
        forall|i: int| 0 <= i < rows.len() ==> in_snapshots((#[trigger] rows[i]).cf),
        0 <= at < rows.len(),
        is_included(rows[at], since),
    ensures
        last_value(entries_of(rows, since), rows[at].cf, rows[at].key@) == Some(rows[at].value@),
    decreases rows.len(),
{
    let head = rows.drop_last();
    let row = rows.last();
    let e = entries_of(rows, since);
    lemma_entry_name_place(row.cf, row.key@);
    if is_included(row, since) {
        assert(e.drop_last() =~= entries_of(head, since));
    }
    if at == rows.len() - 1 {
        assert(e.last() == (entry_name(row.cf, row.key@), row.value@));
    } else {
        assert(rows[at].cf != rows[rows.len() - 1].cf || rows[at].key@ != rows[rows.len() - 1].key@);
        assert forall|i: int, j: int| 0 <= i < j < head.len() implies (#[trigger] head[i]).cf != (
        #[trigger] head[j]).cf || head[i].key@ != head[j].key@ by {
            assert(head[i] == rows[i] && head[j] == rows[j]);
        }
        assert forall|i: int| 0 <= i < head.len() implies in_snapshots((#[trigger] head[i]).cf) by {
            assert(head[i] == rows[i]);
        }
        lemma_last_value_of_row(head, since, at);
        assert(head[at] == rows[at]);
    }
}

/// Pulling a snapshot gives every record that went into it back, whatever the store held by then.
pub proof fn lemma_pull_restores(s: DbState, rows: Seq<SnapshotRow>, since: Option<u64>, at: int)
    requires
        rows_distinct(rows),
        forall|i: int| 0 <= i < rows.len() ==> in_snapshots((#[trigger] rows[i]).cf),
        0 <= at < rows.len(),
        is_included(rows[at], since),
    ensures
        value_in(entries_applied(s, entries_of(rows, since)), rows[at].cf, rows[at].key@) == Some(
            rows[at].value@,
        ),
{
    lemma_last_value_of_row(rows, since, at);
    lemma_applied_value(s, entries_of(rows, since), rows[at].cf, rows[at].key@);
}

/// Checks that the pointer to the latest snapshot is the one that the caller expects.
pub fn check_pointer(have: u64, expected: Option<u64>) -> (r: Result<(), ApiError>)
    ensures
        match expected {
            Some(e) if e != have => r matches Err(err) && err.says(
                409,
                "pointer CAS mismatch: have "@ + dec_digits(have as nat) + ", expected "@ + dec_digits(
                    e as nat,
                ),
            ),
            _ => r is Ok,
        },
{
    if let Some(e) = expected {
        if e != have {
            let mut m: Vec<char> = Vec::new();
            push_text(&mut m, "pointer CAS mismatch: have ");
            push_decimal(&mut m, have);
            push_text(&mut m, ", expected ");
            push_decimal(&mut m, e);
            assert(m@ =~= "pointer CAS mismatch: have "@ + dec_digits(have as nat) + ", expected "@
                + dec_digits(e as nat));
            return Err(ApiError { status: 409, message: string_of(&m) });
        }
    }
    Ok(())
}

/// The provider to push to: the first of those that promise compare-and-swap. Where providers are
/// registered but none makes that promise, the push is refused.
pub fn push_target(strong: &Vec<ProviderId>, any_registered: bool) -> (r: Result<
    Option<ProviderId>,
    ApiError,
>)
    ensures
        if strong@.len() > 0 {
            r == Ok::<Option<ProviderId>, ApiError>(Some(strong@[0]))
        } else if any_registered {
            r matches Err(e) && e.says(
                400,
                "snapshot push refused: no vault provider declares OptimisticCas or stronger; EventualOnly backends cannot host the snapshot pointer (Layer 3)"@,
            )
        } else {
            r == Ok::<Option<ProviderId>, ApiError>(None)
        },
{
    if strong.len() > 0 {
        return Ok(Some(strong[0]));
    }
    if any_registered {
        return Err(
            ApiError::bad(
                "snapshot push refused: no vault provider declares OptimisticCas or stronger; EventualOnly backends cannot host the snapshot pointer (Layer 3)",
            ),
        );
    }
    Ok(None)
}

/// How an upload went.
#[derive(Clone, Copy, PartialEq, Eq, Structural, Debug)]
pub enum Upload {
    /// There was no provider, or it failed.
    Failed,
    /// The provider took the object, and did not answer a look at it.
    Stored,
    /// The provider took the object, and answered a look at it with this.
    Seen { exists: bool, size: u64 },
}

/// Whether an upload counts. One that the provider then denies, or shows in another size, is
/// refused, and the pointer stays where it is.
pub fn upload_verdict(upload: Upload, blob_len: u64) -> (r: Result<bool, ApiError>)
    ensures
        match upload {
            Upload::Failed => r == Ok::<bool, ApiError>(false),
            Upload::Stored => r == Ok::<bool, ApiError>(true),
            Upload::Seen { exists, size } => if exists && size == blob_len {
                r == Ok::<bool, ApiError>(true)
            } else {
                r matches Err(e) && e.says(400, "verify-after-upload mismatch; pointer not advanced"@)
            },
        },
{
    match upload {
        Upload::Failed => Ok(false),
        Upload::Stored => Ok(true),
        Upload::Seen { exists, size } => if exists && size == blob_len {
            Ok(true)
        } else {
            Err(ApiError::bad("verify-after-upload mismatch; pointer not advanced"))
        },
    }
}

/// Moves the pointer to a new snapshot, which its nonce names.
pub fn advance_pointer(pointer: &mut SignedSnapshotPointer, blob: &[u8])
    requires
        blob@.len() >= 12,
        old(pointer).version_counter.0 < u64::MAX,
    ensures
        final(pointer).version_counter.0 == old(pointer).version_counter.0 + 1,
        final(pointer).snapshot_id@ == blob@.take(12),
        final(pointer).created_at.0@ == "now"@,
        final(pointer).epoch_id == old(pointer).epoch_id,
        final(pointer).format_version == old(pointer).format_version,
        final(pointer).signature == old(pointer).signature,
{
    pointer.version_counter = MonotonicCounter(pointer.version_counter.0 + 1);
    pointer.snapshot_id = slice_of(blob, 0, 12);
    assert(pointer.snapshot_id@ =~= blob@.take(12));
    pointer.created_at = Timestamp::from_string("now");
}

/// How far the log can be cut after a push: to its end, once the snapshot is at a provider.
pub fn truncate_through(pushed: bool, next_seq: u64) -> (r: Option<u64>)
    ensures
        r == (if pushed && next_seq > 0 {
            Some(next_seq)
        } else {
            None
        }),
{
    if pushed && next_seq > 0 {
        Some(next_seq)
    } else {
        None
    }
}

/// A full snapshot has an entry for every record, in order, with its place and its value.
pub proof fn lemma_full_snapshot_has_every_row(rows: Seq<SnapshotRow>)
    ensures
        entries_of(rows, None).len() == rows.len(),
        forall|i: int|
            #![trigger entries_of(rows, None)[i]]
            0 <= i < rows.len() ==> entries_of(rows, None)[i] == (
                rows[i].cf.label() + seq!['/'] + hex_text(rows[i].key@),
                rows[i].value@,
            ),
    decreases rows.len(),
{
    if rows.len() > 0 {
        lemma_full_snapshot_has_every_row(rows.drop_last());
        let head = entries_of(rows.drop_last(), None);
        let all = entries_of(rows, None);
        assert forall|i: int| #![trigger all[i]] 0 <= i < rows.len() implies all[i] == (
            rows[i].cf.label() + seq!['/'] + hex_text(rows[i].key@),
            rows[i].value@,
        ) by {
            if i < rows.len() - 1 {
                assert(all[i] == head[i]);
                assert(rows.drop_last()[i] == rows[i]);
            }
        }
    }
}

/// A delta leaves a record out only where it is a file whose clock is known and not after the
/// delta's; every other record goes in behind those before it.
pub proof fn lemma_delta_leaves_only_old_files(rows: Seq<SnapshotRow>, row: SnapshotRow, since: u64)
    ensures
        entries_of(rows.push(row), Some(since)) == (if row.cf == ColumnFamily::Files && row.clock is Some
            && row.clock.unwrap() <= since {
            entries_of(rows, Some(since))
        } else {
            entries_of(rows, Some(since)).push(
                (row.cf.label() + seq!['/'] + hex_text(row.key@), row.value@),
            )
        }),
{
    assert(rows.push(row).drop_last() =~= rows);
}

/// The families that snapshots cover.
pub proof fn lemma_snapshots_cover(cf: ColumnFamily)
    ensures
        in_snapshots(cf) <==> cf == ColumnFamily::Files || cf == ColumnFamily::Chunks || cf
            == ColumnFamily::Shards || cf == ColumnFamily::Shadows || cf == ColumnFamily::Providers || cf
            == ColumnFamily::Identity || cf == ColumnFamily::Peers || cf == ColumnFamily::Shares || cf
            == ColumnFamily::Devices,
{
}

/// A full snapshot of distinct records gives every one of them back when it is pulled, whatever the
/// store held by then, and counts them all; and a key that no record has keeps what it had.
pub proof fn lemma_full_pull_restores(s: DbState, rows: Seq<SnapshotRow>)
    requires
        rows_distinct(rows),
        forall|i: int| 0 <= i < rows.len() ==> in_snapshots((#[trigger] rows[i]).cf),
    ensures
        forall|i: int|
            0 <= i < rows.len() ==> value_in(
                entries_applied(s, entries_of(rows, None)),
                (#[trigger] rows[i]).cf,
                rows[i].key@,
            ) == Some(rows[i].value@),
        placed(entries_of(rows, None)) == rows.len(),
        forall|cf: ColumnFamily, key: Seq<u8>|
            (forall|i: int| 0 <= i < rows.len() ==> (#[trigger] rows[i]).cf != cf || rows[i].key@ != key)
                ==> #[trigger] value_in(entries_applied(s, entries_of(rows, None)), cf, key)
                == value_in(s, cf, key),
{
    assert forall|i: int| 0 <= i < rows.len() implies value_in(
        entries_applied(s, entries_of(rows, None)),
        (#[trigger] rows[i]).cf,
        rows[i].key@,
    ) == Some(rows[i].value@) by {
        lemma_pull_restores(s, rows, None, i);
    }
    lemma_full_snapshot_placed(rows);
    assert forall|cf: ColumnFamily, key: Seq<u8>|
        (forall|i: int| 0 <= i < rows.len() ==> (#[trigger] rows[i]).cf != cf || rows[i].key@ != key)
            implies #[trigger] value_in(entries_applied(s, entries_of(rows, None)), cf, key)
        == value_in(s, cf, key) by {
        lemma_no_row_no_value(rows, cf, key);
        lemma_applied_value(s, entries_of(rows, None), cf, key);
    }
}

proof fn lemma_full_snapshot_placed(rows: Seq<SnapshotRow>)
    requires
        forall|i: int| 0 <= i < rows.len() ==> in_snapshots((#[trigger] rows[i]).cf),
    ensures
        placed(entries_of(rows, None)) == rows.len(),
    decreases rows.len(),
{
    if rows.len() > 0 {
        let head = rows.drop_last();
        assert forall|i: int| 0 <= i < head.len() implies in_snapshots((#[trigger] head[i]).cf) by {
            assert(head[i] == rows[i]);
        }
        lemma_full_snapshot_placed(head);
        assert(in_snapshots(rows[rows.len() - 1].cf));
        lemma_entry_name_place(rows.last().cf, rows.last().key@);
        assert(entries_of(rows, None).drop_last() =~= entries_of(head, None));
    }
}

proof fn lemma_no_row_no_value(rows: Seq<SnapshotRow>, cf: ColumnFamily, key: Seq<u8>)
    requires
        forall|i: int| 0 <= i < rows.len() ==> in_snapshots((#[trigger] rows[i]).cf),
        forall|i: int| 0 <= i < rows.len() ==> (#[trigger] rows[i]).cf != cf || rows[i].key@ != key,
    ensures
        last_value(entries_of(rows, None), cf, key) is None,
    decreases rows.len(),
{
    if rows.len() > 0 {
        let head = rows.drop_last();
        assert forall|i: int| 0 <= i < head.len() implies in_snapshots((#[trigger] head[i]).cf) && (
        head[i].cf != cf || head[i].key@ != key) by {
            assert(head[i] == rows[i]);
        }
        lemma_no_row_no_value(head, cf, key);
        let last = rows[rows.len() - 1];
        assert(in_snapshots(last.cf));
        lemma_entry_name_place(last.cf, last.key@);
        assert(entries_of(rows, None).drop_last() =~= entries_of(head, None));
    }
}

/// A snapshot is sealed for one vault: the words that it is sealed over differ from those of every
/// other vault.
pub proof fn lemma_snapshots_of_vaults_apart(v: VaultId, w: VaultId)
    requires
        snapshot_aad(v) == snapshot_aad(w),
    ensures
        v == w,
{
    let (a, b) = ("snapshot:"@ + uuid_text(v.0), "snapshot:"@ + uuid_text(w.0));
    encode_utf8_decode_utf8(a);
    encode_utf8_decode_utf8(b);
    let n = "snapshot:"@.len() as int;
    assert(a.skip(n) =~= uuid_text(v.0));
    assert(b.skip(n) =~= uuid_text(w.0));
    crate::types::lemma_uuid_texts_apart(v.0, w.0);
}

/// Applying a snapshot counts the entries that have a place, and those are all that change: what no
/// entry names stays, and what entries name holds the value of the last of them.
pub proof fn lemma_applied_exactly(
    s: DbState,
    entries: Seq<(Seq<char>, Seq<u8>)>,
    cf: ColumnFamily,
    key: Seq<u8>,
    at: int,
)
    requires
        s.contains_key(cf),
        -1 <= at < entries.len(),
        at >= 0 ==> entry_place(entries[at].0) == Some((cf, key)),
        forall|i: int|
            at < i < entries.len() ==> entry_place((#[trigger] entries[i]).0) != Some((cf, key)),
    ensures
        at == -1 ==> value_in(entries_applied(s, entries), cf, key) == value_in(s, cf, key),
        at >= 0 ==> value_in(entries_applied(s, entries), cf, key) == Some(entries[at].1),
        entries_applied(s, entries).contains_key(cf),
    decreases entries.len(),
{
    if entries.len() > 0 {
        let head = entries.drop_last();
        let last = entries[entries.len() - 1];
        if at == entries.len() - 1 {
            lemma_applied_keeps_families(s, head, cf);
        } else {
            assert forall|i: int| at < i < head.len() implies entry_place((#[trigger] head[i]).0)
                != Some((cf, key)) by {
                assert(head[i] == entries[i]);
            }
            if at >= 0 {
                assert(head[at] == entries[at]);
            }
            lemma_applied_exactly(s, head, cf, key, at);
            assert(entry_place(last.0) != Some((cf, key)));
        }
    }
}

proof fn lemma_applied_keeps_families(
    s: DbState,
    entries: Seq<(Seq<char>, Seq<u8>)>,
    cf: ColumnFamily,
)
    requires
        s.contains_key(cf),
    ensures
        entries_applied(s, entries).contains_key(cf),
    decreases entries.len(),
{
    if entries.len() > 0 {
        lemma_applied_keeps_families(s, entries.drop_last(), cf);
    }
}

/// Where every entry has a place, all are counted.
pub proof fn lemma_placed_counts(entries: Seq<(Seq<char>, Seq<u8>)>)
    ensures
        placed(entries) == entries.filter(
            |e: (Seq<char>, Seq<u8>)| entry_place(e.0) is Some,
        ).len(),
    decreases entries.len(),
{
    reveal(Seq::filter);
    if entries.len() > 0 {
        lemma_placed_counts(entries.drop_last());
    }
}

/// Entries are told by their names and their values, each in its place.
pub proof fn lemma_entries_told(entries: Seq<Entry>, i: int)
    requires
        0 <= i < entries.len(),
    ensures
        entry_views(entries).len() == entries.len(),
        entry_views(entries)[i] == (entries[i].0@, entries[i].1@),
{
}

} // verus!
