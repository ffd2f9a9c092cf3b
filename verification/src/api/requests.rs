//! What the remaining routes decide: how requests are read, and what failures are answered.

use vstd::prelude::*;
use vstd::utf8::*;

use super::ApiError;
use crate::bytes::bytes_eq;
use crate::bytes::to_array32;
use crate::crypto::hash::blake3_32;
use crate::crypto::hash::blake3_digest;
use crate::crypto::SymKey;
use crate::entities::records::File;
use crate::metadata::store::find_file_by_path;
use crate::repair::RepairSource;
use crate::repair::RepairTask;
use crate::text::chars_of;
use crate::text::chars_suffix;
use crate::text::hex_decode_chars;
use crate::text::hex_decoded;
use crate::text::joined;
use crate::text::str_eq;
use crate::types::ChunkHash;
use crate::types::Ed25519Priv;
use crate::types::IdentityId;

verus! {

/// The source of a repair, by its name.
pub open spec fn source_named(s: Seq<char>) -> Option<RepairSource> {
    if s == "read_repair"@ {
        Some(RepairSource::ReadRepair)
    } else if s == "scrub"@ {
        Some(RepairSource::Scrub)
    } else if s == "anti_entropy"@ {
        Some(RepairSource::AntiEntropy)
    } else if s == "gc_sweep"@ {
        Some(RepairSource::GcSweep)
    } else if s == "rebalance"@ {
        Some(RepairSource::Rebalance)
    } else {
        None
    }
}

fn parse_source(s: &str) -> (r: Option<RepairSource>)
    ensures
        r == source_named(s@),
{
    if str_eq(s, "read_repair") {
        Some(RepairSource::ReadRepair)
    } else if str_eq(s, "scrub") {
        Some(RepairSource::Scrub)
    } else if str_eq(s, "anti_entropy") {
        Some(RepairSource::AntiEntropy)
    } else if str_eq(s, "gc_sweep") {
        Some(RepairSource::GcSweep)
    } else if str_eq(s, "rebalance") {
        Some(RepairSource::Rebalance)
    } else {
        None
    }
}

/// The source that a request names; scrubbing where it names none.
pub open spec fn source_text(source: Option<String>) -> Seq<char> {
    match source {
        Some(s) => s@,
        None => "scrub"@,
    }
}

/// Reads a request to repair a chunk. Without a priority it is one, and without a source it is
/// scrubbing.
pub fn parse_repair_request(chunk_hash_hex: &str, priority: Option<u32>, source: Option<String>) -> (r:
    Result<RepairTask, ApiError>)
    ensures
        match hex_decoded(chunk_hash_hex@) {
            None => r matches Err(e) && e.says(400, "bad hex"@),
            Some(b) => if b.len() != 32 {
                r matches Err(e) && e.says(400, "chunk_hash must be 32 bytes hex"@)
            } else {
                match source_named(source_text(source)) {
                    None => r matches Err(e) && e.says(
                        400,
                        "unknown source "@ + source_text(source),
                    ),
                    Some(src) => r matches Ok(t) && t.chunk_hash.0@ == b && t.source == src
                        && t.attempt == 0 && t.priority == (match priority {
                        Some(p) => p,
                        None => 1,
                    }),
                }
            },
        },
{
    let bytes = match hex_decode_chars(&chars_of(chunk_hash_hex)) {
        Some(b) => b,
        None => {
            return Err(ApiError::bad("bad hex"));
        },
    };
    if bytes.len() != 32 {
        return Err(ApiError::bad("chunk_hash must be 32 bytes hex"));
    }
    let name: String = match source {
        Some(s) => s,
        None => "scrub".to_owned(),
    };
    match parse_source(name.as_str()) {
        Some(src) => Ok(
            RepairTask {
                chunk_hash: ChunkHash(to_array32(&bytes)),
                priority: match priority {
                    Some(p) => p,
                    None => 1,
                },
                source: src,
                attempt: 0,
            },
        ),
        None => Err(ApiError::bad(joined("unknown source ", name.as_str()).as_str())),
    }
}

/// The task that collects a chunk of a deleted file.
pub open spec fn collect_task(h: ChunkHash) -> RepairTask {
    RepairTask { chunk_hash: h, priority: 5, source: RepairSource::GcSweep, attempt: 0 }
}

/// The first of some files at a path, or their number where there is none.
pub open spec fn file_index(files: Seq<File>, path: Seq<char>) -> int
    decreases files.len(),
{
    if files.len() == 0 || files[0].path.value@ == path {
        0
    } else {
        1 + file_index(files.drop_first(), path)
    }
}

proof fn lemma_file_index(files: Seq<File>, path: Seq<char>, at: int)
    requires
        0 <= at <= files.len(),
        forall|j: int| 0 <= j < at ==> (#[trigger] files[j]).path.value@ != path,
        at < files.len() ==> files[at].path.value@ == path,
    ensures
        file_index(files, path) == at,
    decreases files.len(),
{
    if files.len() > 0 && files[0].path.value@ != path {
        assert forall|j: int| 0 <= j < at - 1 implies (
        #[trigger] files.drop_first()[j]).path.value@ != path by {
            assert(files.drop_first()[j] == files[j + 1]);
        }
        lemma_file_index(files.drop_first(), path, at - 1);
    }
}

/// The tasks that collect the chunks of the first file at a path.
pub open spec fn collect_tasks(files: Seq<File>, path: Seq<char>) -> Seq<RepairTask> {
    let at = file_index(files, path);
    if at < files.len() && files[at].chunk_list is Some {
        files[at].chunk_list.unwrap()@.map_values(|h: ChunkHash| collect_task(h))
    } else {
        Seq::empty()
    }
}

/// The tasks that collect the chunks of a file that is to be deleted.
pub fn deletion_tasks(files: &Vec<File>, path: &str) -> (r: Vec<RepairTask>)
    ensures
        r@ == collect_tasks(files@, path@),
{
    let mut out: Vec<RepairTask> = Vec::new();
    let found: Option<usize> = find_file_by_path(files, path);
    proof {
        lemma_file_index(
            files@,
            path@,
            match found {
                Some(i) => i as int,
                None => files@.len() as int,
            },
        );
    }
    if let Some(at) = found {
        if let Some(list) = &files[at].chunk_list {
            let mut i: usize = 0;
            while i < list.len()
                invariant
                    0 <= i <= list@.len(),
                    out@.len() == i,
                    forall|j: int| 0 <= j < i ==> #[trigger] out@[j] == collect_task(list@[j]),
                decreases list@.len() - i,
            {
                out.push(
                    RepairTask {
                        chunk_hash: list[i],
                        priority: 5,
                        source: RepairSource::GcSweep,
                        attempt: 0,
                    },
                );
                i = i + 1;
            }
            assert(out@ =~= list@.map_values(|h: ChunkHash| collect_task(h)));
        }
    }
    assert(out@ =~= collect_tasks(files@, path@));
    out
}

/// A vault is destroyed only where the request confirms it.
pub fn confirm_destroy(header: Option<&[u8]>) -> (r: Result<(), ApiError>)
    ensures
        if header is Some && header.unwrap()@ == encode_utf8("yes"@) {
            r is Ok
        } else {
            r matches Err(e) && e.says(400, "destroy requires header x-confirm-destroy: yes"@)
        },
{
    if let Some(h) = header {
        if bytes_eq(h, "yes".as_bytes()) {
            return Ok(());
        }
    }
    Err(ApiError::bad("destroy requires header x-confirm-destroy: yes"))
}

/// What the master key of a vault is wanted for.
#[derive(Clone, Copy, PartialEq, Eq, Structural, Debug)]
pub enum KeyUse {
    CreateShare,
    PushSnapshot,
    PullSnapshot,
    CompleteOAuth,
}

/// What a caller is answered who wants the master key of a locked vault.
pub open spec fn locked_answer(use_of: KeyUse) -> (u16, Seq<char>) {
    match use_of {
        KeyUse::CreateShare => (423, "create_share: vault locked"@),
        KeyUse::PushSnapshot => (400, "vault must be Unlocked"@),
        KeyUse::PullSnapshot => (423, "pull_snapshot: vault must be Unlocked"@),
        KeyUse::CompleteOAuth => (423, "oauth: vault must be Unlocked"@),
    }
}

/// The master key of a vault, or the answer where the vault is locked and there is none.
pub fn unlocked_key(key: Option<SymKey>, use_of: KeyUse) -> (r: Result<SymKey, ApiError>)
    ensures
        match key {
            Some(k) => r == Ok::<SymKey, ApiError>(k),
            None => r matches Err(e) && e.says(locked_answer(use_of).0, locked_answer(use_of).1),
        },
{
    match key {
        Some(k) => Ok(k),
        None => Err(
            match use_of {
                KeyUse::CreateShare => ApiError::locked("create_share: vault locked"),
                KeyUse::PushSnapshot => ApiError::bad("vault must be Unlocked"),
                KeyUse::PullSnapshot => ApiError::locked("pull_snapshot: vault must be Unlocked"),
                KeyUse::CompleteOAuth => ApiError::locked("oauth: vault must be Unlocked"),
            },
        ),
    }
}

/// What is done with a file.
#[derive(Clone, Copy, PartialEq, Eq, Structural, Debug)]
pub enum FileOp {
    Write,
    Read,
    Stat,
    Rename,
    Patch,
    PatchWrite,
    Delete,
    List,
}

/// Why the file system refused.
#[derive(Clone, Copy, PartialEq, Eq, Structural, Debug)]
pub enum FileFault {
    NotFound,
    VaultLocked,
    Other,
}

/// What a refusal of the file system is answered.
pub open spec fn file_answer(op: FileOp, fault: FileFault, why: Seq<char>) -> (u16, Seq<char>) {
    match op {
        FileOp::Write => (
            if fault == FileFault::VaultLocked {
                423
            } else {
                400
            },
            "write: "@ + why,
        ),
        FileOp::Read => (
            match fault {
                FileFault::NotFound => 404,
                FileFault::VaultLocked => 423,
                FileFault::Other => 400,
            },
            "read: "@ + why,
        ),
        FileOp::Stat => (404, "stat: "@ + why),
        FileOp::Rename => (
            match fault {
                FileFault::NotFound => 404,
                FileFault::VaultLocked => 423,
                FileFault::Other => 400,
            },
            "rename: "@ + why,
        ),
        FileOp::Patch => match fault {
            FileFault::NotFound => (404, "patch: file not found"@),
            FileFault::VaultLocked => (423, "patch: vault locked"@),
            FileFault::Other => (400, "patch: "@ + why),
        },
        FileOp::PatchWrite => (400, "patch: "@ + why),
        FileOp::Delete => (404, "delete: "@ + why),
        FileOp::List => (400, "list: "@ + why),
    }
}

/// What a refusal of the file system is answered. `why` is the error in words.
pub fn file_refused(op: FileOp, fault: FileFault, why: &str) -> (r: ApiError)
    ensures
        r.says(file_answer(op, fault, why@).0, file_answer(op, fault, why@).1),
{
    match op {
        FileOp::Write => {
            let text = joined("write: ", why);
            match fault {
                FileFault::VaultLocked => ApiError::locked(text.as_str()),
                _ => ApiError::bad(text.as_str()),
            }
        },
        FileOp::Read => {
            let text = joined("read: ", why);
            match fault {
                FileFault::NotFound => ApiError::not_found(text.as_str()),
                FileFault::VaultLocked => ApiError::locked(text.as_str()),
                FileFault::Other => ApiError::bad(text.as_str()),
            }
        },
        FileOp::Stat => ApiError::not_found(joined("stat: ", why).as_str()),
        FileOp::Rename => {
            let text = joined("rename: ", why);
            match fault {
                FileFault::NotFound => ApiError::not_found(text.as_str()),
                FileFault::VaultLocked => ApiError::locked(text.as_str()),
                FileFault::Other => ApiError::bad(text.as_str()),
            }
        },
        FileOp::Patch => match fault {
            FileFault::NotFound => ApiError::not_found("patch: file not found"),
            FileFault::VaultLocked => ApiError::locked("patch: vault locked"),
            FileFault::Other => ApiError::bad(joined("patch: ", why).as_str()),
        },
        FileOp::PatchWrite => ApiError::bad(joined("patch: ", why).as_str()),
        FileOp::Delete => ApiError::not_found(joined("delete: ", why).as_str()),
        FileOp::List => ApiError::bad(joined("list: ", why).as_str()),
    }
}

/// The key with which the route signs the next epoch of an identity. It is derived from the
/// identity's name, since signing keys are not kept.
pub fn rotation_key(id: &IdentityId) -> (r: Ed25519Priv)
    ensures
        r.0@ == blake3_digest(encode_utf8("vault-mk-mock-priv-"@ + id.0@)),
{
    let text = joined("vault-mk-mock-priv-", id.0.as_str());
    Ed25519Priv(blake3_32(text.as_str().as_bytes()).0)
}

/// How many providers answered.
#[derive(Clone, Copy, PartialEq, Eq, Structural, Debug)]
pub struct ReachTally {
    pub reachable: u32,
    pub unreachable: u32,
}

impl ReachTally {
    /// None asked yet.
    pub fn new() -> (r: Self)
        ensures
            r == (ReachTally { reachable: 0, unreachable: 0 }),
    {
        ReachTally { reachable: 0, unreachable: 0 }
    }

    /// Counts a provider: one whose plugin is loaded was asked, and whatever it said, it answered.
    pub fn observe(&mut self, loaded: bool)
        requires
            old(self).reachable + old(self).unreachable < u32::MAX,
        ensures
            *final(self) == (if loaded {
                ReachTally { reachable: (old(self).reachable + 1) as u32, ..*old(self) }
            } else {
                ReachTally { unreachable: (old(self).unreachable + 1) as u32, ..*old(self) }
            }),
    {
        if loaded {
            self.reachable = self.reachable + 1;
        } else {
            self.unreachable = self.unreachable + 1;
        }
    }
}

/// Deleting a file asks for the collection of each of its chunks, once for each place in its list
/// and in the list's order, and for nothing else: of the first file at the path, and of no other.
pub proof fn lemma_deletion_collects_chunks(files: Seq<File>, path: Seq<char>, at: int)
    requires
        0 <= at <= files.len(),
        forall|j: int| 0 <= j < at ==> (#[trigger] files[j]).path.value@ != path,
        at < files.len() ==> files[at].path.value@ == path,
    ensures
        at == files.len() || files[at].chunk_list is None ==> collect_tasks(files, path).len() == 0,
        at < files.len() && files[at].chunk_list is Some ==> collect_tasks(files, path).len()
            == files[at].chunk_list.unwrap()@.len(),
        at < files.len() && files[at].chunk_list is Some ==> forall|i: int|
            0 <= i < collect_tasks(files, path).len() ==> {
                let t = #[trigger] collect_tasks(files, path)[i];
                t.chunk_hash == files[at].chunk_list.unwrap()@[i] && t.source
                    == RepairSource::GcSweep && t.priority == 5 && t.attempt == 0
            },
{
    lemma_file_index(files, path, at);
}

/// The five names of a source, each for its own source; no other text names one.
pub proof fn lemma_sources_named(s: Seq<char>)
    ensures
        source_named("read_repair"@) == Some(RepairSource::ReadRepair),
        source_named("scrub"@) == Some(RepairSource::Scrub),
        source_named("anti_entropy"@) == Some(RepairSource::AntiEntropy),
        source_named("gc_sweep"@) == Some(RepairSource::GcSweep),
        source_named("rebalance"@) == Some(RepairSource::Rebalance),
        source_named(s) is Some ==> s == "read_repair"@ || s == "scrub"@ || s == "anti_entropy"@ || s
            == "gc_sweep"@ || s == "rebalance"@,
{
    reveal_strlit("read_repair");
    reveal_strlit("scrub");
    reveal_strlit("anti_entropy");
    reveal_strlit("gc_sweep");
    reveal_strlit("rebalance");
    let (a, b, c, d, e) = ("read_repair"@, "scrub"@, "anti_entropy"@, "gc_sweep"@, "rebalance"@);
    assert(a.len() == 11 && b.len() == 5 && c.len() == 12 && d.len() == 8 && e.len() == 9);
}

/// A locked vault is answered as locked by whatever needs its key, but for a push, which is a wrong
/// request.
pub proof fn lemma_locked_answers(use_of: KeyUse)
    ensures
        use_of == KeyUse::PushSnapshot ==> locked_answer(use_of).0 == 400,
        use_of != KeyUse::PushSnapshot ==> locked_answer(use_of).0 == 423,
{
}

/// What the file system refuses is answered by its reason: a locked vault as locked by what writes,
/// reads, renames or patches; a missing file as missing by what reads, renames or patches it; to
/// look at a file or delete it fails as missing, and to list or write back as a wrong request. The
/// reason's words are passed on, but for a patch whose reason the status tells.
pub proof fn lemma_file_answers(op: FileOp, fault: FileFault, why: Seq<char>)
    ensures
        op == FileOp::Stat || op == FileOp::Delete ==> file_answer(op, fault, why).0 == 404,
        op == FileOp::List || op == FileOp::PatchWrite ==> file_answer(op, fault, why).0 == 400,
        op == FileOp::Write ==> (file_answer(op, fault, why).0 == 423 <==> fault
            == FileFault::VaultLocked),
        op == FileOp::Read || op == FileOp::Rename || op == FileOp::Patch ==> (file_answer(
            op,
            fault,
            why,
        ).0 == 404 <==> fault == FileFault::NotFound) && (file_answer(op, fault, why).0 == 423 <==> fault
            == FileFault::VaultLocked) && (file_answer(op, fault, why).0 == 400 <==> fault
            == FileFault::Other),
        op != FileOp::Patch || fault == FileFault::Other ==> chars_suffix(
            file_answer(op, fault, why).1,
            why,
        ),
{
    let t = file_answer(op, fault, why).1;
    if op != FileOp::Patch || fault == FileFault::Other {
        let n = t.len() - why.len();
        assert(t.skip(n) =~= why);
    }
}

} // verus!
