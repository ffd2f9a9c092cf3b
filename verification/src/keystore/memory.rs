//! A keystore in memory.

use vstd::prelude::*;
use vstd::utf8::*;

use super::Keystore;
use super::KeystoreError;
use super::Secret;
use super::Secrets;
use crate::byte_map::ByteMap;
use crate::bytes::to_vec;

verus! {

/// A keystore that forgets everything when it is dropped.
pub struct MemoryKeystore {
    kept: ByteMap<Secret>,
}

impl MemoryKeystore {
    /// A keystore that holds nothing.
    pub fn new() -> (r: Self)
        ensures
            r.wf(),
            r.secrets() == Secrets::empty(),
    {
        let r = MemoryKeystore { kept: ByteMap::new() };
        assert(r.secrets() =~= Secrets::empty());
        r
    }
}

impl Default for MemoryKeystore {
    fn default() -> (r: Self)
        ensures
            r.wf(),
            r.secrets() == Secrets::empty(),
    {
        MemoryKeystore::new()
    }
}

impl Keystore for MemoryKeystore {
    closed spec fn secrets(&self) -> Secrets {
        self.kept.contents().map_values(|s: Secret| s@)
    }

    closed spec fn wf(&self) -> bool {
        self.kept.wf()
    }

    open spec fn reliable(&self) -> bool {
        true
    }

    open spec fn fails_with(&self, e: KeystoreError) -> bool {
        e is NotFound
    }

    fn store(&mut self, key_id: &str, secret: &Secret) -> (r: Result<(), KeystoreError>) {
        let ghost before = self.secrets();
        self.kept.insert(to_vec(key_id.as_bytes()), *secret);
        assert(self.secrets() =~= before.insert(encode_utf8(key_id@), secret@));
        Ok(())
    }

    fn load(&self, key_id: &str) -> (r: Result<Secret, KeystoreError>) {
        match self.kept.get(key_id.as_bytes()) {
            Some(s) => Ok(*s),
            None => Err(KeystoreError::NotFound(key_id.to_owned())),
        }
    }

    fn delete(&mut self, key_id: &str) -> (r: Result<(), KeystoreError>) {
        let ghost before = self.secrets();
        self.kept.remove(key_id.as_bytes());
        assert(self.secrets() =~= before.remove(encode_utf8(key_id@)));
        Ok(())
    }
}

} // verus!
