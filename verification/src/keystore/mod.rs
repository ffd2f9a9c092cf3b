//! Where secrets are kept on a device.

pub mod binding;
pub mod memory;
pub mod system;

use vstd::prelude::*;
use vstd::utf8::*;

pub use self::memory::MemoryKeystore;
pub use self::system::SystemKeystore;

verus! {

/// Why a keystore did not answer.
#[derive(Clone, PartialEq, Eq, Debug)]
pub enum KeystoreError {
    NotFound(String),
    Platform(String),
    Length { expected: usize, got: usize },
}

/// A secret.
pub type Secret = [u8; 32];

/// What a keystore holds: secrets by the bytes of their names.
pub type Secrets = Map<Seq<u8>, Seq<u8>>;

/// A keeper of secrets.
pub trait Keystore: Sized {
    /// What is kept.
    spec fn secrets(&self) -> Secrets;

    /// Whether the keystore's own order is intact.
    spec fn wf(&self) -> bool;

    /// Whether the keystore never fails of itself.
    spec fn reliable(&self) -> bool;

    /// Whether the keystore, as it is, may fail with this error.
    spec fn fails_with(&self, e: KeystoreError) -> bool;

    /// Keeps a secret under a name.
    fn store(&mut self, key_id: &str, secret: &Secret) -> (r: Result<(), KeystoreError>)
        requires
            old(self).wf(),
        ensures
            final(self).wf(),
            final(self).reliable() == old(self).reliable(),
            old(self).reliable() ==> r is Ok,
            r matches Err(e) ==> old(self).fails_with(e),
            r is Ok ==> final(self).secrets() == old(self).secrets().insert(
                encode_utf8(key_id@),
                secret@,
            ),
    ;

    /// Reads the secret under a name.
    fn load(&self, key_id: &str) -> (r: Result<Secret, KeystoreError>)
        requires
            self.wf(),
        ensures
            r matches Ok(s) ==> self.secrets().contains_key(encode_utf8(key_id@))
                && self.secrets()[encode_utf8(key_id@)] == s@,
            r matches Err(KeystoreError::NotFound(n)) ==> n@ == key_id@
                && !self.secrets().contains_key(encode_utf8(key_id@)),
            r matches Err(e) ==> self.fails_with(e),
            self.reliable() ==> (r is Ok || r matches Err(KeystoreError::NotFound(_))),
    ;

    /// Forgets the secret under a name; that there is none is no error.
    fn delete(&mut self, key_id: &str) -> (r: Result<(), KeystoreError>)
        requires
            old(self).wf(),
        ensures
            final(self).wf(),
            final(self).reliable() == old(self).reliable(),
            old(self).reliable() ==> r is Ok,
            r matches Err(e) ==> old(self).fails_with(e),
            r is Ok ==> final(self).secrets() == old(self).secrets().remove(encode_utf8(key_id@)),
    ;
}

} // verus!
