//! How secrets are written in the keyring of the operating system.

use vstd::prelude::*;
use vstd::utf8::*;

use super::KeystoreError;
use super::Secret;
use crate::bytes::to_array32;
use crate::text::chars_of;
use crate::text::hex_decode_chars;
use crate::text::hex_decoded;
use crate::text::hex_encode;
use crate::text::hex_text;
use crate::text::lemma_hex_round_trip;
use crate::text::string_of;

verus! {

/// A keystore in the keyring of the operating system. The secrets stand there as hexadecimal text,
/// each under the service's name and its own.
#[derive(Clone, PartialEq, Eq, Debug)]
pub struct SystemKeystore {
    pub service: String,
}

impl SystemKeystore {
    /// A keystore under the usual service name.
    pub fn new() -> (r: Self)
        ensures
            r.service@ == "openstorage"@,
    {
        SystemKeystore { service: "openstorage".to_owned() }
    }

    /// A keystore under another service name.
    pub fn with_service(s: &str) -> (r: Self)
        ensures
            r.service@ == s@,
    {
        SystemKeystore { service: s.to_owned() }
    }
}

impl Default for SystemKeystore {
    fn default() -> (r: Self)
        ensures
            r.service@ == "openstorage"@,
    {
        SystemKeystore::new()
    }
}

/// What the keyring said to a request.
#[derive(Clone, PartialEq, Eq, Debug)]
pub enum KeyringReply<T> {
    Done(T),
    NoEntry,
    Failed(String),
}

/// The text of a secret.
pub fn secret_text(secret: &Secret) -> (r: String)
    ensures
        r@ == hex_text(secret@),
{
    string_of(&hex_encode(secret))
}

/// The secret that a text stands for.
pub open spec fn secret_of(text: Seq<char>) -> Option<Seq<u8>> {
    match hex_decoded(text) {
        Some(b) => if b.len() == 32 {
            Some(b)
        } else {
            None
        },
        None => None,
    }
}

/// The outcome of asking the keyring to keep a secret.
pub fn store_outcome(reply: KeyringReply<()>) -> (r: Result<(), KeystoreError>)
    ensures
        match reply {
            KeyringReply::Done(_) => r is Ok,
            KeyringReply::NoEntry => r matches Err(KeystoreError::Platform(m)) && m@
                == "No matching entry found in secure storage"@,
            KeyringReply::Failed(m) => r == Err::<(), KeystoreError>(KeystoreError::Platform(m)),
        },
{
    match reply {
        KeyringReply::Done(_) => Ok(()),
        KeyringReply::NoEntry => Err(
            KeystoreError::Platform("No matching entry found in secure storage".to_owned()),
        ),
        KeyringReply::Failed(m) => Err(KeystoreError::Platform(m)),
    }
}

/// The outcome of asking the keyring for the text of a secret.
pub fn load_outcome(key_id: &str, reply: KeyringReply<String>) -> (r: Result<Secret, KeystoreError>)
    ensures
        match reply {
            KeyringReply::Done(text) => match secret_of(text@) {
                Some(s) => r matches Ok(got) && got@ == s,
                None => {
                    let got = match hex_decoded(text@) {
                        Some(b) => b.len() as usize,
                        None => (encode_utf8(text@).len() / 2) as usize,
                    };
                    r == Err::<Secret, KeystoreError>(KeystoreError::Length { expected: 32, got })
                },
            },
            KeyringReply::NoEntry => r matches Err(KeystoreError::NotFound(n)) && n@ == key_id@,
            KeyringReply::Failed(m) => r == Err::<Secret, KeystoreError>(KeystoreError::Platform(m)),
        },
{
    match reply {
        KeyringReply::Done(text) => match hex_decode_chars(&chars_of(text.as_str())) {
            Some(b) => if b.len() == 32 {
                Ok(to_array32(&b))
            } else {
                Err(KeystoreError::Length { expected: 32, got: b.len() })
            },
            None => {
                let bytes: usize = text.as_str().as_bytes().len();
                Err(KeystoreError::Length { expected: 32, got: bytes / 2 })
            },
        },
        KeyringReply::NoEntry => Err(KeystoreError::NotFound(key_id.to_owned())),
        KeyringReply::Failed(m) => Err(KeystoreError::Platform(m)),
    }
}

/// The outcome of asking the keyring to forget a secret: that there was none is no error.
pub fn delete_outcome(reply: KeyringReply<()>) -> (r: Result<(), KeystoreError>)
    ensures
        match reply {
            KeyringReply::Done(_) => r is Ok,
            KeyringReply::NoEntry => r is Ok,
            KeyringReply::Failed(m) => r == Err::<(), KeystoreError>(KeystoreError::Platform(m)),
        },
{
    match reply {
        KeyringReply::Done(_) => Ok(()),
        KeyringReply::NoEntry => Ok(()),
        KeyringReply::Failed(m) => Err(KeystoreError::Platform(m)),
    }
}

/// The text of a secret is read back as that secret.
pub proof fn lemma_secret_text_round_trip(secret: Seq<u8>)
    requires
        secret.len() == 32,
    ensures
        secret_of(hex_text(secret)) == Some(secret),
{
    lemma_hex_round_trip(secret);
}

/// Only the text of 32 bytes is read as a secret.
pub proof fn lemma_only_whole_secrets_read(text: Seq<char>)
    ensures
        secret_of(text) matches Some(b) ==> b.len() == 32 && text.len() == 64 && hex_decoded(text)
            == Some(b),
        text.len() != 64 ==> secret_of(text) is None,
{
}

} // verus!
