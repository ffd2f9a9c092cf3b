//! The metadata store: column families of byte strings, transactions over them, and the keys
//! under which records stand.

pub mod backend;
pub mod cf;
pub mod store;
pub mod table;

use vstd::prelude::*;

use crate::text::push_text;
use crate::text::string_of;

verus! {

/// Why a metadata operation failed.
#[derive(Clone, PartialEq, Eq, Debug)]
pub enum MetadataError {
    Backend(String),
    Serde(String),
    NotFound(&'static str, String),
    TxnConflict,
}

impl MetadataError {
    /// The error in words.
    pub open spec fn words(self) -> Seq<char> {
        match self {
            MetadataError::Backend(m) => "backend error: "@ + m@,
            MetadataError::Serde(m) => "serde: "@ + m@,
            MetadataError::NotFound(what, id) => "not found: "@ + what@ + "/"@ + id@,
            MetadataError::TxnConflict => "transaction conflict"@,
        }
    }

    /// The error in words.
    pub fn text(&self) -> (r: String)
        ensures
            r@ == self.words(),
    {
        let mut t: Vec<char> = Vec::new();
        match self {
            MetadataError::Backend(m) => {
                push_text(&mut t, "backend error: ");
                push_text(&mut t, m.as_str());
            },
            MetadataError::Serde(m) => {
                push_text(&mut t, "serde: ");
                push_text(&mut t, m.as_str());
            },
            MetadataError::NotFound(what, id) => {
                push_text(&mut t, "not found: ");
                push_text(&mut t, what);
                push_text(&mut t, "/");
                push_text(&mut t, id.as_str());
            },
            MetadataError::TxnConflict => {
                push_text(&mut t, "transaction conflict");
            },
        }
        assert(t@ =~= self.words());
        string_of(&t)
    }
}

} // verus!
