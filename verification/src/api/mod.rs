//! What the HTTP surface decides. Each handler is a sequence of steps over stores and providers;
//! the decisions between the steps are here.

pub mod files;
pub mod lease_routes;
pub mod plugins;
pub mod repair_run;
pub mod requests;
pub mod shadow_sweep;
pub mod shares;
pub mod snapshot;
pub mod snapshot_push;
pub mod wal_exchange;

use vstd::prelude::*;

verus! {

/// A refusal, with its HTTP status.
#[derive(Clone, PartialEq, Eq, Debug)]
pub struct ApiError {
    pub status: u16,
    pub message: String,
}

impl ApiError {
    /// Whether this is the refusal with this status and text.
    pub open spec fn says(self, status: u16, message: Seq<char>) -> bool {
        self.status == status && self.message@ == message
    }

    /// The request is wrong.
    pub fn bad(message: &str) -> (r: Self)
        ensures
            r.says(400, message@),
    {
        ApiError { status: 400, message: message.to_owned() }
    }

    /// What was asked for is not there.
    pub fn not_found(message: &str) -> (r: Self)
        ensures
            r.says(404, message@),
    {
        ApiError { status: 404, message: message.to_owned() }
    }

    /// The caller has not shown who it is.
    pub fn unauth(message: &str) -> (r: Self)
        ensures
            r.says(401, message@),
    {
        ApiError { status: 401, message: message.to_owned() }
    }

    /// The vault is locked.
    pub fn locked(message: &str) -> (r: Self)
        ensures
            r.says(423, message@),
    {
        ApiError { status: 423, message: message.to_owned() }
    }

    /// Something else came first.
    pub fn conflict(message: &str) -> (r: Self)
        ensures
            r.says(409, message@),
    {
        ApiError { status: 409, message: message.to_owned() }
    }

    /// The lease is gone for good.
    pub fn lost(message: &str) -> (r: Self)
        ensures
            r.says(410, message@),
    {
        ApiError { status: 410, message: message.to_owned() }
    }
}

/// A refusal says a status and a text where it has both, and no other.
pub proof fn lemma_says_what_it_holds(e: ApiError, status: u16, message: Seq<char>)
    ensures
        e.says(status, message) ==> e.status == status && e.message@ == message,
        e.says(e.status, e.message@),
{
}

} // verus!
