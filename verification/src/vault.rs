//! The vault of a device: which one it is, in what state, and its master key while it is open.

use vstd::prelude::*;

use crate::crypto::SymKey;
use crate::types::VaultId;

verus! {

/// The states of a vault.
#[derive(Clone, Copy, PartialEq, Eq, Structural, Debug)]
pub enum VaultState {
    Uncreated,
    Locked,
    Unlocking,
    Unlocked,
    Locking,
    Destroying,
    Destroyed,
}

impl VaultState {
    /// The name of the state.
    pub open spec fn label(self) -> Seq<char> {
        match self {
            VaultState::Uncreated => "uncreated"@,
            VaultState::Locked => "locked"@,
            VaultState::Unlocking => "unlocking"@,
            VaultState::Unlocked => "unlocked"@,
            VaultState::Locking => "locking"@,
            VaultState::Destroying => "destroying"@,
            VaultState::Destroyed => "destroyed"@,
        }
    }

    /// The name of the state.
    pub fn as_str(&self) -> (r: &'static str)
        ensures
            r@ == self.label(),
    {
        match self {
            VaultState::Uncreated => "uncreated",
            VaultState::Locked => "locked",
            VaultState::Unlocking => "unlocking",
            VaultState::Unlocked => "unlocked",
            VaultState::Locking => "locking",
            VaultState::Destroying => "destroying",
            VaultState::Destroyed => "destroyed",
        }
    }
}

/// A step that the state does not allow.
#[derive(Clone, Copy, PartialEq, Eq, Structural, Debug)]
pub enum VaultError {
    WrongState(VaultState),
}

/// The vault of a device.
pub struct VaultManager {
    state: VaultState,
    vault_id: Option<VaultId>,
    mk: Option<SymKey>,
}

impl VaultManager {
    /// The state of the vault.
    pub closed spec fn stage(self) -> VaultState {
        self.state
    }

    /// Which vault it is, once there is one.
    pub closed spec fn id(self) -> Option<VaultId> {
        self.vault_id
    }

    /// The bytes of the master key, while it is in memory.
    pub closed spec fn key(self) -> Option<Seq<u8>> {
        match self.mk {
            Some(k) => Some(k.0@),
            None => None,
        }
    }

    /// The key is in memory exactly while the vault is unlocked, and then the vault is known.
    pub open spec fn wf(self) -> bool {
        &&& self.key() is Some <==> self.stage() == VaultState::Unlocked
        &&& self.stage() == VaultState::Unlocked ==> self.id() is Some
    }

    /// Whether the vault `id` is unlocked with a key.
    pub open spec fn open_with(self, id: VaultId, key: Seq<u8>) -> bool {
        self.stage() == VaultState::Unlocked && self.id() == Some(id) && self.key() == Some(key)
    }

    /// A device without a vault.
    pub fn new() -> (r: Self)
        ensures
            r.wf(),
            r.stage() == VaultState::Uncreated,
            r.id() is None,
    {
        VaultManager { state: VaultState::Uncreated, vault_id: None, mk: None }
    }

    /// The state of the vault.
    pub fn state(&self) -> (r: VaultState)
        ensures
            r == self.stage(),
    {
        self.state
    }

    /// Which vault it is, once there is one.
    pub fn vault_id(&self) -> (r: Option<VaultId>)
        ensures
            r == self.id(),
    {
        self.vault_id
    }

    /// The master key, while the vault is unlocked.
    pub fn master_key(&self) -> (r: Option<SymKey>)
        ensures
            match r {
                Some(k) => self.key() == Some(k.0@),
                None => self.key() is None,
            },
    {
        match &self.mk {
            Some(k) => Some(SymKey(k.0)),
            None => None,
        }
    }

    /// The vault is open, with its key in memory.
    pub fn set_unlocked(&mut self, vault_id: VaultId, mk: SymKey)
        ensures
            final(self).wf(),
            final(self).open_with(vault_id, mk.0@),
            final(self).stage() == VaultState::Unlocked,
            final(self).id() == Some(vault_id),
            final(self).key() == Some(mk.0@),
    {
        self.state = VaultState::Unlocked;
        self.vault_id = Some(vault_id);
        self.mk = Some(mk);
    }

    /// Closes an open vault and forgets its key.
    pub fn lock(&mut self) -> (r: Result<(), VaultError>)
        requires
            old(self).wf(),
        ensures
            final(self).wf(),
            if old(self).stage() == VaultState::Unlocked {
                r is Ok && final(self).stage() == VaultState::Locked && final(self).id() == old(
                    self,
                ).id() && final(self).key() is None
            } else {
                r == Err::<(), VaultError>(VaultError::WrongState(old(self).stage()))
                    && *final(self) == *old(self)
            },
    {
        if self.state != VaultState::Unlocked {
            return Err(VaultError::WrongState(self.state));
        }
        self.state = VaultState::Locked;
        self.mk = None;
        Ok(())
    }

    /// Puts another key in the place of an open vault's.
    pub fn replace_mk(&mut self, mk: SymKey) -> (r: Result<(), VaultError>)
        requires
            old(self).wf(),
        ensures
            final(self).wf(),
            final(self).stage() == old(self).stage(),
            final(self).id() == old(self).id(),
            if old(self).stage() == VaultState::Unlocked {
                r is Ok && final(self).key() == Some(mk.0@)
            } else {
                r == Err::<(), VaultError>(VaultError::WrongState(old(self).stage()))
                    && *final(self) == *old(self)
            },
    {
        if self.state != VaultState::Unlocked {
            return Err(VaultError::WrongState(self.state));
        }
        self.mk = Some(mk);
        Ok(())
    }

    /// Begins to destroy an open vault. Its key is forgotten at once.
    pub fn begin_destroying(&mut self) -> (r: Result<(), VaultError>)
        requires
            old(self).wf(),
        ensures
            final(self).wf(),
            final(self).id() == old(self).id(),
            if old(self).stage() == VaultState::Unlocked {
                r is Ok && final(self).stage() == VaultState::Destroying && final(self).key() is None
            } else {
                r == Err::<(), VaultError>(VaultError::WrongState(old(self).stage()))
                    && *final(self) == *old(self)
            },
    {
        if self.state != VaultState::Unlocked {
            return Err(VaultError::WrongState(self.state));
        }
        self.state = VaultState::Destroying;
        self.mk = None;
        Ok(())
    }

    /// The vault is no more.
    pub fn finish_destroying(&mut self) -> (r: Result<(), VaultError>)
        requires
            old(self).wf(),
        ensures
            final(self).wf(),
            final(self).id() == old(self).id(),
            if old(self).stage() == VaultState::Destroying {
                r is Ok && final(self).stage() == VaultState::Destroyed && final(self).key() is None
            } else {
                r == Err::<(), VaultError>(VaultError::WrongState(old(self).stage()))
                    && *final(self) == *old(self)
            },
    {
        if self.state != VaultState::Destroying {
            return Err(VaultError::WrongState(self.state));
        }
        self.state = VaultState::Destroyed;
        Ok(())
    }
}

/// Different states have different labels.
pub proof fn lemma_state_labels_apart(a: VaultState, b: VaultState)
    requires
        a.label() == b.label(),
    ensures
        a == b,
{
    reveal_strlit("uncreated");
    reveal_strlit("locked");
    reveal_strlit("unlocking");
    reveal_strlit("unlocked");
    reveal_strlit("locking");
    reveal_strlit("destroying");
    reveal_strlit("destroyed");
    let (s, t) = (a.label(), b.label());
    assert(s.len() == t.len() && s[0] == t[0] && s[s.len() - 1] == t[t.len() - 1] && s[2] == t[2]);
}

/// Only an open vault has a key, and every open vault has one and knows which vault it is.
pub proof fn lemma_key_only_while_open(v: VaultManager)
    requires
        v.wf(),
    ensures
        v.stage() == VaultState::Unlocked ==> v.key() is Some && v.id() is Some,
        v.stage() != VaultState::Unlocked ==> v.key() is None,
        forall|id: VaultId, key: Seq<u8>| #[trigger]
            v.open_with(id, key) ==> v.stage() == VaultState::Unlocked && v.id() == Some(id)
                && v.key() == Some(key),
{
}

} // verus!
