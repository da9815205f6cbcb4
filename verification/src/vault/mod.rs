//! The vault: a locked or unlocked state over an encrypted-at-rest store. The data key lives in
//! memory only while the vault is unlocked; locking wipes it.
use vstd::prelude::*;
use crate::keyslot::Dek;

pub mod aad;
pub mod audit;
pub mod crypto;
pub mod mem;
pub mod store;

pub use mem::InMemStore;
pub use store::{SecretRow, Store};

verus! {

/// The state of the vault. While unlocked it holds the live data key.
pub enum Vault {
    Locked,
    Unlocked { dek: Dek },
}

impl View for Vault {
    type V = Option<Seq<u8>>;

    open spec fn view(&self) -> Option<Seq<u8>> {
        match self {
            Vault::Locked => None,
            Vault::Unlocked { dek } => Some(dek@),
        }
    }
}

impl Vault {
    /// Whether the vault holds a live data key.
    pub fn is_unlocked(&self) -> (unlocked: bool)
        ensures
            unlocked == (self@ is Some),
    {
        match self {
            Vault::Locked => false,
            Vault::Unlocked { .. } => true,
        }
    }

    /// The live data key.
    pub fn dek(&self) -> (dek: Option<&Dek>)
        ensures
            match dek {
                Some(d) => self@ == Some(d@),
                None => self@ is None,
            },
    {
        match self {
            Vault::Locked => None,
            Vault::Unlocked { dek } => Some(dek),
        }
    }

    /// Locks the vault. The live data key is dropped, which wipes it.
    pub fn lock(&mut self)
        ensures
            final(self)@ is None,
    {
        *self = Vault::Locked;
    }
}

} // verus!
