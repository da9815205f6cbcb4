//! What can go wrong in the engine and in a store.
use vstd::prelude::*;
use crate::decimal::{decimal_i64, decimal_u32};

verus! {

/// Whether the vault holds a live key.
#[derive(Clone, Copy, Debug, PartialEq, Eq, Structural)]
pub enum VaultState {
    Locked,
    Unlocked,
}

/// A failure of the persistence layer.
#[derive(Clone, Debug, PartialEq, Eq)]
pub enum StoreError {
    /// The row id was never handed out by the store.
    UnreservedRowId(i64),
    /// Another row already carries the row id.
    RowIdCollision(i64),
    /// The version is not above every version that the name already has.
    VersionNotMonotonic(u32),
    /// The store has no row id or sequence number left.
    Exhausted,
    /// The backend behind the store failed.
    Backend(String),
}

/// A failure of an engine operation.
#[derive(Clone, Debug, PartialEq, Eq)]
pub enum EngineError {
    /// The operation needs an unlocked vault.
    Locked,
    /// The presented factor opens no keyslot, or the vault header cannot be read.
    UnlockFailed,
    /// The keyslot set or the key generation is not the one that was authenticated.
    HeaderMacMismatch,
    /// The audit chain is broken at this sequence number; zero for a lost anchor.
    AuditChainBroken(i64),
    /// The store already holds a vault.
    AlreadyInitialized,
    /// Argon2 memory cost below the floor.
    Argon2MemoryBelowFloor { m_kib: u32, floor: u32 },
    /// Argon2 time cost below the floor.
    Argon2TimeBelowFloor { t_cost: u32, floor: u32 },
    /// A keyfile came without the partition that it lives on.
    UsbPartitionMissing,
    /// The store holds no key generation.
    DekGenerationMissing,
    /// The stored key generation is not an integer.
    DekGenerationInvalid,
    /// No secret has this name.
    UnknownSecret(String),
    /// The stored record does not authenticate.
    SecretTampered(String),
    /// A broker-only secret is never revealed.
    BrokerOnly(String),
    /// A reveal was asked for without `apply`.
    ApplyRequired(String),
    /// The name has no version number left.
    VersionsExhausted(String),
    /// The store kept the record under another row id than it was sealed for.
    RowIdDivergence { assigned: i64, sealed: i64 },
    /// The operation needs the key device.
    UsbRequired,
    /// Leaves for interception are not issued.
    MitmLeafRefused,
    /// No local certificate authority is loaded.
    NoCertificateAuthority,
    /// The broker has no policy number left.
    PoliciesExhausted,
    /// The operating system gave no random bytes.
    EntropyUnavailable,
    /// The store failed.
    Store(StoreError),
}

impl StoreError {
    /// The message for people.
    pub open spec fn text(self) -> Seq<char> {
        match self {
            StoreError::UnreservedRowId(id) => "row_id "@ + crate::decimal::decimal_text(id as int)
                + " was never reserved"@,
            StoreError::RowIdCollision(id) => "row_id "@ + crate::decimal::decimal_text(id as int)
                + " is already taken"@,
            StoreError::VersionNotMonotonic(v) => "version "@ + crate::decimal::decimal_text(
                v as int,
            ) + " is not above the stored versions"@,
            StoreError::Exhausted => "store is exhausted"@,
            StoreError::Backend(m) => "store failed: "@ + m@,
        }
    }

    /// The message for people.
    pub fn message(&self) -> (m: String)
        ensures
            m@ == self.text(),
    {
        match self {
            StoreError::UnreservedRowId(id) => surround(
                "row_id ",
                decimal_i64(*id).as_str(),
                " was never reserved",
            ),
            StoreError::RowIdCollision(id) => surround(
                "row_id ",
                decimal_i64(*id).as_str(),
                " is already taken",
            ),
            StoreError::VersionNotMonotonic(v) => surround(
                "version ",
                decimal_u32(*v).as_str(),
                " is not above the stored versions",
            ),
            StoreError::Exhausted => "store is exhausted".to_owned(),
            StoreError::Backend(m) => join("store failed: ", m.as_str()),
        }
    }
}

impl EngineError {
    /// The message for people.
    pub open spec fn text(self) -> Seq<char> {
        match self {
            EngineError::Locked => "vault is locked"@,
            EngineError::UnlockFailed => "unlock failed"@,
            EngineError::HeaderMacMismatch => "vault header MAC mismatch"@,
            EngineError::AuditChainBroken(seq) => "audit chain broken at seq "@
                + crate::decimal::decimal_text(seq as int),
            EngineError::AlreadyInitialized => "vault already initialized (refusing to overwrite)"@,
            EngineError::Argon2MemoryBelowFloor { m_kib, floor } => "argon2 m_kib "@
                + crate::decimal::decimal_text(m_kib as int) + (" is below the "@
                + crate::decimal::decimal_text(floor as int) + " KiB floor"@),
            EngineError::Argon2TimeBelowFloor { t_cost, floor } => "argon2 t_cost "@
                + crate::decimal::decimal_text(t_cost as int) + (" is below the "@
                + crate::decimal::decimal_text(floor as int) + " iteration floor"@),
            EngineError::UsbPartitionMissing =>
                "usb keyfile provided without a usb_partition_uuid"@,
            EngineError::DekGenerationMissing => "dek_generation missing"@,
            EngineError::DekGenerationInvalid => "dek_generation is not a valid integer"@,
            EngineError::UnknownSecret(name) => "unknown secret '"@ + name@ + "'"@,
            EngineError::SecretTampered(name) => "secret '"@ + name@
                + "' failed authentication (tampered or corrupt)"@,
            EngineError::BrokerOnly(name) => "reveal refused: '"@ + name@ + "' is broker-only"@,
            EngineError::ApplyRequired(name) => "reveal refused: '"@ + name@
                + "' requires --apply"@,
            EngineError::VersionsExhausted(name) => "secret '"@ + name@ + "' has no version left"@,
            EngineError::RowIdDivergence { assigned, sealed } => "store assigned row_id "@
                + crate::decimal::decimal_text(assigned as int)
                + (" but the ciphertext was sealed against "@ + crate::decimal::decimal_text(
                sealed as int,
            )),
            EngineError::UsbRequired => "the key device is required"@,
            EngineError::MitmLeafRefused => "issue refused: usage is mitm_leaf"@,
            EngineError::NoCertificateAuthority => "no local certificate authority is loaded"@,
            EngineError::PoliciesExhausted => "no relay policy number is left"@,
            EngineError::EntropyUnavailable => "the operating system gave no random bytes"@,
            EngineError::Store(e) => e.text(),
        }
    }

    /// The message for people.
    pub fn message(&self) -> (m: String)
        ensures
            m@ == self.text(),
    {
        match self {
            EngineError::Locked => "vault is locked".to_owned(),
            EngineError::UnlockFailed => "unlock failed".to_owned(),
            EngineError::HeaderMacMismatch => "vault header MAC mismatch".to_owned(),
            EngineError::AuditChainBroken(seq) => join(
                "audit chain broken at seq ",
                decimal_i64(*seq).as_str(),
            ),
            EngineError::AlreadyInitialized =>
                "vault already initialized (refusing to overwrite)".to_owned(),
            EngineError::Argon2MemoryBelowFloor { m_kib, floor } => surround(
                "argon2 m_kib ",
                decimal_u32(*m_kib).as_str(),
                surround(" is below the ", decimal_u32(*floor).as_str(), " KiB floor").as_str(),
            ),
            EngineError::Argon2TimeBelowFloor { t_cost, floor } => surround(
                "argon2 t_cost ",
                decimal_u32(*t_cost).as_str(),
                surround(
                    " is below the ",
                    decimal_u32(*floor).as_str(),
                    " iteration floor",
                ).as_str(),
            ),
            EngineError::UsbPartitionMissing =>
                "usb keyfile provided without a usb_partition_uuid".to_owned(),
            EngineError::DekGenerationMissing => "dek_generation missing".to_owned(),
            EngineError::DekGenerationInvalid => "dek_generation is not a valid integer".to_owned(),
            EngineError::UnknownSecret(name) => surround("unknown secret '", name.as_str(), "'"),
            EngineError::SecretTampered(name) => surround(
                "secret '",
                name.as_str(),
                "' failed authentication (tampered or corrupt)",
            ),
            EngineError::BrokerOnly(name) => surround(
                "reveal refused: '",
                name.as_str(),
                "' is broker-only",
            ),
            EngineError::ApplyRequired(name) => surround(
                "reveal refused: '",
                name.as_str(),
                "' requires --apply",
            ),
            EngineError::VersionsExhausted(name) => surround(
                "secret '",
                name.as_str(),
                "' has no version left",
            ),
            EngineError::RowIdDivergence { assigned, sealed } => surround(
                "store assigned row_id ",
                decimal_i64(*assigned).as_str(),
                join(
                    " but the ciphertext was sealed against ",
                    decimal_i64(*sealed).as_str(),
                ).as_str(),
            ),
            EngineError::UsbRequired => "the key device is required".to_owned(),
            EngineError::MitmLeafRefused => "issue refused: usage is mitm_leaf".to_owned(),
            EngineError::NoCertificateAuthority =>
                "no local certificate authority is loaded".to_owned(),
            EngineError::PoliciesExhausted => "no relay policy number is left".to_owned(),
            EngineError::EntropyUnavailable =>
                "the operating system gave no random bytes".to_owned(),
            EngineError::Store(e) => e.message(),
        }
    }
}

fn join(head: &str, tail: &str) -> (text: String)
    ensures
        text@ == head@ + tail@,
{
    let text: String = head.to_owned();
    text.concat(tail)
}

fn surround(head: &str, middle: &str, tail: &str) -> (text: String)
    ensures
        text@ == head@ + middle@ + tail@,
{
    let text: String = head.to_owned();
    text.concat(middle).concat(tail)
}

} // verus!
