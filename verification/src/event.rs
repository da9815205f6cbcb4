//! Audit records and the event stream.
use vstd::prelude::*;
use crate::broker::decide::DenyReason;
use crate::codec;
use crate::decimal::{decimal_i64, decimal_u32};
use crate::keyslot::Factor;

verus! {

/// How an audited operation ended.
#[derive(Clone, Copy, Debug, PartialEq, Eq, Structural)]
pub enum AuditOutcome {
    Succeeded,
    Failed,
    Refused,
}

/// Why an operation failed or was refused.
#[derive(Clone, Copy, Debug, PartialEq, Eq, Structural)]
pub enum Reason {
    HeaderMac,
    DekGeneration,
    AuditChain,
    NotFound,
    BrokerOnly,
    ApplyNotSet,
    KeyDeviceAbsent,
    RevokeDryRun,
    VaultLocked,
    FloorUnreadable,
    KeyUnavailable,
    StoreFailed,
    MitmLeaf,
}

impl Reason {
    /// The words that stand for the reason.
    pub open spec fn words(self) -> Seq<char> {
        match self {
            Reason::HeaderMac => "header_mac"@,
            Reason::DekGeneration => "dek_generation"@,
            Reason::AuditChain => "audit_chain"@,
            Reason::NotFound => "not_found"@,
            Reason::BrokerOnly => "reveal refused: secret is broker-only"@,
            Reason::ApplyNotSet => "reveal refused: apply not set (dry-run)"@,
            Reason::KeyDeviceAbsent => "mint refused: key device absent"@,
            Reason::RevokeDryRun => "revoke refused: apply not set (dry-run)"@,
            Reason::VaultLocked => "vault_locked"@,
            Reason::FloorUnreadable => "issuance_floor"@,
            Reason::KeyUnavailable => "key_unavailable"@,
            Reason::StoreFailed => "store_failed"@,
            Reason::MitmLeaf => "issue refused: usage is mitm_leaf"@,
        }
    }

    /// The words that stand for the reason.
    pub fn text(&self) -> (text: String)
        ensures
            text@ == self.words(),
    {
        match self {
            Reason::HeaderMac => "header_mac".to_owned(),
            Reason::DekGeneration => "dek_generation".to_owned(),
            Reason::AuditChain => "audit_chain".to_owned(),
            Reason::NotFound => "not_found".to_owned(),
            Reason::BrokerOnly => "reveal refused: secret is broker-only".to_owned(),
            Reason::ApplyNotSet => "reveal refused: apply not set (dry-run)".to_owned(),
            Reason::KeyDeviceAbsent => "mint refused: key device absent".to_owned(),
            Reason::RevokeDryRun => "revoke refused: apply not set (dry-run)".to_owned(),
            Reason::VaultLocked => "vault_locked".to_owned(),
            Reason::FloorUnreadable => "issuance_floor".to_owned(),
            Reason::KeyUnavailable => "key_unavailable".to_owned(),
            Reason::StoreFailed => "store_failed".to_owned(),
            Reason::MitmLeaf => "issue refused: usage is mitm_leaf".to_owned(),
        }
    }

    /// The number that stands for the reason.
    pub open spec fn code(self) -> u8 {
        match self {
            Reason::HeaderMac => 1,
            Reason::DekGeneration => 2,
            Reason::AuditChain => 3,
            Reason::NotFound => 4,
            Reason::BrokerOnly => 5,
            Reason::ApplyNotSet => 6,
            Reason::KeyDeviceAbsent => 7,
            Reason::RevokeDryRun => 8,
            Reason::VaultLocked => 9,
            Reason::FloorUnreadable => 10,
            Reason::KeyUnavailable => 11,
            Reason::StoreFailed => 12,
            Reason::MitmLeaf => 13,
        }
    }

    fn byte(self) -> (b: u8)
        ensures
            b == self.code(),
    {
        match self {
            Reason::HeaderMac => 1,
            Reason::DekGeneration => 2,
            Reason::AuditChain => 3,
            Reason::NotFound => 4,
            Reason::BrokerOnly => 5,
            Reason::ApplyNotSet => 6,
            Reason::KeyDeviceAbsent => 7,
            Reason::RevokeDryRun => 8,
            Reason::VaultLocked => 9,
            Reason::FloorUnreadable => 10,
            Reason::KeyUnavailable => 11,
            Reason::StoreFailed => 12,
            Reason::MitmLeaf => 13,
        }
    }
}

/// The name of a factor.
pub open spec fn factor_name(factor: Factor) -> Seq<char> {
    match factor {
        Factor::Usb => "usb"@,
        Factor::Passphrase => "passphrase"@,
        Factor::RequireBoth => "require_both"@,
    }
}

/// The name of a factor.
pub fn factor_str(factor: Factor) -> (name: &'static str)
    ensures
        name@ == factor_name(factor),
{
    match factor {
        Factor::Usb => "usb",
        Factor::Passphrase => "passphrase",
        Factor::RequireBoth => "require_both",
    }
}

/// What an audit record says beyond its event type. It never holds key material.
#[derive(Clone, Copy, Debug, PartialEq, Eq, Structural)]
pub enum AuditDetail {
    Empty,
    Init { slots: u64, dek_generation: i64 },
    Unlocked { factor: Factor },
    Cause { reason: Reason },
    TamperedVersion { version: u32 },
    Written { version: u32 },
    Read { version: u32, revealed: bool },
    Minted { policy_id: i64, ttl_secs: i64 },
    Revoked { count: u32 },
    Relayed { policy_id: i64 },
    Denied { reason: DenyReason },
}

impl AuditDetail {
    /// The detail as a JSON object with sorted keys.
    pub open spec fn json_text(self) -> Seq<char> {
        match self {
            AuditDetail::Empty => "{}"@,
            AuditDetail::Init { slots, dek_generation } => "{\"dek_generation\":"@
                + crate::decimal::decimal_text(dek_generation as int) + (",\"slots\":"@
                + crate::decimal::decimal_text(slots as int) + "}"@),
            AuditDetail::Unlocked { factor } => "{\"factor\":\""@ + factor_name(factor) + "\"}"@,
            AuditDetail::Cause { reason } => "{\"reason\":\""@ + reason.words() + "\"}"@,
            AuditDetail::TamperedVersion { version } => "{\"reason\":\"tamper\",\"version\":"@
                + crate::decimal::decimal_text(version as int) + "}"@,
            AuditDetail::Written { version } => "{\"version\":"@ + crate::decimal::decimal_text(
                version as int,
            ) + "}"@,
            AuditDetail::Read { version, revealed } => (if revealed {
                "{\"revealed\":true,\"version\":"@
            } else {
                "{\"revealed\":false,\"version\":"@
            }) + crate::decimal::decimal_text(version as int) + "}"@,
            AuditDetail::Minted { policy_id, ttl_secs } => "{\"policy_id\":"@
                + crate::decimal::decimal_text(policy_id as int) + (",\"ttl_secs\":"@
                + crate::decimal::decimal_text(ttl_secs as int) + "}"@),
            AuditDetail::Revoked { count } => "{\"count\":"@ + crate::decimal::decimal_text(
                count as int,
            ) + "}"@,
            AuditDetail::Relayed { policy_id } => "{\"policy_id\":"@ + crate::decimal::decimal_text(
                policy_id as int,
            ) + "}"@,
            AuditDetail::Denied { reason } => "{\"reason\":\""@ + reason.words() + "\"}"@,
        }
    }

    /// The detail as a JSON object with sorted keys.
    pub fn json(&self) -> (text: String)
        ensures
            text@ == self.json_text(),
    {
        match *self {
            AuditDetail::Empty => "{}".to_owned(),
            AuditDetail::Init { slots, dek_generation } => {
                let tail: String = ",\"slots\":".to_owned().concat(
                    crate::decimal::decimal_u64(slots).as_str(),
                ).concat("}");
                "{\"dek_generation\":".to_owned().concat(
                    decimal_i64(dek_generation).as_str(),
                ).concat(tail.as_str())
            },
            AuditDetail::Unlocked { factor } => "{\"factor\":\"".to_owned().concat(
                factor_str(factor),
            ).concat("\"}"),
            AuditDetail::Cause { reason } => "{\"reason\":\"".to_owned().concat(
                reason.text().as_str(),
            ).concat("\"}"),
            AuditDetail::TamperedVersion { version } =>
                "{\"reason\":\"tamper\",\"version\":".to_owned().concat(
                decimal_u32(version).as_str(),
            ).concat("}"),
            AuditDetail::Written { version } => "{\"version\":".to_owned().concat(
                decimal_u32(version).as_str(),
            ).concat("}"),
            AuditDetail::Read { version, revealed } => {
                let head: &str = if revealed {
                    "{\"revealed\":true,\"version\":"
                } else {
                    "{\"revealed\":false,\"version\":"
                };
                head.to_owned().concat(decimal_u32(version).as_str()).concat("}")
            },
            AuditDetail::Minted { policy_id, ttl_secs } => {
                let tail: String = ",\"ttl_secs\":".to_owned().concat(
                    decimal_i64(ttl_secs).as_str(),
                ).concat("}");
                "{\"policy_id\":".to_owned().concat(decimal_i64(policy_id).as_str()).concat(
                    tail.as_str(),
                )
            },
            AuditDetail::Revoked { count } => "{\"count\":".to_owned().concat(
                decimal_u32(count).as_str(),
            ).concat("}"),
            AuditDetail::Relayed { policy_id } => "{\"policy_id\":".to_owned().concat(
                decimal_i64(policy_id).as_str(),
            ).concat("}"),
            AuditDetail::Denied { reason } => "{\"reason\":\"".to_owned().concat(
                reason.text().as_str(),
            ).concat("\"}"),
        }
    }

    /// Canonical bytes of the detail: a tag and the fields that it announces.
    pub open spec fn bytes(self) -> Seq<u8> {
        match self {
            AuditDetail::Empty => seq![0u8],
            AuditDetail::Init { slots, dek_generation } => seq![1u8] + (codec::be64(slots)
                + codec::be_i64(dek_generation)),
            AuditDetail::Unlocked { factor } => seq![2u8, crate::keyslot::factor_code(factor)],
            AuditDetail::Cause { reason } => seq![3u8, reason.code()],
            AuditDetail::TamperedVersion { version } => seq![4u8] + codec::be32(version),
            AuditDetail::Written { version } => seq![5u8] + codec::be32(version),
            AuditDetail::Read { version, revealed } => seq![
                6u8,
                if revealed {
                    1u8
                } else {
                    0u8
                },
            ] + codec::be32(version),
            AuditDetail::Minted { policy_id, ttl_secs } => seq![7u8] + (codec::be_i64(policy_id)
                + codec::be_i64(ttl_secs)),
            AuditDetail::Revoked { count } => seq![8u8] + codec::be32(count),
            AuditDetail::Relayed { policy_id } => seq![9u8] + codec::be_i64(policy_id),
            AuditDetail::Denied { reason } => seq![10u8, reason.code()],
        }
    }

    /// Appends the canonical bytes of the detail.
    pub fn push_onto(&self, out: &mut Vec<u8>)
        ensures
            final(out)@ == old(out)@ + self.bytes(),
    {
        match *self {
            AuditDetail::Empty => {
                out.push(0u8);
            },
            AuditDetail::Init { slots, dek_generation } => {
                out.push(1u8);
                codec::push_be64(out, slots);
                codec::push_be_i64(out, dek_generation);
            },
            AuditDetail::Unlocked { factor } => {
                out.push(2u8);
                crate::keyslot::push_factor(out, factor);
            },
            AuditDetail::Cause { reason } => {
                out.push(3u8);
                out.push(reason.byte());
            },
            AuditDetail::TamperedVersion { version } => {
                out.push(4u8);
                codec::push_be32(out, version);
            },
            AuditDetail::Written { version } => {
                out.push(5u8);
                codec::push_be32(out, version);
            },
            AuditDetail::Read { version, revealed } => {
                out.push(6u8);
                out.push(
                    if revealed {
                        1u8
                    } else {
                        0u8
                    },
                );
                codec::push_be32(out, version);
            },
            AuditDetail::Minted { policy_id, ttl_secs } => {
                out.push(7u8);
                codec::push_be_i64(out, policy_id);
                codec::push_be_i64(out, ttl_secs);
            },
            AuditDetail::Revoked { count } => {
                out.push(8u8);
                codec::push_be32(out, count);
            },
            AuditDetail::Relayed { policy_id } => {
                out.push(9u8);
                codec::push_be_i64(out, policy_id);
            },
            AuditDetail::Denied { reason } => {
                out.push(10u8);
                out.push(reason.byte());
            },
        }
        assert(out@ =~= old(out)@ + self.bytes());
    }
}

/// One row of the audit log.
#[derive(Clone, Debug)]
pub struct AuditRecord {
    pub seq: i64,
    pub ts: String,
    pub actor_uid: Option<u32>,
    pub event_type: String,
    pub subject: Option<String>,
    pub detail: AuditDetail,
    pub outcome: AuditOutcome,
    pub prev_hash: Vec<u8>,
    pub row_hash: Vec<u8>,
}

/// What a row of the audit log holds.
#[verifier::ext_equal]
pub struct RowView {
    pub seq: i64,
    pub ts: Seq<char>,
    pub actor_uid: Option<u32>,
    pub event_type: Seq<char>,
    pub subject: Option<Seq<char>>,
    pub detail: AuditDetail,
    pub outcome: AuditOutcome,
    pub prev_hash: Seq<u8>,
    pub row_hash: Seq<u8>,
}

impl View for AuditRecord {
    type V = RowView;

    open spec fn view(&self) -> RowView {
        RowView {
            seq: self.seq,
            ts: self.ts@,
            actor_uid: self.actor_uid,
            event_type: self.event_type@,
            subject: codec::text_view(self.subject),
            detail: self.detail,
            outcome: self.outcome,
            prev_hash: self.prev_hash@,
            row_hash: self.row_hash@,
        }
    }
}

impl AuditRecord {
    /// Another record with the same contents.
    pub fn duplicate(&self) -> (copy: AuditRecord)
        ensures
            copy@ == self@,
    {
        AuditRecord {
            seq: self.seq,
            ts: self.ts.clone(),
            actor_uid: self.actor_uid,
            event_type: self.event_type.clone(),
            subject: codec::copy_optional_text(&self.subject),
            detail: self.detail,
            outcome: self.outcome,
            prev_hash: codec::copy_bytes(self.prev_hash.as_slice()),
            row_hash: codec::copy_bytes(self.row_hash.as_slice()),
        }
    }
}

/// What each of a list of records holds.
pub open spec fn row_views(rows: Seq<AuditRecord>) -> Seq<RowView> {
    rows.map_values(|r: AuditRecord| r@)
}

/// What the engine tells its front end while it works. The audit log, not this stream, is the
/// record that counts.
#[derive(Clone, Debug)]
pub enum SecretEvent {
    Audit(AuditRecord),
    VaultUnlocked { factor: Factor },
    VaultLocked,
    SecretWritten { name: String, version: u32 },
    SecretRead { name: String, by_uid: u32 },
    GuardRefused { subject: String, reason: String },
}

/// What an event says.
#[verifier::ext_equal]
pub enum EventView {
    Audit(RowView),
    VaultUnlocked { factor: Factor },
    VaultLocked,
    SecretWritten { name: Seq<char>, version: u32 },
    SecretRead { name: Seq<char>, by_uid: u32 },
    GuardRefused { subject: Seq<char>, reason: Seq<char> },
}

impl View for SecretEvent {
    type V = EventView;

    open spec fn view(&self) -> EventView {
        match self {
            SecretEvent::Audit(r) => EventView::Audit(r@),
            SecretEvent::VaultUnlocked { factor } => EventView::VaultUnlocked { factor: *factor },
            SecretEvent::VaultLocked => EventView::VaultLocked,
            SecretEvent::SecretWritten { name, version } => EventView::SecretWritten {
                name: name@,
                version: *version,
            },
            SecretEvent::SecretRead { name, by_uid } => EventView::SecretRead {
                name: name@,
                by_uid: *by_uid,
            },
            SecretEvent::GuardRefused { subject, reason } => EventView::GuardRefused {
                subject: subject@,
                reason: reason@,
            },
        }
    }
}

/// Collects the events of the operations that it is handed to, in order.
pub struct EventSink {
    pub events: Vec<SecretEvent>,
}

impl View for EventSink {
    type V = Seq<EventView>;

    open spec fn view(&self) -> Seq<EventView> {
        self.events@.map_values(|e: SecretEvent| e@)
    }
}

impl EventSink {
    /// A sink without events.
    pub fn new() -> (sink: EventSink)
        ensures
            sink@ == Seq::<EventView>::empty(),
    {
        let sink = EventSink { events: Vec::new() };
        assert(sink@ =~= Seq::<EventView>::empty());
        sink
    }

    /// Adds an event at the end.
    pub fn emit(&mut self, event: SecretEvent)
        ensures
            final(self)@ == old(self)@.push(event@),
    {
        self.events.push(event);
        assert(self@ =~= old(self)@.push(event@));
    }

    /// Hands the events out in the order of their arrival, and starts anew.
    pub fn drain(&mut self) -> (events: Vec<SecretEvent>)
        ensures
            events@ == old(self).events@,
            final(self)@ == Seq::<EventView>::empty(),
    {
        let mut events: Vec<SecretEvent> = Vec::new();
        events.append(&mut self.events);
        assert(events@ =~= old(self).events@);
        assert(self@ =~= Seq::<EventView>::empty());
        events
    }
}

} // verus!
