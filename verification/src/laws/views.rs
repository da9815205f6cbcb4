//! What is said of a value is said of every one of its fields.
use vstd::prelude::*;
use crate::seam::{Clock, Timestamp, UsbProbe};
use crate::seam;
use crate::engine::unlock;
use crate::codec;
use crate::broker::decide::{CanonRequest, VerifiedBearer};
use crate::broker::ledger::{BearerRow, Broker};
use crate::broker::policy::RelayPolicy;
use crate::engine::init::Material;
use crate::engine::relay;
use crate::engine::relay::EgressReq;
use crate::engine::SecretMeta;
use crate::event::{AuditRecord, EventSink, EventView, SecretEvent};
use crate::keyslot::{Dek, Kek, Keyslot};
use crate::vault::store::SecretRow;
use crate::vault::Vault;

verus! {

/// What a policy is said to hold is what is in its fields.
pub proof fn law_policy_view_is_its_fields(a: RelayPolicy)
    ensures
        a@.id == a.id,
        a@.relay_id == a.relay_id@,
        a@.secret_name == a.secret_name@,
        a@.enabled == a.enabled,
        a@.revoked == a.revoked,
        a@.expires_at_ms == a.expires_at_ms,
        a@.hosts.len() == a.hosts@.len(),
        forall|i: int| 0 <= i < a.hosts@.len() ==> #[trigger] a@.hosts[i] == a.hosts@[i]@,
        a@.path_prefixes.len() == a.path_prefixes@.len(),
        forall|i: int|
            0 <= i < a.path_prefixes@.len() ==> #[trigger] a@.path_prefixes[i]
                == a.path_prefixes@[i]@,
        a@.methods == a.methods@,
        a@.upstreams.len() == a.upstreams@.len(),
        forall|i: int|
            0 <= i < a.upstreams@.len() ==> #[trigger] a@.upstreams[i] == a.upstreams@[i]@,
        a@.max_requests == a.max_requests,
        a@.used_requests == a.used_requests,
        a@.max_bytes == a.max_bytes,
        a@.used_bytes == a.used_bytes,
        a@.rate == a.rate,
        a@.window_started_ms == a.window_started_ms,
        a@.window_requests == a.window_requests,
{
}

/// What is said to be kept of a bearer is what is in its fields.
pub proof fn law_bearer_view_is_its_fields(a: BearerRow)
    ensures
        a@.policy_id == a.policy_id,
        a@.token_id == a.token_id@,
        a@.mac == a.mac@,
        a@.issued_at_ms == a.issued_at_ms,
        a@.expires_at_ms == a.expires_at_ms,
        a@.client_uid == a.client_uid,
        a@.client_pid == a.client_pid,
        a@.revoked == a.revoked,
{
}

/// What a verified bearer is said to claim is what is in its fields.
pub proof fn law_claim_is_its_fields(a: VerifiedBearer)
    ensures
        a@.policy_id == a.policy_id,
        a@.token_id == a.token_id@,
        a@.issued_at_ms == a.issued_at_ms,
        a@.expires_at_ms == a.expires_at_ms,
        a@.client_uid == a.client_uid,
        a@.client_pid == a.client_pid,
        a@.revoked == a.revoked,
{
}

/// What the broker holds is each of its policies and bearers, in place.
pub proof fn law_broker_view_is_its_lists(a: Broker)
    ensures
        a@.policies.len() == a.policies@.len(),
        forall|i: int| 0 <= i < a.policies@.len() ==> #[trigger] a@.policies[i] == a.policies@[i]@,
        a@.bearers.len() == a.bearers@.len(),
        forall|i: int| 0 <= i < a.bearers@.len() ==> #[trigger] a@.bearers[i] == a.bearers@[i]@,
{
}

/// What a canonical request is said to ask for is what is in its fields.
pub proof fn law_request_view_is_its_fields(a: CanonRequest)
    ensures
        a@.method == a.method,
        a@.host == a.host@,
        a.sni is Some ==> a@.sni == Some(a.sni.unwrap()@),
        a.sni is None ==> a@.sni is None,
        a@.path == a.path@,
        a@.bytes_out == a.bytes_out,
        a@.peer_uid == a.peer_uid,
        a@.peer_pid == a.peer_pid,
{
}

/// The decision on a request is made on the fields of that request.
pub proof fn law_canonical_request_is_the_request(req: EgressReq)
    ensures
        ({
            let c = relay::canonical(req);
            &&& c.method == req.method
            &&& c.host == req.host@
            &&& c.sni is None
            &&& c.path == req.path@
            &&& c.bytes_out == req.bytes_out
            &&& c.peer_uid == req.peer_uid
            &&& c.peer_pid == req.peer_pid
        }),
{
}

/// What a stored version is said to hold is what is in its fields.
pub proof fn law_secret_view_is_its_fields(a: SecretRow)
    ensures
        a@.row_id == a.row_id,
        a@.name == a.name@,
        a@.version == a.version,
        a@.provider == a.provider,
        a@.note == a.note@,
        a@.broker_only == a.broker_only,
        a@.dek_generation == a.dek_generation,
        a@.nonce == a.nonce@,
        a@.ct_tag == a.ct_tag@,
        a@.created_ts == a.created_ts@,
{
}

/// What is known of a secret is what is in its fields.
pub proof fn law_meta_view_is_its_fields(a: SecretMeta)
    ensures
        a@.name == a.name@,
        a@.provider == a.provider,
        a@.note == a.note@,
        a@.broker_only == a.broker_only,
{
}

/// What a keyslot is said to hold is what is in its fields.
pub proof fn law_slot_view_is_its_fields(a: Keyslot)
    ensures
        a@.id == a.id,
        a@.factor == a.factor,
        a@.label == a.label@,
        a@.kdf == a.kdf,
        a@.salt == a.salt@,
        a.usb_partition_uuid is Some ==> a@.usb_partition_uuid == Some(
            a.usb_partition_uuid.unwrap()@,
        ),
        a.usb_partition_uuid is None ==> a@.usb_partition_uuid is None,
        a@.wrap_nonce == a.wrap_nonce@,
        a@.wrapped_dek == a.wrapped_dek@,
        a@.dek_generation == a.dek_generation,
        a@.enabled == a.enabled,
{
}

/// What an audit row is said to hold is what is in its fields.
pub proof fn law_row_view_is_its_fields(a: AuditRecord)
    ensures
        a@.seq == a.seq,
        a@.ts == a.ts@,
        a@.actor_uid == a.actor_uid,
        a@.event_type == a.event_type@,
        a.subject is Some ==> a@.subject == Some(a.subject.unwrap()@),
        a.subject is None ==> a@.subject is None,
        a@.detail == a.detail,
        a@.outcome == a.outcome,
        a@.prev_hash == a.prev_hash@,
        a@.row_hash == a.row_hash@,
{
}

/// Events are told with what they carry, in the order in which they were emitted.
pub proof fn law_event_views_are_their_fields(sink: EventSink)
    ensures
        sink@.len() == sink.events@.len(),
        forall|i: int| 0 <= i < sink@.len() ==> match sink.events@[i] {
            SecretEvent::Audit(r) => #[trigger] sink@[i] == EventView::Audit(r@),
            SecretEvent::VaultUnlocked { factor } => sink@[i] == (EventView::VaultUnlocked {
                factor,
            }),
            SecretEvent::VaultLocked => sink@[i] == EventView::VaultLocked,
            SecretEvent::SecretWritten { name, version } => sink@[i] == (
            EventView::SecretWritten { name: name@, version }),
            SecretEvent::SecretRead { name, by_uid } => sink@[i] == (EventView::SecretRead {
                name: name@,
                by_uid,
            }),
            SecretEvent::GuardRefused { subject, reason } => sink@[i] == (
            EventView::GuardRefused { subject: subject@, reason: reason@ }),
        },
{
}

/// Keys are their 32 bytes, an open vault is its live key, and a locked one has none.
pub proof fn law_keys_are_their_bytes(dek: Dek, kek: Kek, vault: Vault)
    ensures
        dek@ == dek.0@,
        kek@ == kek.0@,
        vault matches Vault::Unlocked { dek: live } ==> vault@ == Some(live.0@),
        vault is Locked ==> vault@ is None,
{
}

/// What a new vault is made of is what is in the fields.
pub proof fn law_material_view_is_its_fields(a: Material)
    ensures
        a@.dek == a.dek.0@,
        a@.passphrase_salt == a.passphrase_salt@,
        a@.passphrase_nonce == a.passphrase_nonce@,
        a.usb matches Some((salt, nonce)) ==> a@.usb == Some((salt@, nonce@)),
        a.usb is None ==> a@.usb is None,
{
}

/// A text or a number is the time that a clock told exactly where some answer of the clock has it.
pub proof fn law_times_are_what_the_clock_told<C: Clock>(clock: &C, ts: Seq<char>, ms: i64)
    ensures
        seam::dated(clock, ts) <==> exists|t: Timestamp| #[trigger]
            call_ensures(C::now, (clock,), t) && t.rfc3339@ == ts,
        seam::timed(clock, ms) <==> exists|t: Timestamp| #[trigger]
            call_ensures(C::now, (clock,), t) && t.ms == ms,
{
    if exists|t: Timestamp| #[trigger] call_ensures(C::now, (clock,), t) && t.rfc3339@ == ts {
        let t = choose|t: Timestamp| #[trigger]
            call_ensures(C::now, (clock,), t) && t.rfc3339@ == ts;
        assert(seam::told(clock, t));
    }
    if exists|t: Timestamp| #[trigger] call_ensures(C::now, (clock,), t) && t.ms == ms {
        let t = choose|t: Timestamp| #[trigger] call_ensures(C::now, (clock,), t) && t.ms == ms;
        assert(seam::told(clock, t));
    }
    if seam::dated(clock, ts) {
        let t = choose|t: Timestamp| #[trigger] seam::told(clock, t) && t.rfc3339@ == ts;
        assert(call_ensures(C::now, (clock,), t));
    }
    if seam::timed(clock, ms) {
        let t = choose|t: Timestamp| #[trigger] seam::told(clock, t) && t.ms == ms;
        assert(call_ensures(C::now, (clock,), t));
    }
}

/// An answer is that of the probe for a partition exactly where the probe, asked for that very
/// partition, gave it as a whole.
pub proof fn law_answers_are_what_the_probe_gave<U: UsbProbe>(
    usb: &U,
    uuid: Seq<char>,
    answer: Option<Seq<u8>>,
)
    ensures
        unlock::answered(usb, uuid, answer) <==> exists|text: &str, reply: Option<Vec<u8>>|
            {
                &&& #[trigger] call_ensures(U::keyfile_for, (usb, text), reply)
                &&& text@ == uuid
                &&& answer is Some == reply is Some
                &&& reply matches Some(keyfile) ==> keyfile@ == answer.unwrap()
            },
{
    if unlock::answered(usb, uuid, answer) {
        let (text, reply) = choose|text: &str, reply: Option<Vec<u8>>| #[trigger]
            call_ensures(U::keyfile_for, (usb, text), reply) && text@ == uuid
                && codec::bytes_view(reply) == answer;
        assert(call_ensures(U::keyfile_for, (usb, text), reply));
    }
    if exists|text: &str, reply: Option<Vec<u8>>|
        {
            &&& #[trigger] call_ensures(U::keyfile_for, (usb, text), reply)
            &&& text@ == uuid
            &&& answer is Some == reply is Some
            &&& reply matches Some(keyfile) ==> keyfile@ == answer.unwrap()
        } {
        let (text, reply) = choose|text: &str, reply: Option<Vec<u8>>|
            {
                &&& #[trigger] call_ensures(U::keyfile_for, (usb, text), reply)
                &&& text@ == uuid
                &&& answer is Some == reply is Some
                &&& reply matches Some(keyfile) ==> keyfile@ == answer.unwrap()
            };
        assert(codec::bytes_view(reply) == answer);
    }
}

} // verus!
