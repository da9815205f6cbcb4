//! What is told of an operation: words, messages, details and events.
use vstd::prelude::*;
use crate::broker::decide::DenyReason;
use crate::decimal;
use crate::engine::Engine;
use crate::engine::model;
use crate::error::{EngineError, StoreError};
use crate::event;
use crate::event::{AuditDetail, AuditOutcome, EventSink, EventView, Reason, SecretEvent};
use crate::health::StoreHealth;
use crate::keyslot::Factor;
use crate::laws;
use crate::seam::{Clock, UsbProbe};
use crate::vault::store::{Store, StoreCall};

verus! {

/// Whether a text has a part.
pub open spec fn holds(text: Seq<char>, part: Seq<char>) -> bool {
    exists|i: int|
        0 <= i && i + part.len() <= text.len() && #[trigger] text.subrange(i, i + part.len())
            == part
}

proof fn lemma_holds_middle(head: Seq<char>, part: Seq<char>, tail: Seq<char>)
    ensures
        holds(head + part + tail, part),
{
    let text = head + part + tail;
    let i = head.len() as int;
    assert(text.subrange(i, i + part.len()) =~= part);
}

proof fn lemma_holds_end(head: Seq<char>, part: Seq<char>)
    ensures
        holds(head + part, part),
{
    let text = head + part;
    let i = head.len() as int;
    assert(text.subrange(i, i + part.len()) =~= part);
}

proof fn lemma_holds_inside(head: Seq<char>, part: Seq<char>, more: Seq<char>, tail: Seq<char>)
    ensures
        holds(head + part + (more + tail), part),
        holds(head + part + (more + tail), more),
{
    lemma_holds_middle(head, part, more + tail);
    let text = head + part + (more + tail);
    let i = (head.len() + part.len()) as int;
    assert(text.subrange(i, i + more.len()) =~= more);
}

/// Two reasons that are told in the same words are the same reason.
pub proof fn law_words_tell_reasons_apart(
    a: &Reason,
    b: &Reason,
    text_a: String,
    text_b: String,
)
    requires
        call_ensures(Reason::text, (a,), text_a),
        call_ensures(Reason::text, (b,), text_b),
        text_a@ == text_b@,
    ensures
        *a == *b,
{
    reveal_strlit("header_mac");
    reveal_strlit("dek_generation");
    reveal_strlit("audit_chain");
    reveal_strlit("not_found");
    reveal_strlit("reveal refused: secret is broker-only");
    reveal_strlit("reveal refused: apply not set (dry-run)");
    reveal_strlit("mint refused: key device absent");
    reveal_strlit("revoke refused: apply not set (dry-run)");
    reveal_strlit("vault_locked");
    reveal_strlit("issuance_floor");
    reveal_strlit("key_unavailable");
    reveal_strlit("store_failed");
    reveal_strlit("issue refused: usage is mitm_leaf");
    assert("header_mac"@.len() == 10);
    assert("dek_generation"@.len() == 14 && "dek_generation"@[0] == 'd');
    assert("audit_chain"@.len() == 11);
    assert("not_found"@.len() == 9);
    assert("reveal refused: secret is broker-only"@.len() == 37);
    assert("reveal refused: apply not set (dry-run)"@.len() == 39);
    assert("reveal refused: apply not set (dry-run)"@[3] == 'e');
    assert("mint refused: key device absent"@.len() == 31);
    assert("revoke refused: apply not set (dry-run)"@.len() == 39);
    assert("revoke refused: apply not set (dry-run)"@[3] == 'o');
    assert("vault_locked"@.len() == 12 && "vault_locked"@[0] == 'v');
    assert("issuance_floor"@.len() == 14 && "issuance_floor"@[0] == 'i');
    assert("key_unavailable"@.len() == 15);
    assert("store_failed"@.len() == 12 && "store_failed"@[0] == 's');
    assert("issue refused: usage is mitm_leaf"@.len() == 33);
}

/// The words for a reason that is logged.
pub proof fn law_reason_is_told_in_these_words(reason: &Reason, text: String)
    requires
        call_ensures(Reason::text, (reason,), text),
    ensures
        match *reason {
            Reason::HeaderMac => text@ == "header_mac"@,
            Reason::DekGeneration => text@ == "dek_generation"@,
            Reason::AuditChain => text@ == "audit_chain"@,
            Reason::NotFound => text@ == "not_found"@,
            Reason::BrokerOnly => text@ == "reveal refused: secret is broker-only"@,
            Reason::ApplyNotSet => text@ == "reveal refused: apply not set (dry-run)"@,
            Reason::KeyDeviceAbsent => text@ == "mint refused: key device absent"@,
            Reason::RevokeDryRun => text@ == "revoke refused: apply not set (dry-run)"@,
            Reason::VaultLocked => text@ == "vault_locked"@,
            Reason::FloorUnreadable => text@ == "issuance_floor"@,
            Reason::KeyUnavailable => text@ == "key_unavailable"@,
            Reason::StoreFailed => text@ == "store_failed"@,
            Reason::MitmLeaf => text@ == "issue refused: usage is mitm_leaf"@,
        },
{
}

/// The words for an error that is about nothing but itself.
pub proof fn law_plain_error_is_told_in_these_words(e: &EngineError, m: String)
    requires
        call_ensures(EngineError::message, (e,), m),
    ensures
        match *e {
            EngineError::Locked => m@ == "vault is locked"@,
            EngineError::UnlockFailed => m@ == "unlock failed"@,
            EngineError::HeaderMacMismatch => m@ == "vault header MAC mismatch"@,
            EngineError::AlreadyInitialized => m@
                == "vault already initialized (refusing to overwrite)"@,
            EngineError::UsbPartitionMissing => m@
                == "usb keyfile provided without a usb_partition_uuid"@,
            EngineError::DekGenerationMissing => m@ == "dek_generation missing"@,
            EngineError::DekGenerationInvalid => m@ == "dek_generation is not a valid integer"@,
            EngineError::UsbRequired => m@ == "the key device is required"@,
            EngineError::MitmLeafRefused => m@ == "issue refused: usage is mitm_leaf"@,
            EngineError::NoCertificateAuthority => m@
                == "no local certificate authority is loaded"@,
            EngineError::PoliciesExhausted => m@ == "no relay policy number is left"@,
            EngineError::EntropyUnavailable => m@ == "the operating system gave no random bytes"@,
            _ => true,
        },
{
}

/// Two denials that are told in the same words have the same reason.
pub proof fn law_words_tell_denials_apart(
    a: &DenyReason,
    b: &DenyReason,
    text_a: String,
    text_b: String,
)
    requires
        call_ensures(DenyReason::text, (a,), text_a),
        call_ensures(DenyReason::text, (b,), text_b),
        text_a@ == text_b@,
    ensures
        *a == *b,
{
    reveal_strlit("unknown_bearer");
    reveal_strlit("disabled");
    reveal_strlit("revoked");
    reveal_strlit("bearer_revoked");
    reveal_strlit("bearer_expired");
    reveal_strlit("policy_expired");
    reveal_strlit("host_not_allowed");
    reveal_strlit("path_not_allowed");
    reveal_strlit("method_not_allowed");
    reveal_strlit("upstream_not_allowed");
    reveal_strlit("peer_mismatch");
    reveal_strlit("sni_host_mismatch");
    reveal_strlit("budget_requests");
    reveal_strlit("budget_bytes");
    reveal_strlit("rate_limited");
    reveal_strlit("gate_absent");
    reveal_strlit("clock_rollback");
    assert("unknown_bearer"@.len() == 14 && "unknown_bearer"@[0] == 'u');
    assert("disabled"@.len() == 8);
    assert("revoked"@.len() == 7);
    assert("bearer_revoked"@.len() == 14);
    assert("bearer_revoked"@[0] == 'b');
    assert("bearer_revoked"@[7] == 'r');
    assert("bearer_expired"@.len() == 14);
    assert("bearer_expired"@[0] == 'b');
    assert("bearer_expired"@[7] == 'e');
    assert("policy_expired"@.len() == 14 && "policy_expired"@[0] == 'p');
    assert("host_not_allowed"@.len() == 16 && "host_not_allowed"@[0] == 'h');
    assert("path_not_allowed"@.len() == 16 && "path_not_allowed"@[0] == 'p');
    assert("method_not_allowed"@.len() == 18);
    assert("upstream_not_allowed"@.len() == 20);
    assert("peer_mismatch"@.len() == 13);
    assert("sni_host_mismatch"@.len() == 17);
    assert("budget_requests"@.len() == 15);
    assert("budget_bytes"@.len() == 12 && "budget_bytes"@[0] == 'b');
    assert("rate_limited"@.len() == 12 && "rate_limited"@[0] == 'r');
    assert("gate_absent"@.len() == 11);
    assert("clock_rollback"@.len() == 14 && "clock_rollback"@[0] == 'c');
}

/// Two denials that have the same number have the same reason, and the number of a denial is its
/// place in the order of the checks.
pub proof fn law_numbers_tell_denials_apart(a: &DenyReason, b: &DenyReason, n: u8)
    requires
        call_ensures(DenyReason::byte, (a,), n),
        call_ensures(DenyReason::byte, (b,), n),
    ensures
        *a == *b,
        n == laws::decision::place(*a),
{
}

/// Two factors of the same name are the same factor.
pub proof fn law_names_tell_factors_apart(
    a: Factor,
    b: Factor,
    name_a: &'static str,
    name_b: &'static str,
)
    requires
        call_ensures(event::factor_str, (a,), name_a),
        call_ensures(event::factor_str, (b,), name_b),
        name_a@ == name_b@,
    ensures
        a == b,
{
    reveal_strlit("usb");
    reveal_strlit("passphrase");
    reveal_strlit("require_both");
    assert("usb"@.len() == 3);
    assert("passphrase"@.len() == 10);
    assert("require_both"@.len() == 12);
}

/// The message of a failed store has the whole number or the whole text that it is about.
pub proof fn law_store_message_has_what_it_is_about(e: &StoreError, m: String)
    requires
        call_ensures(StoreError::message, (e,), m),
    ensures
        match *e {
            StoreError::UnreservedRowId(id) => holds(m@, decimal::decimal_text(id as int)),
            StoreError::RowIdCollision(id) => holds(m@, decimal::decimal_text(id as int)),
            StoreError::VersionNotMonotonic(v) => holds(m@, decimal::decimal_text(v as int)),
            StoreError::Exhausted => m@ == "store is exhausted"@,
            StoreError::Backend(why) => holds(m@, why@),
        },
{
    match *e {
        StoreError::UnreservedRowId(id) => {
            lemma_holds_middle(
                "row_id "@,
                decimal::decimal_text(id as int),
                " was never reserved"@,
            );
        },
        StoreError::RowIdCollision(id) => {
            lemma_holds_middle(
                "row_id "@,
                decimal::decimal_text(id as int),
                " is already taken"@,
            );
        },
        StoreError::VersionNotMonotonic(v) => {
            lemma_holds_middle(
                "version "@,
                decimal::decimal_text(v as int),
                " is not above the stored versions"@,
            );
        },
        StoreError::Exhausted => {},
        StoreError::Backend(why) => {
            lemma_holds_end("store failed: "@, why@);
        },
    }
}

/// The message of a failed operation has the whole name and the numbers that it is about.
pub proof fn law_message_has_what_it_is_about(e: &EngineError, m: String)
    requires
        call_ensures(EngineError::message, (e,), m),
    ensures
        match *e {
            EngineError::AuditChainBroken(seq) => holds(m@, decimal::decimal_text(seq as int)),
            EngineError::Argon2MemoryBelowFloor { m_kib, floor } => holds(
                m@,
                decimal::decimal_text(m_kib as int),
            ) && holds(m@, decimal::decimal_text(floor as int)),
            EngineError::Argon2TimeBelowFloor { t_cost, floor } => holds(
                m@,
                decimal::decimal_text(t_cost as int),
            ) && holds(m@, decimal::decimal_text(floor as int)),
            EngineError::UnknownSecret(name) => holds(m@, name@),
            EngineError::SecretTampered(name) => holds(m@, name@),
            EngineError::BrokerOnly(name) => holds(m@, name@),
            EngineError::ApplyRequired(name) => holds(m@, name@),
            EngineError::VersionsExhausted(name) => holds(m@, name@),
            EngineError::RowIdDivergence { assigned, sealed } => holds(
                m@,
                decimal::decimal_text(assigned as int),
            ) && holds(m@, decimal::decimal_text(sealed as int)),
            EngineError::Store(why) => m@ == why.text(),
            _ => true,
        },
{
    match *e {
        EngineError::AuditChainBroken(seq) => {
            lemma_holds_end("audit chain broken at seq "@, decimal::decimal_text(seq as int));
        },
        EngineError::Argon2MemoryBelowFloor { m_kib, floor } => {
            lemma_holds_far(
                "argon2 m_kib "@,
                decimal::decimal_text(m_kib as int),
                " is below the "@,
                decimal::decimal_text(floor as int),
                " KiB floor"@,
            );
        },
        EngineError::Argon2TimeBelowFloor { t_cost, floor } => {
            lemma_holds_far(
                "argon2 t_cost "@,
                decimal::decimal_text(t_cost as int),
                " is below the "@,
                decimal::decimal_text(floor as int),
                " iteration floor"@,
            );
        },
        EngineError::UnknownSecret(name) => {
            lemma_holds_middle("unknown secret '"@, name@, "'"@);
        },
        EngineError::SecretTampered(name) => {
            lemma_holds_middle(
                "secret '"@,
                name@,
                "' failed authentication (tampered or corrupt)"@,
            );
        },
        EngineError::BrokerOnly(name) => {
            lemma_holds_middle("reveal refused: '"@, name@, "' is broker-only"@);
        },
        EngineError::ApplyRequired(name) => {
            lemma_holds_middle("reveal refused: '"@, name@, "' requires --apply"@);
        },
        EngineError::VersionsExhausted(name) => {
            lemma_holds_middle("secret '"@, name@, "' has no version left"@);
        },
        EngineError::RowIdDivergence { assigned, sealed } => {
            let tail = " but the ciphertext was sealed against "@ + decimal::decimal_text(
                sealed as int,
            );
            lemma_holds_middle(
                "store assigned row_id "@,
                decimal::decimal_text(assigned as int),
                tail,
            );
            let head = "store assigned row_id "@ + decimal::decimal_text(assigned as int)
                + " but the ciphertext was sealed against "@;
            lemma_holds_end(head, decimal::decimal_text(sealed as int));
            assert(head + decimal::decimal_text(sealed as int) =~= "store assigned row_id "@
                + decimal::decimal_text(assigned as int) + tail);
        },
        _ => {},
    }
}

proof fn lemma_holds_far(
    head: Seq<char>,
    part: Seq<char>,
    between: Seq<char>,
    other: Seq<char>,
    tail: Seq<char>,
)
    ensures
        holds(head + part + (between + other + tail), part),
        holds(head + part + (between + other + tail), other),
{
    lemma_holds_middle(head, part, between + other + tail);
    let far = head + part + between;
    lemma_holds_middle(far, other, tail);
    assert(far + other + tail =~= head + part + (between + other + tail));
}

/// The two ways in which a reveal is refused, and the reasons that are logged for them, are told in
/// words that say so.
pub proof fn law_refusals_say_why(m: String, name: String, text: String)
    ensures
        call_ensures(EngineError::message, (&EngineError::BrokerOnly(name),), m) ==> holds(
            m@,
            "' is broker-only"@,
        ),
        call_ensures(EngineError::message, (&EngineError::ApplyRequired(name),), m) ==> holds(
            m@,
            "' requires --apply"@,
        ),
        call_ensures(Reason::text, (&Reason::MitmLeaf,), text) ==> call_ensures(
            EngineError::message,
            (&EngineError::MitmLeafRefused,),
            m,
        ) ==> m@ == text@,
{
    lemma_holds_end("reveal refused: '"@ + name@, "' is broker-only"@);
    lemma_holds_end("reveal refused: '"@ + name@, "' requires --apply"@);
}

/// A detail is told as one JSON object that has each of its fields under its name.
pub proof fn law_json_has_every_field(d: &AuditDetail, text: String)
    requires
        call_ensures(AuditDetail::json, (d,), text),
    ensures
        text@.len() >= 2,
        text@.first() == '{',
        text@.last() == '}',
        match *d {
            AuditDetail::Empty => text@.len() == 2,
            AuditDetail::Init { slots, dek_generation } => {
                &&& holds(
                    text@,
                    "\"dek_generation\":"@ + decimal::decimal_text(dek_generation as int),
                )
                &&& holds(text@, ",\"slots\":"@ + decimal::decimal_text(slots as int))
            },
            AuditDetail::Unlocked { factor } => holds(text@, event::factor_name(factor)),
            AuditDetail::Cause { reason } => holds(text@, reason.words()),
            AuditDetail::TamperedVersion { version } => holds(
                text@,
                "\"version\":"@ + decimal::decimal_text(version as int),
            ),
            AuditDetail::Written { version } => holds(
                text@,
                "\"version\":"@ + decimal::decimal_text(version as int),
            ),
            AuditDetail::Read { version, revealed } => {
                &&& holds(text@, "\"version\":"@ + decimal::decimal_text(version as int))
                &&& revealed ==> holds(text@, "\"revealed\":true"@)
                &&& !revealed ==> holds(text@, "\"revealed\":false"@)
            },
            AuditDetail::Minted { policy_id, ttl_secs } => {
                &&& holds(text@, "\"policy_id\":"@ + decimal::decimal_text(policy_id as int))
                &&& holds(text@, ",\"ttl_secs\":"@ + decimal::decimal_text(ttl_secs as int))
            },
            AuditDetail::Revoked { count } => holds(
                text@,
                "\"count\":"@ + decimal::decimal_text(count as int),
            ),
            AuditDetail::Relayed { policy_id } => holds(
                text@,
                "\"policy_id\":"@ + decimal::decimal_text(policy_id as int),
            ),
            AuditDetail::Denied { reason } => holds(text@, reason.words()),
        },
{
    reveal_strlit("{}");
    reveal_strlit("}");
    reveal_strlit("\"}");
    reveal_strlit("{\"factor\":\"");
    reveal_strlit("{\"reason\":\"");
    match *d {
        AuditDetail::Empty => {
            assert(text@.len() == 2);
        },
        AuditDetail::Init { slots, dek_generation } => {
            let x = decimal::decimal_text(dek_generation as int);
            let y = decimal::decimal_text(slots as int);
            reveal_strlit("{\"dek_generation\":");
            reveal_strlit("\"dek_generation\":");
            lemma_two_members(
                "{\"dek_generation\":"@,
                "\"dek_generation\":"@,
                x,
                ",\"slots\":"@,
                y,
                "}"@,
            );
        },
        AuditDetail::Unlocked { factor } => {
            lemma_holds_middle("{\"factor\":\""@, event::factor_name(factor), "\"}"@);
        },
        AuditDetail::Cause { reason } => {
            lemma_holds_middle("{\"reason\":\""@, reason.words(), "\"}"@);
        },
        AuditDetail::TamperedVersion { version } => {
            reveal_strlit("{\"reason\":\"tamper\",\"version\":");
            reveal_strlit("\"version\":");
            lemma_one_member(
                "{\"reason\":\"tamper\",\"version\":"@,
                "\"version\":"@,
                decimal::decimal_text(version as int),
                "}"@,
            );
        },
        AuditDetail::Written { version } => {
            reveal_strlit("{\"version\":");
            reveal_strlit("\"version\":");
            lemma_one_member(
                "{\"version\":"@,
                "\"version\":"@,
                decimal::decimal_text(version as int),
                "}"@,
            );
        },
        AuditDetail::Read { version, revealed } => {
            reveal_strlit("\"version\":");
            let x = decimal::decimal_text(version as int);
            if revealed {
                reveal_strlit("{\"revealed\":true,\"version\":");
                reveal_strlit("\"revealed\":true");
                lemma_one_member("{\"revealed\":true,\"version\":"@, "\"version\":"@, x, "}"@);
                let part = "\"revealed\":true"@;
                assert(text@.subrange(1, 1int + part.len()) =~= part);
            } else {
                reveal_strlit("{\"revealed\":false,\"version\":");
                reveal_strlit("\"revealed\":false");
                lemma_one_member("{\"revealed\":false,\"version\":"@, "\"version\":"@, x, "}"@);
                let part = "\"revealed\":false"@;
                assert(text@.subrange(1, 1int + part.len()) =~= part);
            }
        },
        AuditDetail::Minted { policy_id, ttl_secs } => {
            let x = decimal::decimal_text(policy_id as int);
            let y = decimal::decimal_text(ttl_secs as int);
            reveal_strlit("{\"policy_id\":");
            reveal_strlit("\"policy_id\":");
            lemma_two_members(
                "{\"policy_id\":"@,
                "\"policy_id\":"@,
                x,
                ",\"ttl_secs\":"@,
                y,
                "}"@,
            );
        },
        AuditDetail::Revoked { count } => {
            reveal_strlit("{\"count\":");
            reveal_strlit("\"count\":");
            lemma_one_member(
                "{\"count\":"@,
                "\"count\":"@,
                decimal::decimal_text(count as int),
                "}"@,
            );
        },
        AuditDetail::Relayed { policy_id } => {
            reveal_strlit("{\"policy_id\":");
            reveal_strlit("\"policy_id\":");
            lemma_one_member(
                "{\"policy_id\":"@,
                "\"policy_id\":"@,
                decimal::decimal_text(policy_id as int),
                "}"@,
            );
        },
        AuditDetail::Denied { reason } => {
            lemma_holds_middle("{\"reason\":\""@, reason.words(), "\"}"@);
        },
    }
}

proof fn lemma_one_member(head: Seq<char>, name: Seq<char>, value: Seq<char>, tail: Seq<char>)
    requires
        name.len() <= head.len(),
        head.subrange(head.len() - name.len(), head.len() as int) =~= name,
    ensures
        holds(head + value + tail, name + value),
{
    let front = head.subrange(0, head.len() - name.len());
    lemma_holds_middle(front, name + value, tail);
    assert(front + (name + value) + tail =~= head + value + tail);
}

proof fn lemma_two_members(
    head: Seq<char>,
    name: Seq<char>,
    value: Seq<char>,
    other_name: Seq<char>,
    other: Seq<char>,
    tail: Seq<char>,
)
    requires
        name.len() <= head.len(),
        head.subrange(head.len() - name.len(), head.len() as int) =~= name,
    ensures
        holds(head + value + (other_name + other + tail), name + value),
        holds(head + value + (other_name + other + tail), other_name + other),
{
    lemma_one_member(head, name, value, other_name + other + tail);
    lemma_holds_inside(head, value, other_name + other, tail);
}

/// Events are handed out in the order in which they came, each once and with all that it says.
pub proof fn law_events_come_out_in_order(
    sink: &mut EventSink,
    first: SecretEvent,
    then: &mut EventSink,
    second: SecretEvent,
    last: &mut EventSink,
    out: Vec<SecretEvent>,
)
    requires
        call_ensures(EventSink::emit, (sink, first), ()),
        *old(then) == *final(sink),
        call_ensures(EventSink::emit, (then, second), ()),
        *old(last) == *final(then),
        call_ensures(EventSink::drain, (last,), out),
    ensures
        ({
            let n = old(sink)@.len() as int;
            &&& out@.len() == n + 2
            &&& forall|i: int| 0 <= i < n ==> (#[trigger] out@[i])@ == old(sink)@[i]
            &&& out@[n]@ == first@
            &&& out@[n + 1]@ == second@
        }),
        final(last)@.len() == 0,
{
    let n = old(sink)@.len() as int;
    assert(final(sink)@ == old(sink)@.push(first@));
    assert(final(then)@ == final(sink)@.push(second@));
    assert forall|i: int| 0 <= i < out@.len() implies (#[trigger] out@[i])@ == final(then)@[i] by {
        assert(old(last).events@[i] == out@[i]);
    }
    assert(out@[n]@ == final(then)@[n]);
    assert(out@[n + 1]@ == final(then)@[n + 1]);
}

/// A store is healthy exactly where it is durable and its schema has a version other than zero.
pub proof fn law_health_is_durability_and_a_schema(h: &StoreHealth, healthy: bool)
    requires
        call_ensures(StoreHealth::is_healthy, (h,), healthy),
    ensures
        h.durable && h.schema_version != 0 ==> healthy,
        !h.durable ==> !healthy,
        h.schema_version == 0 ==> !healthy,
{
}

/// No certificate is ever issued. One for interception is refused, and the refusal is logged and
/// told; any other is refused for want of an authority, and changes nothing.
pub proof fn law_no_certificate_is_issued<S: Store, C: Clock, U: UsbProbe>(
    e: &mut Engine<S, C, U>,
    cn: &str,
    sans: &[String],
    usage: &str,
    sink: &mut EventSink,
    result: Result<String, EngineError>,
)
    requires
        call_ensures(Engine::<S, C, U>::ca_issue, (e, cn, sans, usage, sink), result),
    ensures
        result is Err,
        usage@ != "mitm_leaf"@ ==> {
            &&& result == Err::<String, EngineError>(EngineError::NoCertificateAuthority)
            &&& final(e).state() == old(e).state()
            &&& final(sink)@ == old(sink)@
        },
        usage@ == "mitm_leaf"@ && old(e).dependable() && old(e).state().store.audit.len()
            < i64::MAX ==> {
            &&& result == Err::<String, EngineError>(EngineError::MitmLeafRefused)
            &&& laws::logging::one_row_more(
                old(e).state().store,
                final(e).state().store,
                old(e).state().owner_uid,
                "ca_issue"@,
                Some(cn@),
                AuditDetail::Cause { reason: Reason::MitmLeaf },
                AuditOutcome::Refused,
            )
            &&& laws::logging::told_then(
                old(sink)@,
                final(sink)@,
                final(e).state().store.audit.last(),
                seq![
                    EventView::GuardRefused {
                        subject: cn@,
                        reason: "issue refused: usage is mitm_leaf"@,
                    },
                ],
            )
        },
{
    if old(e).dependable() {
        assert(old(e).reliable(StoreCall::AppendAudit));
        assert(old(e).reliable(StoreCall::PutMeta));
    }
    if result == Err::<String, EngineError>(EngineError::MitmLeafRefused) {
        laws::logging::law_entry_is_one_row_more(
            old(e).state(),
            old(sink)@,
            final(e).state(),
            final(sink)@,
            model::refused_entry(
                "ca_issue"@,
                cn@,
                AuditDetail::Cause { reason: Reason::MitmLeaf },
            ),
            seq![
                EventView::GuardRefused { subject: cn@, reason: Reason::MitmLeaf.words() },
            ],
        );
    }
}

} // verus!
