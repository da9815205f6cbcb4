//! What becomes of a request through the broker, from the request and the vault it meets.
use vstd::prelude::*;
use crate::broker::decide;
use crate::broker::decide::{DenyReason, RelayDecision};
use crate::broker::ledger;
use crate::broker::ledger::{BearerView, BrokerView};
use crate::broker::policy;
use crate::broker::policy::PolicyView;
use crate::decimal;
use crate::engine::model;
use crate::engine::model::{EngineView, SwapVerdict};
use crate::engine::relay;
use crate::engine::relay::{EgressReq, SwapStep};
use crate::engine::unlock;
use crate::engine::Engine;
use crate::error::EngineError;
use crate::event::{AuditDetail, AuditOutcome, EventSink, EventView, Reason};
use crate::keyslot;
use crate::laws;
use crate::primitives;
use crate::seam;
use crate::seam::{Clock, UsbProbe};
use crate::vault::aad;
use crate::vault::aad::TableTag;
use crate::vault::store::{SecretView, Store, StoreCall};

verus! {

/// Whether a bearer is the one of a token: what is kept of it is the MAC of the token, under a key
/// that is derived from the data key for this purpose alone.
pub open spec fn bears(b: BearerView, dek: Seq<u8>, token: Seq<char>) -> bool {
    b.mac == primitives::blake3_keyed_hash(
        primitives::blake3_derive_key("env-ctl/v1/bearer/key"@, dek),
        vstd::utf8::encode_utf8(token),
    )
}

/// Whether a request passes the check that a reason stands for, in its own fields.
pub open spec fn request_passes(
    reason: DenyReason,
    p: PolicyView,
    b: BearerView,
    req: EgressReq,
    now_ms: i64,
    device_there: bool,
    floor_ms: i64,
) -> bool {
    match reason {
        DenyReason::UnknownBearer => p.id == b.policy_id,
        DenyReason::Disabled => p.enabled,
        DenyReason::Revoked => !p.revoked,
        DenyReason::BearerRevoked => !b.revoked,
        DenyReason::BearerExpired => b.expires_at_ms > now_ms,
        DenyReason::PolicyExpired => p.expires_at_ms is None || p.expires_at_ms.unwrap() > now_ms,
        DenyReason::HostNotAllowed => p.hosts.contains(req.host@),
        DenyReason::PathNotAllowed => exists|i: int|
            0 <= i < p.path_prefixes.len() && laws::decision::whole_prefix(
                vstd::utf8::encode_utf8(req.path@),
                vstd::utf8::encode_utf8(#[trigger] p.path_prefixes[i]),
            ),
        DenyReason::MethodNotAllowed => p.methods.contains(req.method),
        DenyReason::UpstreamNotAllowed => p.upstreams.contains(req.host@),
        DenyReason::PeerMismatch => {
            &&& b.client_uid is None || b.client_uid == req.peer_uid
            &&& b.client_pid is None || b.client_pid == req.peer_pid
        },
        DenyReason::SniHostMismatch => true,
        DenyReason::BudgetRequests => p.max_requests is None || p.max_requests.unwrap()
            > p.used_requests,
        DenyReason::BudgetBytes => p.max_bytes is None || p.max_bytes.unwrap() >= p.used_bytes
            + req.bytes_out,
        DenyReason::RateLimited => {
            ||| p.rate is None
            ||| p.rate.unwrap().max_requests > p.window_requests
            ||| now_ms >= p.window_started_ms + p.rate.unwrap().window_ms
        },
        DenyReason::GateAbsent => device_there,
        DenyReason::ClockRollback => floor_ms <= b.issued_at_ms && b.issued_at_ms <= now_ms,
    }
}

pub proof fn lemma_request_passes(
    reason: DenyReason,
    p: PolicyView,
    b: BearerView,
    req: EgressReq,
    now_ms: i64,
    usb_absent_since_ms: Option<i64>,
    floor_ms: i64,
)
    ensures
        request_passes(reason, p, b, req, now_ms, usb_absent_since_ms is None, floor_ms)
            == !decide::fails(
            reason,
            p,
            model::claim(b),
            relay::canonical(req),
            now_ms,
            usb_absent_since_ms,
            floor_ms,
        ),
{
    let path = vstd::utf8::encode_utf8(req.path@);
    assert forall|i: int| 0 <= i < p.path_prefixes.len() implies policy::lies_under(
        path,
        vstd::utf8::encode_utf8(#[trigger] p.path_prefixes[i]),
    ) == laws::decision::whole_prefix(path, vstd::utf8::encode_utf8(p.path_prefixes[i])) by {
        laws::decision::lemma_under_is_whole(path, vstd::utf8::encode_utf8(p.path_prefixes[i]));
    }
    if policy::some_prefix(p.path_prefixes, req.path@) {
        let i = choose|i: int|
            0 <= i < p.path_prefixes.len() && policy::lies_under(
                path,
                vstd::utf8::encode_utf8(#[trigger] p.path_prefixes[i]),
            );
        assert(laws::decision::whole_prefix(path, vstd::utf8::encode_utf8(p.path_prefixes[i])));
    }
    if exists|i: int|
        0 <= i < p.path_prefixes.len() && laws::decision::whole_prefix(
            path,
            vstd::utf8::encode_utf8(#[trigger] p.path_prefixes[i]),
        ) {
        let i = choose|i: int|
            0 <= i < p.path_prefixes.len() && laws::decision::whole_prefix(
                path,
                vstd::utf8::encode_utf8(#[trigger] p.path_prefixes[i]),
            );
        assert(policy::lies_under(path, vstd::utf8::encode_utf8(p.path_prefixes[i])));
    }
}

/// Whether these are the first bearer of a token, and the first policy with its number.
pub open spec fn found_at(
    v: BrokerView,
    dek: Seq<u8>,
    token: Seq<char>,
    b: int,
    p: int,
) -> bool {
    &&& 0 <= b < v.bearers.len()
    &&& bears(v.bearers[b], dek, token)
    &&& forall|j: int| 0 <= j < b ==> !bears(#[trigger] v.bearers[j], dek, token)
    &&& 0 <= p < v.policies.len()
    &&& v.policies[p].id == v.bearers[b].policy_id
    &&& forall|j: int| 0 <= j < p ==> (#[trigger] v.policies[j]).id != v.bearers[b].policy_id
}

proof fn lemma_bearer_is_first(bearers: Seq<BearerView>, dek: Seq<u8>, token: Seq<char>, from: int)
    requires
        0 <= from <= bearers.len(),
    ensures
        match ledger::bearer_at(bearers, model::bearer_key(dek), token, from) {
            Some(b) => {
                &&& from <= b < bearers.len()
                &&& bears(bearers[b], dek, token)
                &&& forall|j: int| from <= j < b ==> !bears(#[trigger] bearers[j], dek, token)
            },
            None => forall|j: int|
                from <= j < bearers.len() ==> !bears(#[trigger] bearers[j], dek, token),
        },
    decreases bearers.len() - from,
{
    if from < bearers.len() {
        lemma_bearer_is_first(bearers, dek, token, from + 1);
    }
}

proof fn lemma_policy_is_first(policies: Seq<PolicyView>, id: i64, from: int)
    requires
        0 <= from <= policies.len(),
    ensures
        match ledger::policy_at(policies, id, from) {
            Some(p) => {
                &&& from <= p < policies.len()
                &&& policies[p].id == id
                &&& forall|j: int| from <= j < p ==> (#[trigger] policies[j]).id != id
            },
            None => forall|j: int|
                from <= j < policies.len() ==> (#[trigger] policies[j]).id != id,
        },
    decreases policies.len() - from,
{
    if from < policies.len() {
        lemma_policy_is_first(policies, id, from + 1);
    }
}

pub proof fn lemma_look_up_is_first(v: BrokerView, dek: Seq<u8>, token: Seq<char>)
    ensures
        match ledger::looked_up(v, model::bearer_key(dek), token) {
            Some((b, p)) => found_at(v, dek, token, b, p),
            None => forall|b: int, p: int| !#[trigger] found_at(v, dek, token, b, p),
        },
        forall|b: int, p: int| #[trigger]
            found_at(v, dek, token, b, p) ==> ledger::looked_up(v, model::bearer_key(dek), token)
                == Some((b, p)),
{
    lemma_bearer_is_first(v.bearers, dek, token, 0);
    let at = ledger::bearer_at(v.bearers, model::bearer_key(dek), token, 0);
    if at is Some {
        lemma_policy_is_first(v.policies, v.bearers[at.unwrap()].policy_id, 0);
    }
    assert forall|b: int, p: int| #[trigger]
        found_at(v, dek, token, b, p) implies ledger::looked_up(
        v,
        model::bearer_key(dek),
        token,
    ) == Some((b, p)) by {
        let a = at.unwrap();
        if a < b {
            assert(!bears(v.bearers[a], dek, token));
        }
        if b < a {
            assert(!bears(v.bearers[b], dek, token));
        }
        let q = ledger::policy_at(v.policies, v.bearers[a].policy_id, 0).unwrap();
        if q < p {
            assert(v.policies[q].id != v.bearers[b].policy_id);
        }
        if p < q {
            assert(v.policies[p].id != v.bearers[b].policy_id);
        }
    }
}

/// Whether a row opens to a key under the data key: with its own nonce, and associated data that
/// bind its table, row id, version and generation.
pub open spec fn row_opens(row: SecretView, dek: Seq<u8>, key: Seq<u8>) -> bool {
    &&& row.nonce.len() == 24
    &&& row.ct_tag.len() <= laws::keys::longest()
    &&& primitives::xchacha_open(
        dek,
        row.nonce,
        aad::record_aad_bytes(
            TableTag::SecretVersion,
            row.row_id,
            row.version as i64,
            row.dek_generation,
        ),
        row.ct_tag,
    ) == Some(key)
}

pub proof fn lemma_row_opens(row: SecretView, dek: Seq<u8>, key: Seq<u8>)
    ensures
        model::row_plaintext(dek, row) == Some(key) <==> row_opens(row, dek, key),
{
}

/// The issuance floor that a store holds.
pub open spec fn floor_is(s: EngineView, floor_ms: i64) -> bool {
    &&& s.store.meta.dom().contains("vault.issuance_floor_ms"@)
    &&& decimal::parsed_i64(s.store.meta["vault.issuance_floor_ms"@]) == Some(floor_ms)
}

/// The count after one more, which stays at its end.
pub open spec fn counted(before: u64, more: int, after: u64) -> bool {
    if before + more <= u64::MAX {
        after == before + more
    } else {
        after == u64::MAX
    }
}

/// Whether a policy is charged with one request: one request and its bytes more, and one more in
/// the window that the request falls into. Nothing else of it changes.
pub open spec fn charged_once(
    before: PolicyView,
    after: PolicyView,
    bytes_out: u64,
    now_ms: i64,
) -> bool {
    let fresh = before.rate is Some && now_ms >= before.window_started_ms
        + before.rate.unwrap().window_ms;
    &&& counted(before.used_requests, 1, after.used_requests)
    &&& counted(before.used_bytes, bytes_out as int, after.used_bytes)
    &&& fresh ==> after.window_started_ms == now_ms && after.window_requests == 1
    &&& !fresh ==> after.window_started_ms == before.window_started_ms && (
    before.window_requests < u32::MAX ==> after.window_requests == before.window_requests + 1) && (
    before.window_requests == u32::MAX ==> after.window_requests == u32::MAX)
    &&& after.id == before.id
    &&& after.relay_id == before.relay_id
    &&& after.secret_name == before.secret_name
    &&& after.enabled == before.enabled
    &&& after.revoked == before.revoked
    &&& after.expires_at_ms == before.expires_at_ms
    &&& after.hosts == before.hosts
    &&& after.path_prefixes == before.path_prefixes
    &&& after.methods == before.methods
    &&& after.upstreams == before.upstreams
    &&& after.max_requests == before.max_requests
    &&& after.max_bytes == before.max_bytes
    &&& after.rate == before.rate
}

/// What holds of a request that goes out with a key at a time.
pub open spec fn goes_out(
    s: EngineView,
    t: EngineView,
    token: Seq<char>,
    req: EgressReq,
    now_ms: i64,
    b: int,
    p: int,
    policy_id: i64,
    key: Seq<u8>,
) -> bool {
    &&& s.dek matches Some(dek)
    &&& found_at(s.relays, dek, token, b, p)
    &&& exists|floor_ms: i64| #[trigger]
        floor_is(s, floor_ms) && forall|r: DenyReason| #[trigger]
            request_passes(
                r,
                s.relays.policies[p],
                s.relays.bearers[b],
                req,
                now_ms,
                true,
                floor_ms,
            )
    &&& policy_id == s.relays.policies[p].id
    &&& exists|i: int| #[trigger]
        laws::storing::last_of(s.store.secrets, s.relays.policies[p].secret_name, i) && row_opens(
            s.store.secrets[i],
            dek,
            key,
        )
    &&& t.relays.bearers == s.relays.bearers
    &&& t.relays.policies.len() == s.relays.policies.len()
    &&& charged_once(s.relays.policies[p], t.relays.policies[p], req.bytes_out, now_ms)
    &&& forall|j: int|
        0 <= j < s.relays.policies.len() && j != p ==> #[trigger] t.relays.policies[j]
            == s.relays.policies[j]
    &&& laws::logging::one_row_more(
        s.store,
        t.store,
        s.owner_uid,
        "relay_swap"@,
        Some(s.relays.bearers[b].token_id),
        AuditDetail::Relayed { policy_id },
        AuditOutcome::Succeeded,
    )
    &&& t.dek == s.dek
}

proof fn lemma_send_goes_out(
    s: EngineView,
    before: Seq<EventView>,
    t: EngineView,
    after: Seq<EventView>,
    token: Seq<char>,
    req: EgressReq,
    now_ms: i64,
    usb: Option<i64>,
    at: int,
    token_id: Seq<char>,
    key: Seq<u8>,
) -> (b: int)
    requires
        model::swap_verdict(s, token, relay::canonical(req), now_ms, usb) == (
        SwapVerdict::Send { policy: at, token_id, key }),
        model::swap_effect(
            s,
            before,
            t,
            after,
            SwapVerdict::Send { policy: at, token_id, key },
            req.bytes_out,
            now_ms,
        ),
    ensures
        usb is None,
        goes_out(s, t, token, req, now_ms, b, at, s.relays.policies[at].id, key),
        laws::logging::told_then(before, after, t.store.audit.last(), Seq::empty()),
{
    let dek = s.dek.unwrap();
    let canon = relay::canonical(req);
    lemma_look_up_is_first(s.relays, dek, token);
    let (b, p) = ledger::looked_up(s.relays, model::bearer_key(dek), token).unwrap();
    let floor = model::stored_floor(s.store).unwrap();
    let pol = s.relays.policies[p];
    let bearer = s.relays.bearers[b];
    relay::lemma_decision_exists(pol, model::claim(bearer), canon, now_ms, usb, floor);
    assert(p == at);
    assert(!decide::fails(
        DenyReason::GateAbsent,
        pol,
        model::claim(bearer),
        canon,
        now_ms,
        usb,
        floor,
    ));
    assert forall|r: DenyReason| #[trigger]
        request_passes(r, pol, bearer, req, now_ms, true, floor) by {
        lemma_request_passes(r, pol, bearer, req, now_ms, usb, floor);
        assert(!decide::fails(r, pol, model::claim(bearer), canon, now_ms, usb, floor));
    }
    assert(floor_is(s, floor));
    laws::storing::lemma_latest_is_last(s.store.secrets, pol.secret_name);
    let row = crate::vault::store::latest(s.store.secrets, pol.secret_name).unwrap();
    let i = choose|i: int| #[trigger]
        laws::storing::last_of(s.store.secrets, pol.secret_name, i) && s.store.secrets[i] == row;
    lemma_row_opens(row, dek, key);
    assert(laws::storing::last_of(s.store.secrets, pol.secret_name, i) && row_opens(
        s.store.secrets[i],
        dek,
        key,
    ));
    let charged = model::with_charge(s, at, req.bytes_out, now_ms);
    let entry = model::swap_entry(s, SwapVerdict::Send { policy: at, token_id, key });
    laws::logging::law_entry_is_one_row_more(charged, before, t, after, entry, Seq::empty());
    assert(t.relays.policies[at] == ledger::charged(pol, req.bytes_out, now_ms));
    b
}

/// The real key goes out only with a request whose own fields pass every check of the policy that
/// its bearer belongs to, at a time that the clock told and with the key device there. It is the
/// key that the policy names, and the policy is charged with this very request.
pub proof fn law_key_goes_out_with_a_fitting_request<S: Store, C: Clock, U: UsbProbe>(
    e: &mut Engine<S, C, U>,
    bearer: &str,
    req: &EgressReq,
    sink: &mut EventSink,
    step: SwapStep,
    policy_id: i64,
    key: Vec<u8>,
)
    requires
        call_ensures(Engine::<S, C, U>::relay_swap, (e, bearer, req, sink), step),
        step == (SwapStep::Send { policy_id, key }),
    ensures
        old(e).usb_seen(true),
        exists|now_ms: i64, b: int, p: int|
            seam::timed(&old(e).clock_seam(), now_ms) && #[trigger] goes_out(
                old(e).state(),
                final(e).state(),
                bearer@,
                *req,
                now_ms,
                b,
                p,
                policy_id,
                key@,
            ),
        laws::logging::told_then(
            old(sink)@,
            final(sink)@,
            final(e).state().store.audit.last(),
            Seq::empty(),
        ),
{
    let s = old(e).state();
    let t = final(e).state();
    let (now_ms, usb) = choose|now_ms: i64, usb: Option<i64>|
        {
            &&& seam::timed(&old(e).clock_seam(), now_ms)
            &&& #[trigger] old(e).usb_marked(usb, now_ms)
            &&& Engine::<S, C, U>::swap_outcome(
                *old(e),
                old(sink)@,
                *final(e),
                final(sink)@,
                bearer@,
                relay::canonical(*req),
                now_ms,
                usb,
                step,
            )
        };
    let verdict = model::swap_verdict(s, bearer@, relay::canonical(*req), now_ms, usb);
    assert(relay::step_is(step, s, verdict));
    match verdict {
        SwapVerdict::Send { policy, token_id, key: k } => {
            let b = lemma_send_goes_out(
                s,
                old(sink)@,
                t,
                final(sink)@,
                bearer@,
                *req,
                now_ms,
                usb,
                policy,
                token_id,
                k,
            );
            assert(goes_out(s, t, bearer@, *req, now_ms, b, policy, policy_id, key@));
        },
        _ => {},
    }
}

/// A request whose own fields pass every check, at whatever time the clock tells, is sent with the
/// real key of its policy, where the key device is seen and neither the store nor the log fails.
pub proof fn law_fitting_request_is_sent<S: Store, C: Clock, U: UsbProbe>(
    e: &mut Engine<S, C, U>,
    bearer: &str,
    req: &EgressReq,
    sink: &mut EventSink,
    step: SwapStep,
    dek: Seq<u8>,
    floor_ms: i64,
    b: int,
    p: int,
    i: int,
    key: Seq<u8>,
)
    requires
        call_ensures(Engine::<S, C, U>::relay_swap, (e, bearer, req, sink), step),
        old(e).dependable(),
        old(e).state().store.audit.len() < i64::MAX,
        old(e).state().dek == Some(dek),
        !old(e).usb_seen(false),
        floor_is(old(e).state(), floor_ms),
        found_at(old(e).state().relays, dek, bearer@, b, p),
        forall|now_ms: i64, r: DenyReason| #[trigger]
            seam::timed(&old(e).clock_seam(), now_ms) ==> #[trigger] request_passes(
                r,
                old(e).state().relays.policies[p],
                old(e).state().relays.bearers[b],
                *req,
                now_ms,
                true,
                floor_ms,
            ),
        laws::storing::last_of(
            old(e).state().store.secrets,
            old(e).state().relays.policies[p].secret_name,
            i,
        ),
        row_opens(old(e).state().store.secrets[i], dek, key),
    ensures
        step matches SwapStep::Send { policy_id, key: k } && k@ == key && policy_id
            == old(e).state().relays.policies[p].id,
{
    let s = old(e).state();
    let canon = relay::canonical(*req);
    let (now_ms, usb) = choose|now_ms: i64, usb: Option<i64>|
        {
            &&& seam::timed(&old(e).clock_seam(), now_ms)
            &&& #[trigger] old(e).usb_marked(usb, now_ms)
            &&& Engine::<S, C, U>::swap_outcome(
                *old(e),
                old(sink)@,
                *final(e),
                final(sink)@,
                bearer@,
                canon,
                now_ms,
                usb,
                step,
            )
        };
    assert(old(e).reliable(StoreCall::LoadKeyslots));
    assert(old(e).reliable(StoreCall::GetMeta));
    assert(old(e).reliable(StoreCall::GetSecretLatest));
    assert(old(e).reliable(StoreCall::AppendAudit));
    assert(old(e).reliable(StoreCall::PutMeta));
    assert(usb is None);
    lemma_look_up_is_first(s.relays, dek, bearer@);
    let pol = s.relays.policies[p];
    let row = s.relays.bearers[b];
    relay::lemma_decision_exists(pol, model::claim(row), canon, now_ms, usb, floor_ms);
    let d = model::decided(pol, model::claim(row), canon, now_ms, usb, floor_ms);
    assert forall|r: DenyReason| !#[trigger] decide::fails(
        r,
        pol,
        model::claim(row),
        canon,
        now_ms,
        usb,
        floor_ms,
    ) by {
        lemma_request_passes(r, pol, row, *req, now_ms, usb, floor_ms);
        assert(request_passes(r, pol, row, *req, now_ms, true, floor_ms));
    }
    assert(d == RelayDecision::Allow);
    laws::storing::lemma_latest_is_last(s.store.secrets, pol.secret_name);
    lemma_row_opens(s.store.secrets[i], dek, key);
}

/// A request is denied for a check that it did not pass: nobody is charged, and the row and the
/// event say for what it was denied.
pub proof fn law_denied_request_failed_its_check<S: Store, C: Clock, U: UsbProbe>(
    e: &mut Engine<S, C, U>,
    bearer: &str,
    req: &EgressReq,
    sink: &mut EventSink,
    step: SwapStep,
    reason: DenyReason,
)
    requires
        call_ensures(Engine::<S, C, U>::relay_swap, (e, bearer, req, sink), step),
        step == SwapStep::Denied(reason),
    ensures
        final(e).state().relays == old(e).state().relays,
        final(e).state().dek == old(e).state().dek,
        old(e).state().dek is Some,
        final(e).state().store.audit.len() == old(e).state().store.audit.len() + 1,
        final(e).state().store.audit.last().event_type == "relay_swap"@,
        final(e).state().store.audit.last().detail == (AuditDetail::Denied { reason }),
        final(e).state().store.audit.last().outcome == AuditOutcome::Refused,
        final(sink)@.len() == old(sink)@.len() + 2,
        final(sink)@.last() matches EventView::GuardRefused { reason: words, .. } && words
            == reason.words(),
        ({
            let s = old(e).state();
            let dek = s.dek.unwrap();
            ||| {
                &&& reason == DenyReason::UnknownBearer
                &&& forall|b: int, p: int| !#[trigger] found_at(s.relays, dek, bearer@, b, p)
                &&& final(e).state().store.audit.last().subject == Some("unknown bearer"@)
            }
            ||| exists|now_ms: i64, b: int, p: int, floor_ms: i64, there: bool|
                {
                    &&& #[trigger] found_at(s.relays, dek, bearer@, b, p)
                    &&& seam::timed(&old(e).clock_seam(), now_ms)
                    &&& #[trigger] floor_is(s, floor_ms)
                    &&& !#[trigger] request_passes(
                        reason,
                        s.relays.policies[p],
                        s.relays.bearers[b],
                        *req,
                        now_ms,
                        there,
                        floor_ms,
                    )
                    &&& forall|r: DenyReason|
                        laws::decision::place(r) < laws::decision::place(reason)
                            ==> #[trigger] request_passes(
                            r,
                            s.relays.policies[p],
                            s.relays.bearers[b],
                            *req,
                            now_ms,
                            there,
                            floor_ms,
                        )
                    &&& final(e).state().store.audit.last().subject == Some(
                        s.relays.bearers[b].token_id,
                    )
                    &&& there ==> old(e).usb_seen(true)
                    &&& !there ==> old(e).usb_seen(false) || !old(e).reliable(
                        StoreCall::LoadKeyslots,
                    )
                }
        }),
{
    let s = old(e).state();
    let t = final(e).state();
    let canon = relay::canonical(*req);
    let (now_ms, usb) = choose|now_ms: i64, usb: Option<i64>|
        {
            &&& seam::timed(&old(e).clock_seam(), now_ms)
            &&& #[trigger] old(e).usb_marked(usb, now_ms)
            &&& Engine::<S, C, U>::swap_outcome(
                *old(e),
                old(sink)@,
                *final(e),
                final(sink)@,
                bearer@,
                canon,
                now_ms,
                usb,
                step,
            )
        };
    let verdict = model::swap_verdict(s, bearer@, canon, now_ms, usb);
    assert(relay::step_is(step, s, verdict));
    assert(verdict is Denied);
    match verdict {
        SwapVerdict::Denied { subject, reason: r } => {
            let then = seq![EventView::GuardRefused { subject, reason: r.words() }];
            let entry = model::swap_entry(s, verdict);
            laws::logging::law_entry_is_one_row_more(
                s,
                old(sink)@,
                t,
                final(sink)@,
                entry,
                then,
            );
            assert(final(sink)@[old(sink)@.len() as int + 1] == then[0]);
            let dek = s.dek.unwrap();
            lemma_look_up_is_first(s.relays, dek, bearer@);
            match ledger::looked_up(s.relays, model::bearer_key(dek), bearer@) {
                None => {},
                Some((b, p)) => {
                    let floor = model::stored_floor(s.store).unwrap();
                    let pol = s.relays.policies[p];
                    let row = s.relays.bearers[b];
                    relay::lemma_decision_exists(
                        pol,
                        model::claim(row),
                        canon,
                        now_ms,
                        usb,
                        floor,
                    );
                    lemma_request_passes(reason, pol, row, *req, now_ms, usb, floor);
                    let there = usb is None;
                    assert(floor_is(s, floor));
                    assert(found_at(s.relays, dek, bearer@, b, p));
                    assert(!request_passes(reason, pol, row, *req, now_ms, there, floor));
                    assert forall|r: DenyReason|
                        laws::decision::place(r) < laws::decision::place(
                            reason,
                        ) implies #[trigger] request_passes(
                        r,
                        pol,
                        row,
                        *req,
                        now_ms,
                        there,
                        floor,
                    ) by {
                        lemma_request_passes(r, pol, row, *req, now_ms, usb, floor);
                    }
                },
            }
        },
        _ => {},
    }
}

/// Whether the probe, asked for the partition of a slot, gave a keyfile that opens it to a key.
pub open spec fn gave_fitting<U: UsbProbe>(
    usb: &U,
    slots: Seq<keyslot::SlotView>,
    i: int,
    keyfile: Seq<u8>,
    dek: Seq<u8>,
) -> bool {
    &&& 0 <= i < slots.len()
    &&& laws::keys::keyfile_fits(slots[i], keyfile, dek)
    &&& unlock::answered(usb, slots[i].usb_partition_uuid.unwrap(), Some(keyfile))
}

/// The key device is seen only where the probe gave a keyfile that opens a slot to the live key.
pub proof fn law_device_is_seen_by_its_keyfile<S: Store, C: Clock, U: UsbProbe>(
    e: &Engine<S, C, U>,
    possessed: Result<bool, EngineError>,
)
    requires
        call_ensures(Engine::<S, C, U>::possesses_usb, (e,), possessed),
        possessed == Ok::<bool, EngineError>(true),
    ensures
        e.state().dek is Some,
        exists|i: int, keyfile: Seq<u8>| #[trigger]
            gave_fitting(
                &e.usb_seam(),
                e.state().store.slots,
                i,
                keyfile,
                e.state().dek.unwrap(),
            ),
{
    lemma_seen_by_keyfile(e);
}

pub proof fn lemma_seen_by_keyfile<S: Store, C: Clock, U: UsbProbe>(e: &Engine<S, C, U>)
    requires
        e.usb_seen(true),
    ensures
        e.state().dek is Some,
        exists|i: int, keyfile: Seq<u8>| #[trigger]
            gave_fitting(
                &e.usb_seam(),
                e.state().store.slots,
                i,
                keyfile,
                e.state().dek.unwrap(),
            ),
{
    let slots = e.state().store.slots;
    let dek = e.state().dek.unwrap();
    let keyfiles = choose|keyfiles: Seq<Option<Seq<u8>>>| #[trigger]
        e.probe_gave(keyfiles) && keyslot::keyfiles_recover(slots, keyfiles) == Some(dek);
    let i = lemma_recovered_somewhere(slots, keyfiles, dek);
    let keyfile = keyfiles[i].unwrap();
    laws::keys::lemma_keyfile_fits(slots[i], keyfile, dek);
    assert(keyslot::usb_slot(slots[i]) is Some);
    assert(unlock::answered(
        &e.usb_seam(),
        slots[i].usb_partition_uuid.unwrap(),
        Some(keyfile),
    ));
    assert(gave_fitting(&e.usb_seam(), slots, i, keyfile, dek));
}

pub proof fn lemma_recovered_somewhere(
    slots: Seq<keyslot::SlotView>,
    keyfiles: Seq<Option<Seq<u8>>>,
    dek: Seq<u8>,
) -> (i: int)
    requires
        keyslot::keyfiles_recover(slots, keyfiles) == Some(dek),
    ensures
        0 <= i < slots.len(),
        i < keyfiles.len(),
        keyfiles[i] is Some,
        keyslot::keyfile_opens(slots[i], keyfiles[i]) == Some(dek),
    decreases slots.len(),
{
    if keyslot::keyfile_opens(slots[0], keyfiles[0]) is Some {
        0
    } else {
        let k = lemma_recovered_somewhere(slots.drop_first(), keyfiles.drop_first(), dek);
        assert(slots.drop_first()[k] == slots[k + 1]);
        assert(keyfiles.drop_first()[k] == keyfiles[k + 1]);
        k + 1
    }
}

/// Whether a slot was asked for in vain: it is no enabled USB slot with a partition, or the probe,
/// asked for its partition, gave nothing that opens it.
pub open spec fn asked_in_vain<U: UsbProbe>(usb: &U, slot: keyslot::SlotView) -> bool {
    slot.enabled && slot.factor == keyslot::Factor::Usb && slot.usb_partition_uuid is Some ==> {
        exists|answer: Option<Seq<u8>>| #[trigger]
            unlock::answered(usb, slot.usb_partition_uuid.unwrap(), answer) && fits_not(
                slot,
                answer,
            )
    }
}

/// Whether an answer of the probe does not open a slot.
pub open spec fn fits_not(slot: keyslot::SlotView, answer: Option<Seq<u8>>) -> bool {
    answer matches Some(keyfile) ==> forall|dek: Seq<u8>|
        !#[trigger] laws::keys::keyfile_fits(slot, keyfile, dek)
}

proof fn lemma_recovers_nowhere(
    slots: Seq<keyslot::SlotView>,
    keyfiles: Seq<Option<Seq<u8>>>,
    i: int,
)
    requires
        keyfiles.len() == slots.len(),
        keyslot::keyfiles_recover(slots, keyfiles) is None,
        0 <= i < slots.len(),
    ensures
        keyslot::keyfile_opens(slots[i], keyfiles[i]) is None,
    decreases slots.len(),
{
    if i > 0 {
        lemma_recovers_nowhere(slots.drop_first(), keyfiles.drop_first(), i - 1);
    }
}

pub proof fn lemma_all_asked_in_vain<U: UsbProbe>(
    usb: &U,
    slots: Seq<keyslot::SlotView>,
    keyfiles: Seq<Option<Seq<u8>>>,
)
    requires
        unlock::probed(usb, slots, keyfiles),
        keyslot::keyfiles_recover(slots, keyfiles) is None,
    ensures
        forall|i: int| 0 <= i < slots.len() ==> asked_in_vain(usb, #[trigger] slots[i]),
{
    assert forall|i: int| 0 <= i < slots.len() implies asked_in_vain(usb, #[trigger] slots[i]) by {
        let slot = slots[i];
        lemma_recovers_nowhere(slots, keyfiles, i);
        if slot.enabled && slot.factor == keyslot::Factor::Usb && slot.usb_partition_uuid is Some {
            assert(unlock::answered(usb, slot.usb_partition_uuid.unwrap(), keyfiles[i]));
            if keyfiles[i] is Some {
                let keyfile = keyfiles[i].unwrap();
                assert forall|dek: Seq<u8>| !#[trigger] laws::keys::keyfile_fits(
                    slot,
                    keyfile,
                    dek,
                ) by {
                    laws::keys::lemma_keyfile_fits(slot, keyfile, dek);
                }
            }
            assert(fits_not(slot, keyfiles[i]));
        }
    }
}

/// Whether the probe was asked for every slot in vain, or gave a keyfile that opens a slot to
/// another key than the live one.
pub open spec fn device_missed<U: UsbProbe>(
    usb: &U,
    slots: Seq<keyslot::SlotView>,
    live: Seq<u8>,
) -> bool {
    ||| forall|i: int| 0 <= i < slots.len() ==> asked_in_vain(usb, #[trigger] slots[i])
    ||| exists|i: int, keyfile: Seq<u8>, other: Seq<u8>| #[trigger]
        gave_fitting(usb, slots, i, keyfile, other) && other != live
}

pub proof fn lemma_unseen_is_missed<S: Store, C: Clock, U: UsbProbe>(e: &Engine<S, C, U>)
    requires
        e.usb_seen(false),
        e.state().dek is Some,
    ensures
        device_missed(&e.usb_seam(), e.state().store.slots, e.state().dek.unwrap()),
{
    let slots = e.state().store.slots;
    let live = e.state().dek.unwrap();
    let keyfiles = choose|keyfiles: Seq<Option<Seq<u8>>>| #[trigger]
        e.probe_gave(keyfiles) && keyslot::keyfiles_recover(slots, keyfiles) != Some(live);
    match keyslot::keyfiles_recover(slots, keyfiles) {
        Some(other) => {
            let i = lemma_recovered_somewhere(slots, keyfiles, other);
            let keyfile = keyfiles[i].unwrap();
            laws::keys::lemma_keyfile_fits(slots[i], keyfile, other);
            assert(keyslot::usb_slot(slots[i]) is Some);
            assert(gave_fitting(&e.usb_seam(), slots, i, keyfile, other));
        },
        None => {
            lemma_all_asked_in_vain(&e.usb_seam(), slots, keyfiles);
        },
    }
}

/// The key device of an open vault is missed only where every slot was asked for in vain, or a
/// keyfile opened a slot to another key; and a locked vault has no device.
pub proof fn law_device_is_missed_when_no_slot_opens<S: Store, C: Clock, U: UsbProbe>(
    e: &Engine<S, C, U>,
    possessed: Result<bool, EngineError>,
)
    requires
        call_ensures(Engine::<S, C, U>::possesses_usb, (e,), possessed),
    ensures
        e.state().dek is None ==> possessed != Ok::<bool, EngineError>(true),
        e.reliable(StoreCall::LoadKeyslots) ==> possessed is Ok,
        possessed == Ok::<bool, EngineError>(false) && e.state().dek is Some ==> device_missed(
            &e.usb_seam(),
            e.state().store.slots,
            e.state().dek.unwrap(),
        ),
{
    if possessed == Ok::<bool, EngineError>(false) && e.state().dek is Some {
        lemma_unseen_is_missed(e);
    }
}

/// A request that does not go out, for whatever reason, is charged to nobody and changes no bearer.
pub proof fn law_unsent_request_is_not_charged<S: Store, C: Clock, U: UsbProbe>(
    e: &mut Engine<S, C, U>,
    bearer: &str,
    req: &EgressReq,
    sink: &mut EventSink,
    step: SwapStep,
)
    requires
        call_ensures(Engine::<S, C, U>::relay_swap, (e, bearer, req, sink), step),
        !(step is Send),
    ensures
        final(e).state().relays == old(e).state().relays,
        final(e).state().dek == old(e).state().dek,
        final(e).state().store.secrets == old(e).state().store.secrets,
        final(e).state().store.slots == old(e).state().store.slots,
{
}

/// Whether something that a decision needs is missing, and what it is: a live key, a floor that can
/// be read, or the secret that the policy names, for a request that passes every check.
pub open spec fn lacks<C: Clock>(
    clock: &C,
    s: EngineView,
    token: Seq<char>,
    req: EgressReq,
    reason: Reason,
) -> bool {
    match reason {
        Reason::VaultLocked => s.dek is None,
        Reason::FloorUnreadable => {
            &&& s.dek matches Some(dek)
            &&& exists|b: int, p: int| #[trigger] found_at(s.relays, dek, token, b, p)
            &&& forall|floor_ms: i64| !#[trigger] floor_is(s, floor_ms)
        },
        Reason::KeyUnavailable => {
            &&& s.dek matches Some(dek)
            &&& exists|b: int, p: int, now_ms: i64, floor_ms: i64|
                {
                    &&& #[trigger] found_at(s.relays, dek, token, b, p)
                    &&& seam::timed(clock, now_ms)
                    &&& #[trigger] floor_is(s, floor_ms)
                    &&& #[trigger] passes_all(
                        s.relays.policies[p],
                        s.relays.bearers[b],
                        req,
                        now_ms,
                        floor_ms,
                    )
                    &&& opens_not(s, dek, s.relays.policies[p].secret_name)
                }
        },
        _ => false,
    }
}

/// Whether a request passes every check, with the key device there.
pub open spec fn passes_all(
    p: PolicyView,
    b: BearerView,
    req: EgressReq,
    now_ms: i64,
    floor_ms: i64,
) -> bool {
    forall|r: DenyReason| #[trigger] request_passes(r, p, b, req, now_ms, true, floor_ms)
}

/// Whether the last version of a name, if there is one, does not open.
pub open spec fn opens_not(s: EngineView, dek: Seq<u8>, name: Seq<char>) -> bool {
    forall|i: int, key: Seq<u8>|
        laws::storing::last_of(s.store.secrets, name, i) ==> !#[trigger] row_opens(
            s.store.secrets[i],
            dek,
            key,
        )
}

/// A request is refused without a decision only where something is missing that the decision needs.
/// Nobody is charged, and the row says what was missing, as the refusal does.
pub proof fn law_undecided_request_lacks_something<S: Store, C: Clock, U: UsbProbe>(
    e: &mut Engine<S, C, U>,
    bearer: &str,
    req: &EgressReq,
    sink: &mut EventSink,
    step: SwapStep,
    text: String,
)
    requires
        call_ensures(Engine::<S, C, U>::relay_swap, (e, bearer, req, sink), step),
        step == SwapStep::InternalRefused(text),
        old(e).dependable(),
        old(e).state().store.audit.len() < i64::MAX,
    ensures
        final(e).state().relays == old(e).state().relays,
        final(e).state().dek == old(e).state().dek,
        exists|reason: Reason|
            {
                &&& #[trigger] lacks(&old(e).clock_seam(), old(e).state(), bearer@, *req, reason)
                &&& text@ == reason.words()
                &&& laws::logging::one_row_more(
                    old(e).state().store,
                    final(e).state().store,
                    old(e).state().owner_uid,
                    "relay_swap"@,
                    None,
                    AuditDetail::Cause { reason },
                    AuditOutcome::Failed,
                )
            },
{
    let s = old(e).state();
    let t = final(e).state();
    let canon = relay::canonical(*req);
    let (now_ms, usb) = choose|now_ms: i64, usb: Option<i64>|
        {
            &&& seam::timed(&old(e).clock_seam(), now_ms)
            &&& #[trigger] old(e).usb_marked(usb, now_ms)
            &&& Engine::<S, C, U>::swap_outcome(
                *old(e),
                old(sink)@,
                *final(e),
                final(sink)@,
                bearer@,
                canon,
                now_ms,
                usb,
                step,
            )
        };
    assert(old(e).reliable(StoreCall::GetMeta));
    assert(old(e).reliable(StoreCall::GetSecretLatest));
    assert(old(e).reliable(StoreCall::AppendAudit));
    assert(old(e).reliable(StoreCall::PutMeta));
    let verdict = model::swap_verdict(s, bearer@, canon, now_ms, usb);
    assert(relay::step_is(step, s, verdict));
    assert(verdict is Internal);
    match verdict {
        SwapVerdict::Internal { reason } => {
            laws::logging::law_entry_is_one_row_more(
                s,
                old(sink)@,
                t,
                final(sink)@,
                model::swap_entry(s, verdict),
                Seq::empty(),
            );
            if s.dek is Some {
                let dek = s.dek.unwrap();
                lemma_look_up_is_first(s.relays, dek, bearer@);
                let (b, p) = ledger::looked_up(
                    s.relays,
                    model::bearer_key(dek),
                    bearer@,
                ).unwrap();
                assert(found_at(s.relays, dek, bearer@, b, p));
                if model::stored_floor(s.store) is Some {
                    let floor = model::stored_floor(s.store).unwrap();
                    lemma_key_unavailable(s, dek, *req, now_ms, usb, floor, b, p);
                    assert(floor_is(s, floor));
                    assert(seam::timed(&old(e).clock_seam(), now_ms));
                    assert(passes_all(
                        s.relays.policies[p],
                        s.relays.bearers[b],
                        *req,
                        now_ms,
                        floor,
                    ));
                } else {
                    assert forall|floor_ms: i64| !#[trigger] floor_is(s, floor_ms) by {}
                }
            }
            assert(lacks(&old(e).clock_seam(), s, bearer@, *req, reason));
        },
        _ => {},
    }
}

proof fn lemma_key_unavailable(
    s: EngineView,
    dek: Seq<u8>,
    req: EgressReq,
    now_ms: i64,
    usb: Option<i64>,
    floor_ms: i64,
    b: int,
    p: int,
)
    requires
        ({
            let pol = s.relays.policies[p];
            let claim = model::claim(s.relays.bearers[b]);
            let canon = relay::canonical(req);
            &&& model::decided(pol, claim, canon, now_ms, usb, floor_ms) == RelayDecision::Allow
            &&& match crate::vault::store::latest(s.store.secrets, pol.secret_name) {
                None => true,
                Some(row) => model::row_plaintext(dek, row) is None,
            }
        }),
    ensures
        passes_all(s.relays.policies[p], s.relays.bearers[b], req, now_ms, floor_ms),
        opens_not(s, dek, s.relays.policies[p].secret_name),
{
    let pol = s.relays.policies[p];
    let bearer = s.relays.bearers[b];
    let canon = relay::canonical(req);
    relay::lemma_decision_exists(pol, model::claim(bearer), canon, now_ms, usb, floor_ms);
    lemma_request_passes(DenyReason::GateAbsent, pol, bearer, req, now_ms, usb, floor_ms);
    assert(!decide::fails(
        DenyReason::GateAbsent,
        pol,
        model::claim(bearer),
        canon,
        now_ms,
        usb,
        floor_ms,
    ));
    assert(usb is None);
    assert forall|r: DenyReason| #[trigger]
        request_passes(r, pol, bearer, req, now_ms, true, floor_ms) by {
        lemma_request_passes(r, pol, bearer, req, now_ms, usb, floor_ms);
        assert(!decide::fails(r, pol, model::claim(bearer), canon, now_ms, usb, floor_ms));
    }
    laws::storing::lemma_latest_is_last(s.store.secrets, pol.secret_name);
    assert forall|i: int, key: Seq<u8>|
        laws::storing::last_of(s.store.secrets, pol.secret_name, i) implies !#[trigger] row_opens(
        s.store.secrets[i],
        dek,
        key,
    ) by {
        lemma_row_opens(s.store.secrets[i], dek, key);
    }
}

} // verus!
