//! What the broker guarantees.
use vstd::prelude::*;
use crate::broker::decide;
use crate::broker::decide::{ClaimView, DenyReason, RelayDecision, RequestView};
use crate::broker::ledger;
use crate::broker::ledger::{BearerView, BrokerView};
use crate::broker::policy;
use crate::broker::policy::{Bearer, PolicyView, MAX_BEARER_TTL_SECS};
use crate::engine::model;
use crate::engine::model::{EngineView, MintView, SwapVerdict};
use crate::engine::relay;
use crate::event::EventView;
use crate::vault::store::SecretView;

verus! {

/// A request is allowed only where every single check holds; each other request is denied.
pub proof fn law_allow_needs_every_check(
    p: PolicyView,
    b: ClaimView,
    req: RequestView,
    now_ms: i64,
    usb_absent_since_ms: Option<i64>,
    issuance_floor_ms: i64,
)
    ensures
        decide::is_decision(
            RelayDecision::Allow,
            p,
            b,
            req,
            now_ms,
            usb_absent_since_ms,
            issuance_floor_ms,
        ) <==> {
            &&& b.policy_id == p.id
            &&& p.enabled && !p.revoked && !b.revoked
            &&& now_ms < b.expires_at_ms
            &&& p.expires_at_ms matches Some(end) ==> now_ms < end
            &&& p.hosts.contains(req.host)
            &&& policy::some_prefix(p.path_prefixes, req.path)
            &&& p.methods.contains(req.method)
            &&& p.upstreams.contains(req.host)
            &&& b.client_uid is Some ==> req.peer_uid == b.client_uid
            &&& b.client_pid is Some ==> req.peer_pid == b.client_pid
            &&& req.sni matches Some(sni) ==> sni == req.host
            &&& p.max_requests matches Some(max) ==> p.used_requests < max
            &&& p.max_bytes matches Some(max) ==> p.used_bytes + req.bytes_out <= max
            &&& p.rate matches Some(rate) ==> p.window_requests < rate.max_requests || now_ms
                - p.window_started_ms >= rate.window_ms
            &&& usb_absent_since_ms is None
            &&& issuance_floor_ms <= b.issued_at_ms <= now_ms
        },
{
    let f = |r: DenyReason|
        decide::fails(r, p, b, req, now_ms, usb_absent_since_ms, issuance_floor_ms);
    // Each check by name, so that none is overlooked.
    let checks = seq![
        f(DenyReason::UnknownBearer),
        f(DenyReason::Disabled),
        f(DenyReason::Revoked),
        f(DenyReason::BearerRevoked),
        f(DenyReason::BearerExpired),
        f(DenyReason::PolicyExpired),
        f(DenyReason::HostNotAllowed),
        f(DenyReason::PathNotAllowed),
        f(DenyReason::MethodNotAllowed),
        f(DenyReason::UpstreamNotAllowed),
        f(DenyReason::PeerMismatch),
        f(DenyReason::SniHostMismatch),
        f(DenyReason::BudgetRequests),
        f(DenyReason::BudgetBytes),
        f(DenyReason::RateLimited),
        f(DenyReason::GateAbsent),
        f(DenyReason::ClockRollback),
    ];
    assert(checks.len() == 17);
}

/// No bearer is minted for more than a day, and it is bound to the client that it was minted for.
pub proof fn law_bearers_live_at_most_a_day(
    s: EngineView,
    dek: Seq<u8>,
    mint: MintView,
    now_ms: i64,
    token_bytes: Seq<u8>,
    id_bytes: Seq<u8>,
)
    ensures
        ({
            let row = model::new_bearer(s, dek, mint, now_ms, token_bytes, id_bytes);
            &&& row.issued_at_ms <= row.expires_at_ms
            &&& row.expires_at_ms <= row.issued_at_ms + 1000 * MAX_BEARER_TTL_SECS
            &&& row.client_uid == mint.peer_uid
            &&& row.client_pid == mint.peer_pid
            &&& !row.revoked
        }),
{
}

/// Whether policies are numbered from one on, in their order.
pub open spec fn numbered(policies: Seq<PolicyView>) -> bool {
    forall|i: int| 0 <= i < policies.len() ==> (#[trigger] policies[i]).id == i + 1
}

/// Policies are numbered in their order at all times: minting, revoking and counting keep it so.
pub proof fn law_policies_stay_numbered(
    s: EngineView,
    mint: MintView,
    relay_id: Seq<char>,
    token_id: Seq<char>,
    policy: int,
    bytes_out: u64,
    now_ms: i64,
)
    requires
        numbered(s.relays.policies),
        s.relays.policies.len() < i64::MAX,
        0 <= policy < s.relays.policies.len(),
    ensures
        numbered(s.relays.policies.push(model::new_policy(s, mint))),
        numbered(ledger::without_relay(s.relays, relay_id).policies),
        numbered(ledger::without_bearer(s.relays, token_id).policies),
        numbered(model::with_charge(s, policy, bytes_out, now_ms).relays.policies),
{
}

/// A minted token is swapped for the real key wherever the decision is to allow and the key can be
/// opened, unless its MAC collides with that of an earlier token.
pub proof fn law_minted_bearer_is_swapped(
    s: EngineView,
    before: Seq<EventView>,
    t: EngineView,
    after: Seq<EventView>,
    mint: MintView,
    minted_ms: i64,
    token_bytes: Seq<u8>,
    id_bytes: Seq<u8>,
    bearer: Bearer,
    dek: Seq<u8>,
    req: RequestView,
    now_ms: i64,
    floor_ms: i64,
    row: SecretView,
    key: Seq<u8>,
)
    requires
        model::mint_effect(s, before, t, after, mint, minted_ms, token_bytes, id_bytes, bearer),
        s.dek == Some(dek),
        numbered(s.relays.policies),
        forall|i: int|
            0 <= i < s.relays.bearers.len() ==> (#[trigger] s.relays.bearers[i]).mac
                != crate::broker::token::bearer_mac(model::bearer_key(dek), bearer.token@),
        model::stored_floor(t.store) == Some(floor_ms),
        decide::is_decision(
            RelayDecision::Allow,
            model::new_policy(s, mint),
            model::claim(
                model::new_bearer(s, dek, mint, minted_ms, token_bytes, id_bytes),
            ),
            req,
            now_ms,
            None,
            floor_ms,
        ),
        crate::vault::store::latest(t.store.secrets, mint.policy.secret_name) == Some(row),
        model::row_plaintext(dek, row) == Some(key),
    ensures
        model::swap_verdict(t, bearer.token@, req, now_ms, None) == (SwapVerdict::Send {
            policy: s.relays.policies.len() as int,
            token_id: bearer.token_id@,
            key,
        }),
{
    let n = s.relays.bearers.len() as int;
    let m = s.relays.policies.len() as int;
    let k = model::bearer_key(dek);
    assert forall|i: int| 0 <= i < n implies (#[trigger] t.relays.bearers[i]).mac
        != crate::broker::token::bearer_mac(k, bearer.token@) by {
        assert(t.relays.bearers[i] == s.relays.bearers[i]);
    }
    lemma_bearer_at_is(t.relays.bearers, k, bearer.token@, 0, n);
    assert forall|i: int| 0 <= i < m implies (#[trigger] t.relays.policies[i]).id != m + 1 by {
        assert(t.relays.policies[i] == s.relays.policies[i]);
    }
    lemma_policy_at_is(t.relays.policies, (m + 1) as i64, 0, m);
    relay::lemma_decided(
        RelayDecision::Allow,
        t.relays.policies[m],
        model::claim(t.relays.bearers[n]),
        req,
        now_ms,
        None,
        floor_ms,
    );
}

proof fn lemma_bearer_at_is(
    bearers: Seq<BearerView>,
    key: Seq<u8>,
    token: Seq<char>,
    from: int,
    at: int,
)
    requires
        0 <= from <= at < bearers.len(),
        bearers[at].mac == crate::broker::token::bearer_mac(key, token),
        forall|i: int|
            from <= i < at ==> (#[trigger] bearers[i]).mac != crate::broker::token::bearer_mac(
                key,
                token,
            ),
    ensures
        ledger::bearer_at(bearers, key, token, from) == Some(at),
    decreases at - from,
{
    if from < at {
        assert(bearers[from].mac != crate::broker::token::bearer_mac(key, token));
        lemma_bearer_at_is(bearers, key, token, from + 1, at);
    }
}

proof fn lemma_policy_at_is(policies: Seq<PolicyView>, id: i64, from: int, at: int)
    requires
        0 <= from <= at < policies.len(),
        policies[at].id == id,
        forall|i: int| from <= i < at ==> (#[trigger] policies[i]).id != id,
    ensures
        ledger::policy_at(policies, id, from) == Some(at),
    decreases at - from,
{
    if from < at {
        assert(policies[from].id != id);
        lemma_policy_at_is(policies, id, from + 1, at);
    }
}

proof fn lemma_lookup_in_range(v: BrokerView, key: Seq<u8>, token: Seq<char>)
    ensures
        ledger::looked_up(v, key, token) matches Some((b, p)) ==> {
            &&& 0 <= b < v.bearers.len()
            &&& 0 <= p < v.policies.len()
            &&& v.policies[p].id == v.bearers[b].policy_id
        },
{
    lemma_bearer_in_range(v.bearers, key, token, 0);
    if ledger::bearer_at(v.bearers, key, token, 0) is Some {
        let b = ledger::bearer_at(v.bearers, key, token, 0).unwrap();
        lemma_policy_in_range(v.policies, v.bearers[b].policy_id, 0);
    }
}

proof fn lemma_bearer_in_range(bearers: Seq<BearerView>, key: Seq<u8>, token: Seq<char>, from: int)
    requires
        0 <= from,
    ensures
        ledger::bearer_at(bearers, key, token, from) matches Some(b) ==> from <= b < bearers.len(),
    decreases bearers.len() - from,
{
    if from < bearers.len() {
        lemma_bearer_in_range(bearers, key, token, from + 1);
    }
}

proof fn lemma_policy_in_range(policies: Seq<PolicyView>, id: i64, from: int)
    requires
        0 <= from,
    ensures
        ledger::policy_at(policies, id, from) matches Some(p) ==> from <= p < policies.len()
            && policies[p].id == id,
    decreases policies.len() - from,
{
    if from < policies.len() {
        lemma_policy_in_range(policies, id, from + 1);
    }
}

/// The real key goes out only under a live data key, for a token whose bearer and policy are found,
/// and where the decision is to allow.
pub proof fn law_key_only_inside_allow(
    s: EngineView,
    token: Seq<char>,
    req: RequestView,
    now_ms: i64,
    usb_absent_since_ms: Option<i64>,
)
    requires
        model::swap_verdict(s, token, req, now_ms, usb_absent_since_ms) is Send,
    ensures
        s.dek is Some,
        usb_absent_since_ms is None,
        ({
            let found = ledger::looked_up(s.relays, model::bearer_key(s.dek.unwrap()), token);
            &&& found is Some
            &&& model::stored_floor(s.store) is Some
            &&& decide::is_decision(
                RelayDecision::Allow,
                s.relays.policies[found.unwrap().1],
                model::claim(s.relays.bearers[found.unwrap().0]),
                req,
                now_ms,
                usb_absent_since_ms,
                model::stored_floor(s.store).unwrap(),
            )
        }),
{
    let found = ledger::looked_up(s.relays, model::bearer_key(s.dek.unwrap()), token);
    relay::lemma_decision_exists(
        s.relays.policies[found.unwrap().1],
        model::claim(s.relays.bearers[found.unwrap().0]),
        req,
        now_ms,
        usb_absent_since_ms,
        model::stored_floor(s.store).unwrap(),
    );
    if usb_absent_since_ms is Some {
        relay::lemma_absent_never_sends(s, token, req, now_ms, usb_absent_since_ms);
    }
}

/// Once its lifetime is over, a token is not swapped for a key.
pub proof fn law_expired_bearer_never_sends(
    s: EngineView,
    token: Seq<char>,
    req: RequestView,
    now_ms: i64,
    usb_absent_since_ms: Option<i64>,
)
    requires
        s.dek is Some,
        ledger::looked_up(s.relays, model::bearer_key(s.dek.unwrap()), token) is Some,
        ({
            let (b, p) = ledger::looked_up(
                s.relays,
                model::bearer_key(s.dek.unwrap()),
                token,
            ).unwrap();
            s.relays.bearers[b].expires_at_ms <= now_ms
        }),
    ensures
        !(model::swap_verdict(s, token, req, now_ms, usb_absent_since_ms) is Send),
{
    if model::swap_verdict(s, token, req, now_ms, usb_absent_since_ms) is Send {
        law_key_only_inside_allow(s, token, req, now_ms, usb_absent_since_ms);
        let (b, p) = ledger::looked_up(
            s.relays,
            model::bearer_key(s.dek.unwrap()),
            token,
        ).unwrap();
        assert(decide::fails(
            DenyReason::BearerExpired,
            s.relays.policies[p],
            model::claim(s.relays.bearers[b]),
            req,
            now_ms,
            usb_absent_since_ms,
            model::stored_floor(s.store).unwrap(),
        ));
    }
}

/// After a relay was revoked, no token is swapped for a key under one of its policies.
pub proof fn law_revoked_relay_never_sends(
    s: EngineView,
    t: EngineView,
    relay_id: Seq<char>,
    token: Seq<char>,
    req: RequestView,
    now_ms: i64,
    usb_absent_since_ms: Option<i64>,
)
    requires
        t.relays == ledger::without_relay(s.relays, relay_id),
        t.dek is Some,
        ledger::looked_up(t.relays, model::bearer_key(t.dek.unwrap()), token) is Some,
        ({
            let (b, p) = ledger::looked_up(
                t.relays,
                model::bearer_key(t.dek.unwrap()),
                token,
            ).unwrap();
            t.relays.policies[p].relay_id == relay_id
        }),
    ensures
        !(model::swap_verdict(t, token, req, now_ms, usb_absent_since_ms) is Send),
{
    if model::swap_verdict(t, token, req, now_ms, usb_absent_since_ms) is Send {
        law_key_only_inside_allow(t, token, req, now_ms, usb_absent_since_ms);
        let key = model::bearer_key(t.dek.unwrap());
        let (b, p) = ledger::looked_up(t.relays, key, token).unwrap();
        lemma_lookup_in_range(t.relays, key, token);
        assert(t.relays.policies[p] == ledger::revoked_policy(s.relays.policies[p], relay_id));
        assert(decide::fails(
            DenyReason::Revoked,
            t.relays.policies[p],
            model::claim(t.relays.bearers[b]),
            req,
            now_ms,
            usb_absent_since_ms,
            model::stored_floor(t.store).unwrap(),
        ));
    }
}

/// After a bearer was revoked, its token is not swapped for a key.
pub proof fn law_revoked_bearer_never_sends(
    s: EngineView,
    t: EngineView,
    token_id: Seq<char>,
    token: Seq<char>,
    req: RequestView,
    now_ms: i64,
    usb_absent_since_ms: Option<i64>,
)
    requires
        t.relays == ledger::without_bearer(s.relays, token_id),
        t.dek is Some,
        ledger::looked_up(t.relays, model::bearer_key(t.dek.unwrap()), token) is Some,
        ({
            let (b, p) = ledger::looked_up(
                t.relays,
                model::bearer_key(t.dek.unwrap()),
                token,
            ).unwrap();
            t.relays.bearers[b].token_id == token_id
        }),
    ensures
        !(model::swap_verdict(t, token, req, now_ms, usb_absent_since_ms) is Send),
{
    if model::swap_verdict(t, token, req, now_ms, usb_absent_since_ms) is Send {
        law_key_only_inside_allow(t, token, req, now_ms, usb_absent_since_ms);
        let key = model::bearer_key(t.dek.unwrap());
        let (b, p) = ledger::looked_up(t.relays, key, token).unwrap();
        lemma_lookup_in_range(t.relays, key, token);
        assert(t.relays.bearers[b] == ledger::revoked_bearer(s.relays.bearers[b], token_id));
        assert(decide::fails(
            DenyReason::BearerRevoked,
            t.relays.policies[p],
            model::claim(t.relays.bearers[b]),
            req,
            now_ms,
            usb_absent_since_ms,
            model::stored_floor(t.store).unwrap(),
        ));
    }
}

/// Revoking twice flips nothing the second time.
pub proof fn law_revoking_twice_flips_nothing(v: BrokerView, relay_id: Seq<char>)
    ensures
        ({
            let once = ledger::without_relay(v, relay_id);
            &&& ledger::without_relay(once, relay_id) == once
            &&& ledger::flipped(once, ledger::without_relay(once, relay_id)) == 0
        }),
{
    let once = ledger::without_relay(v, relay_id);
    let twice = ledger::without_relay(once, relay_id);
    assert(twice.policies =~= once.policies);
    assert forall|i: int| 0 <= i < once.bearers.len() implies twice.bearers[i]
        == once.bearers[i] by {
        let b = v.bearers[i];
        if ledger::of_relay(once.policies, relay_id, b.policy_id) {
            let k = choose|k: int|
                0 <= k < once.policies.len() && (#[trigger] once.policies[k]).id == b.policy_id
                    && once.policies[k].relay_id == relay_id;
            assert(once.policies[k] == ledger::revoked_policy(v.policies[k], relay_id));
            assert(v.policies[k].id == b.policy_id && v.policies[k].relay_id == relay_id);
            assert(ledger::of_relay(v.policies, relay_id, b.policy_id));
        }
    }
    assert(twice.bearers =~= once.bearers);
    lemma_nothing_flipped(once, once.policies.len(), once.bearers.len());
}

proof fn lemma_nothing_flipped(v: BrokerView, p: nat, b: nat)
    ensures
        ledger::changed_policies(v.policies, v.policies, p) == 0,
        ledger::changed_bearers(v.bearers, v.bearers, b) == 0,
    decreases p + b,
{
    if p > 0 {
        lemma_nothing_flipped(v, (p - 1) as nat, b);
    } else if b > 0 {
        lemma_nothing_flipped(v, p, (b - 1) as nat);
    }
}

/// Every request that goes out uses up one of the requests of its policy, and a policy that has
/// none left denies.
pub proof fn law_requests_are_used_up(p: PolicyView, bytes_out: u64, now_ms: i64, max: u64)
    requires
        p.max_requests == Some(max),
        !decide::requests_spent(p),
    ensures
        ({
            let q = ledger::charged(p, bytes_out, now_ms);
            &&& q.used_requests == p.used_requests + 1
            &&& q.max_requests == p.max_requests
            &&& decide::requests_spent(q) <==> p.used_requests + 1 == max
        }),
{
}

} // verus!
