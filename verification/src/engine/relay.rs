//! Minting, revoking and swapping relay bearers.
use vstd::prelude::*;
use crate::broker::decide;
use crate::broker::decide::{
    CanonRequest, ClaimView, DenyReason, RelayDecision, RequestView, VerifiedBearer,
};
use crate::broker::ledger;
use crate::broker::ledger::BearerRow;
use crate::broker::policy::{clamp_ttl, Bearer, Method, PolicyView, RelayPolicy};
use crate::broker::token::mac_bearer;
use crate::codec;
use crate::engine::model;
use crate::engine::model::{EngineView, MintView, SwapVerdict};
use crate::engine::unlock::{load_issuance_floor, recover_by_usb};
use crate::engine::Engine;
use crate::entropy::random_bytes;
use crate::error::EngineError;
use crate::event::{AuditDetail, EventSink, EventView, Reason};
use crate::keyslot::{Dek, Keyslot};
use crate::primitives::{ct_eq, derive_key, wipe_bytes, wipe_key};
use crate::seam::{Clock, Timestamp, UsbProbe};
use crate::vault::aad::{record_aad, TableTag};
use crate::vault::crypto;
use crate::vault::store::{SecretRow, Store, StoreCall};

verus! {

/// An egress request as the broker sees it. The host is the verified inner one.
#[derive(Clone, Debug)]
pub struct EgressReq {
    pub method: Method,
    pub host: String,
    pub path: String,
    pub headers: Vec<(String, String)>,
    pub bytes_out: u64,
    pub peer_uid: Option<u32>,
    pub peer_pid: Option<u32>,
}

/// What came back from upstream.
#[derive(Clone, Debug)]
pub struct EgressResp {
    pub status: u16,
    pub headers: Vec<(String, String)>,
    pub allowed: bool,
}

/// How a request through the broker ended.
pub enum SwapOutcome {
    Allowed(EgressResp),
    Denied(DenyReason),
    InternalRefused(String),
}

/// What to do with a request: only `Send` comes with the real key.
pub enum SwapStep {
    Send { policy_id: i64, key: Vec<u8> },
    Denied(DenyReason),
    InternalRefused(String),
}

/// What a step says.
pub open spec fn step_is(step: SwapStep, s: EngineView, verdict: SwapVerdict) -> bool {
    match verdict {
        SwapVerdict::Internal { reason } => step matches SwapStep::InternalRefused(text) && text@
            == reason.words(),
        SwapVerdict::Denied { subject, reason } => step == SwapStep::Denied(reason),
        SwapVerdict::Send { policy, token_id, key } => step matches SwapStep::Send {
            policy_id,
            key: k,
        } && policy_id == s.relays.policies[policy].id && k@ == key,
    }
}

/// What the decision sees of a request.
pub open spec fn canonical(req: EgressReq) -> RequestView {
    RequestView {
        method: req.method,
        host: req.host@,
        sni: None,
        path: req.path@,
        bytes_out: req.bytes_out,
        peer_uid: req.peer_uid,
        peer_pid: req.peer_pid,
    }
}

/// No two decisions on one request are right.
pub proof fn lemma_decided(
    d: RelayDecision,
    p: PolicyView,
    b: ClaimView,
    req: RequestView,
    now_ms: i64,
    usb_absent_since_ms: Option<i64>,
    issuance_floor_ms: i64,
)
    requires
        decide::is_decision(d, p, b, req, now_ms, usb_absent_since_ms, issuance_floor_ms),
    ensures
        d == model::decided(p, b, req, now_ms, usb_absent_since_ms, issuance_floor_ms),
{
    let e = model::decided(p, b, req, now_ms, usb_absent_since_ms, issuance_floor_ms);
    assert(decide::is_decision(e, p, b, req, now_ms, usb_absent_since_ms, issuance_floor_ms));
    match (d, e) {
        (RelayDecision::Deny { reason: r1 }, RelayDecision::Deny { reason: r2 }) => {
            assert(r1.code() == r2.code());
        },
        (RelayDecision::Deny { reason }, RelayDecision::Allow) => {
            assert(decide::fails(
                reason,
                p,
                b,
                req,
                now_ms,
                usb_absent_since_ms,
                issuance_floor_ms,
            ));
        },
        (RelayDecision::Allow, RelayDecision::Deny { reason }) => {
            assert(decide::fails(
                reason,
                p,
                b,
                req,
                now_ms,
                usb_absent_since_ms,
                issuance_floor_ms,
            ));
        },
        (RelayDecision::Allow, RelayDecision::Allow) => {},
    }
}

/// Every request has a decision.
pub proof fn lemma_decision_exists(
    p: PolicyView,
    b: ClaimView,
    req: RequestView,
    now_ms: i64,
    usb_absent_since_ms: Option<i64>,
    issuance_floor_ms: i64,
)
    ensures
        decide::is_decision(
            model::decided(p, b, req, now_ms, usb_absent_since_ms, issuance_floor_ms),
            p,
            b,
            req,
            now_ms,
            usb_absent_since_ms,
            issuance_floor_ms,
        ),
{
    let f = |r: DenyReason|
        decide::fails(r, p, b, req, now_ms, usb_absent_since_ms, issuance_floor_ms);
    let d = if f(DenyReason::UnknownBearer) {
        RelayDecision::Deny { reason: DenyReason::UnknownBearer }
    } else if f(DenyReason::Disabled) {
        RelayDecision::Deny { reason: DenyReason::Disabled }
    } else if f(DenyReason::Revoked) {
        RelayDecision::Deny { reason: DenyReason::Revoked }
    } else if f(DenyReason::BearerRevoked) {
        RelayDecision::Deny { reason: DenyReason::BearerRevoked }
    } else if f(DenyReason::BearerExpired) {
        RelayDecision::Deny { reason: DenyReason::BearerExpired }
    } else if f(DenyReason::PolicyExpired) {
        RelayDecision::Deny { reason: DenyReason::PolicyExpired }
    } else if f(DenyReason::HostNotAllowed) {
        RelayDecision::Deny { reason: DenyReason::HostNotAllowed }
    } else if f(DenyReason::PathNotAllowed) {
        RelayDecision::Deny { reason: DenyReason::PathNotAllowed }
    } else if f(DenyReason::MethodNotAllowed) {
        RelayDecision::Deny { reason: DenyReason::MethodNotAllowed }
    } else if f(DenyReason::UpstreamNotAllowed) {
        RelayDecision::Deny { reason: DenyReason::UpstreamNotAllowed }
    } else if f(DenyReason::PeerMismatch) {
        RelayDecision::Deny { reason: DenyReason::PeerMismatch }
    } else if f(DenyReason::SniHostMismatch) {
        RelayDecision::Deny { reason: DenyReason::SniHostMismatch }
    } else if f(DenyReason::BudgetRequests) {
        RelayDecision::Deny { reason: DenyReason::BudgetRequests }
    } else if f(DenyReason::BudgetBytes) {
        RelayDecision::Deny { reason: DenyReason::BudgetBytes }
    } else if f(DenyReason::RateLimited) {
        RelayDecision::Deny { reason: DenyReason::RateLimited }
    } else if f(DenyReason::GateAbsent) {
        RelayDecision::Deny { reason: DenyReason::GateAbsent }
    } else if f(DenyReason::ClockRollback) {
        RelayDecision::Deny { reason: DenyReason::ClockRollback }
    } else {
        RelayDecision::Allow
    };
    assert(decide::is_decision(d, p, b, req, now_ms, usb_absent_since_ms, issuance_floor_ms));
}

/// The end of a granted lifetime, as far as the clock goes.
fn expires_at(now_ms: i64, ttl_secs: i64) -> (end: i64)
    requires
        0 <= ttl_secs <= crate::broker::policy::MAX_BEARER_TTL_SECS,
    ensures
        end == model::expiry(now_ms, ttl_secs as int),
{
    let life: i64 = ttl_secs * 1000;
    if now_ms > i64::MAX - life {
        i64::MAX
    } else {
        now_ms + life
    }
}

/// The outcome of a request for what its upstream answered. An upstream that failed is refused, not
/// tried again.
pub fn finish_swap(reply: Result<EgressResp, String>) -> (outcome: SwapOutcome)
    ensures
        match reply {
            Ok(resp) => outcome == SwapOutcome::Allowed(resp),
            Err(why) => outcome == SwapOutcome::InternalRefused(why),
        },
{
    match reply {
        Ok(resp) => SwapOutcome::Allowed(resp),
        Err(why) => SwapOutcome::InternalRefused(why),
    }
}

impl<S: Store, C: Clock, U: UsbProbe> Engine<S, C, U> {
    /// Whether the key device is there: a keyfile on it opens a slot to the live data key. Without
    /// a live key it is not.
    pub fn possesses_usb(&self) -> (possessed: Result<bool, EngineError>)
        ensures
            match possessed {
                Ok(there) => self.usb_seen(there),
                Err(e) => e is Store && !self.reliable(StoreCall::LoadKeyslots),
            },
    {
        let slots: Vec<Keyslot> = match self.store.load_keyslots() {
            Ok(slots) => slots,
            Err(e) => {
                return Err(EngineError::Store(e));
            },
        };
        let live: &Dek = match self.vault.dek() {
            Some(dek) => dek,
            None => {
                return Ok(false);
            },
        };
        let recovered: Option<Dek> = recover_by_usb(&self.usb, slots.as_slice());
        let ghost gave = choose|keyfiles: Seq<Option<Seq<u8>>>| #[trigger]
            crate::engine::unlock::probed(
                &self.usb,
                crate::keyslot::slot_views(slots@),
                keyfiles,
            ) && crate::keyslot::dek_view(recovered) == crate::keyslot::keyfiles_recover(
                crate::keyslot::slot_views(slots@),
                keyfiles,
            );
        assert(self.probe_gave(gave));
        match recovered {
            Some(dek) => Ok(ct_eq(dek.0.as_slice(), live.0.as_slice())),
            None => Ok(false),
        }
    }

    /// Mints a bearer at a given time and from given random bytes. The audit row is written before
    /// the bearer becomes live.
    pub fn mint_with(
        &mut self,
        spec_policy: RelayPolicy,
        requested_ttl_secs: i64,
        peer_uid: Option<u32>,
        peer_pid: Option<u32>,
        now_ms: i64,
        token_bytes: &[u8],
        id_bytes: &[u8],
        sink: &mut EventSink,
    ) -> (result: Result<Bearer, EngineError>)
        ensures
            match result {
                Ok(bearer) => model::mint_effect(
                    old(self).state(),
                    old(sink)@,
                    final(self).state(),
                    final(sink)@,
                    MintView { policy: spec_policy@, requested_ttl_secs, peer_uid, peer_pid },
                    now_ms,
                    token_bytes@,
                    id_bytes@,
                    bearer,
                ),
                Err(EngineError::Locked) => {
                    &&& old(self).state().dek is None
                    &&& final(self).state() == old(self).state()
                    &&& final(sink)@ == old(sink)@
                },
                Err(EngineError::PoliciesExhausted) => {
                    &&& old(self).state().relays.policies.len() >= i64::MAX
                    &&& final(self).state() == old(self).state()
                    &&& final(sink)@ == old(sink)@
                },
                Err(e) => {
                    &&& e is Store
                    &&& !(old(self).logs_surely() && model::has_room(old(self).state()))
                    &&& model::unfinished(
                        old(self).state(),
                        old(sink)@,
                        final(self).state(),
                        final(sink)@,
                        model::minted_entry(
                            old(self).state(),
                            MintView {
                                policy: spec_policy@,
                                requested_ttl_secs,
                                peer_uid,
                                peer_pid,
                            },
                        ),
                    )
                },
            },
            old(self).state().dek is None ==> result == Err::<Bearer, EngineError>(
                EngineError::Locked,
            ),
            final(self).continues(*old(self)),
    {
        let ghost s = self.state();
        let ghost mint = MintView {
            policy: spec_policy@,
            requested_ttl_secs,
            peer_uid,
            peer_pid,
        };
        let mut key: [u8; 32] = match self.vault.dek() {
            Some(dek) => derive_key("env-ctl/v1/bearer/key", dek.0.as_slice()),
            None => {
                return Err(EngineError::Locked);
            },
        };
        let n: usize = self.broker.policies.len();
        if n as u64 >= i64::MAX as u64 {
            wipe_key(&mut key);
            return Err(EngineError::PoliciesExhausted);
        }
        let policy_id: i64 = (n as i64) + 1;
        let ttl_secs: i64 = clamp_ttl(requested_ttl_secs);
        let expires_at_ms: i64 = expires_at(now_ms, ttl_secs);
        let token: String = "evrelay_".to_owned().concat(codec::hex_encode(token_bytes).as_str());
        let token_id: String = codec::hex_encode(id_bytes);
        let mac: Vec<u8> = mac_bearer(&key, token.as_str());
        wipe_key(&mut key);
        let mut policy: RelayPolicy = spec_policy;
        policy.id = policy_id;
        match self.audit_ok(
            sink,
            "relay_mint",
            Some(policy.relay_id.clone()),
            AuditDetail::Minted { policy_id, ttl_secs },
        ) {
            Ok(_) => {},
            Err(e) => {
                return Err(e);
            },
        }
        let row = BearerRow {
            policy_id,
            token_id: token_id.clone(),
            mac,
            issued_at_ms: now_ms,
            expires_at_ms,
            client_uid: peer_uid,
            client_pid: peer_pid,
            revoked: false,
        };
        proof {
            assert(policy@ == model::new_policy(s, mint));
            assert(row@ == model::new_bearer(
                s,
                s.dek.unwrap(),
                mint,
                now_ms,
                token_bytes@,
                id_bytes@,
            ));
        }
        self.broker.enlist(policy, row);
        Ok(Bearer { policy_id, token_id, token, issued_at_ms: now_ms, expires_at_ms })
    }

    /// Mints a bearer that lives for at most a day and is bound to its client. The key device has
    /// to be there.
    pub fn relay_mint(
        &mut self,
        spec_policy: RelayPolicy,
        requested_ttl_secs: i64,
        peer_uid: Option<u32>,
        peer_pid: Option<u32>,
        sink: &mut EventSink,
    ) -> (result: Result<Bearer, EngineError>)
        ensures
            match result {
                Ok(bearer) => {
                    &&& old(self).usb_seen(true)
                    &&& exists|now_ms: i64, token_bytes: Seq<u8>, id_bytes: Seq<u8>|
                        {
                            &&& #[trigger] model::mint_effect(
                                old(self).state(),
                                old(sink)@,
                                final(self).state(),
                                final(sink)@,
                                MintView {
                                    policy: spec_policy@,
                                    requested_ttl_secs,
                                    peer_uid,
                                    peer_pid,
                                },
                                now_ms,
                                token_bytes,
                                id_bytes,
                                bearer,
                            )
                            &&& crate::seam::timed(&old(self).clock_seam(), now_ms)
                            &&& token_bytes.len() == 32
                            &&& crate::entropy::drawn(32, token_bytes)
                            &&& id_bytes.len() == 16
                            &&& crate::entropy::drawn(16, id_bytes)
                        }
                },
                Err(EngineError::Locked) => {
                    &&& old(self).state().dek is None
                    &&& final(self).state() == old(self).state()
                    &&& final(sink)@ == old(sink)@
                },
                Err(EngineError::UsbRequired) => {
                    &&& old(self).usb_seen(false)
                    &&& model::recorded(
                        old(self).state(),
                        old(sink)@,
                        final(self).state(),
                        final(sink)@,
                        model::refused_entry(
                            "relay_mint"@,
                            spec_policy@.relay_id,
                            AuditDetail::Cause { reason: Reason::KeyDeviceAbsent },
                        ),
                        seq![
                            EventView::GuardRefused {
                                subject: spec_policy@.relay_id,
                                reason: Reason::KeyDeviceAbsent.words(),
                            },
                        ],
                    )
                },
                Err(EngineError::EntropyUnavailable) => {
                    &&& old(self).usb_seen(true)
                    &&& crate::entropy::none_drawn(32) || crate::entropy::none_drawn(16)
                    &&& final(self).state() == old(self).state()
                    &&& final(sink)@ == old(sink)@
                },
                Err(EngineError::PoliciesExhausted) => {
                    &&& old(self).usb_seen(true)
                    &&& old(self).state().relays.policies.len() >= i64::MAX
                    &&& final(self).state() == old(self).state()
                    &&& final(sink)@ == old(sink)@
                },
                Err(e) => {
                    &&& e is Store
                    &&& !(old(self).reliable(StoreCall::LoadKeyslots) && old(self).logs_surely()
                        && model::has_room(old(self).state()))
                    &&& {
                        ||| {
                            &&& !old(self).reliable(StoreCall::LoadKeyslots)
                            &&& final(self).state() == old(self).state()
                            &&& final(sink)@ == old(sink)@
                        }
                        ||| old(self).usb_seen(false) && model::unfinished(
                            old(self).state(),
                            old(sink)@,
                            final(self).state(),
                            final(sink)@,
                            model::refused_entry(
                                "relay_mint"@,
                                spec_policy@.relay_id,
                                AuditDetail::Cause { reason: Reason::KeyDeviceAbsent },
                            ),
                        )
                        ||| old(self).usb_seen(true) && model::unfinished(
                            old(self).state(),
                            old(sink)@,
                            final(self).state(),
                            final(sink)@,
                            model::minted_entry(
                                old(self).state(),
                                MintView {
                                    policy: spec_policy@,
                                    requested_ttl_secs,
                                    peer_uid,
                                    peer_pid,
                                },
                            ),
                        )
                    }
                },
            },
            old(self).state().dek is None ==> result == Err::<Bearer, EngineError>(
                EngineError::Locked,
            ),
            final(self).continues(*old(self)),
    {
        if !self.vault.is_unlocked() {
            return Err(EngineError::Locked);
        }
        let possessed: bool = match self.possesses_usb() {
            Ok(possessed) => possessed,
            Err(e) => {
                return Err(e);
            },
        };
        if !possessed {
            return match self.refuse(
                sink,
                "relay_mint",
                spec_policy.relay_id.as_str(),
                Reason::KeyDeviceAbsent,
            ) {
                Ok(_) => Err(EngineError::UsbRequired),
                Err(e) => Err(e),
            };
        }
        let mut token_bytes: Vec<u8> = match random_bytes(32) {
            Ok(bytes) => bytes,
            Err(e) => {
                return Err(e);
            },
        };
        let id_bytes: Vec<u8> = match random_bytes(16) {
            Ok(bytes) => bytes,
            Err(e) => {
                wipe_bytes(&mut token_bytes);
                return Err(e);
            },
        };
        let ghost token_seq = token_bytes@;
        let now: Timestamp = self.clock.now();
        let now_ms: i64 = now.ms;
        assert(crate::seam::told(&self.clock, now));
        assert(crate::seam::timed(&old(self).clock_seam(), now_ms));
        let result: Result<Bearer, EngineError> = self.mint_with(
            spec_policy,
            requested_ttl_secs,
            peer_uid,
            peer_pid,
            now_ms,
            token_bytes.as_slice(),
            id_bytes.as_slice(),
            sink,
        );
        wipe_bytes(&mut token_bytes);
        assert(token_seq.len() == 32);
        result
    }

    /// Revokes all policies of a relay and all their bearers, and counts what was flipped. Without
    /// `apply` nothing is flipped. What was flipped stays so even where the audit row cannot be
    /// written.
    pub fn relay_revoke(&mut self, relay_id: &str, apply: bool, sink: &mut EventSink) -> (result:
        Result<u32, EngineError>)
        ensures
            final(self).state().relays == (if apply {
                ledger::without_relay(old(self).state().relays, relay_id@)
            } else {
                old(self).state().relays
            }),
            match result {
                Ok(count) => if apply {
                    let flipped = EngineView {
                        relays: final(self).state().relays,
                        ..old(self).state()
                    };
                    &&& count == ledger::flipped(
                        old(self).state().relays,
                        final(self).state().relays,
                    )
                    &&& model::recorded(
                        flipped,
                        old(sink)@,
                        final(self).state(),
                        final(sink)@,
                        model::revoked_entry("relay_revoke"@, relay_id@, count),
                        Seq::empty(),
                    )
                } else {
                    &&& count == 0
                    &&& model::recorded(
                        old(self).state(),
                        old(sink)@,
                        final(self).state(),
                        final(sink)@,
                        model::refused_entry(
                            "relay_revoke"@,
                            relay_id@,
                            AuditDetail::Cause { reason: Reason::RevokeDryRun },
                        ),
                        seq![
                            EventView::GuardRefused {
                                subject: relay_id@,
                                reason: Reason::RevokeDryRun.words(),
                            },
                        ],
                    )
                },
                Err(e) => {
                    &&& e is Store
                    &&& !(old(self).logs_surely() && model::has_room(old(self).state()))
                    &&& model::unfinished(
                        EngineView { relays: final(self).state().relays, ..old(self).state() },
                        old(sink)@,
                        final(self).state(),
                        final(sink)@,
                        if apply {
                            model::revoked_entry(
                                "relay_revoke"@,
                                relay_id@,
                                ledger::flipped(
                                    old(self).state().relays,
                                    final(self).state().relays,
                                ),
                            )
                        } else {
                            model::refused_entry(
                                "relay_revoke"@,
                                relay_id@,
                                AuditDetail::Cause { reason: Reason::RevokeDryRun },
                            )
                        },
                    )
                },
            },
            final(self).continues(*old(self)),
    {
        if !apply {
            return match self.refuse(sink, "relay_revoke", relay_id, Reason::RevokeDryRun) {
                Ok(_) => Ok(0),
                Err(e) => Err(e),
            };
        }
        let count: u32 = self.broker.revoke_relay(relay_id);
        match self.audit_ok(
            sink,
            "relay_revoke",
            Some(relay_id.to_owned()),
            AuditDetail::Revoked { count },
        ) {
            Ok(_) => Ok(count),
            Err(e) => Err(e),
        }
    }

    /// Revokes a single bearer. Without `apply` nothing is flipped. What was flipped stays so even
    /// where the audit row cannot be written.
    pub fn relay_revoke_bearer(&mut self, token_id: &str, apply: bool, sink: &mut EventSink) -> (
    result: Result<u32, EngineError>)
        ensures
            final(self).state().relays == (if apply {
                ledger::without_bearer(old(self).state().relays, token_id@)
            } else {
                old(self).state().relays
            }),
            match result {
                Ok(count) => if apply {
                    let flipped = EngineView {
                        relays: final(self).state().relays,
                        ..old(self).state()
                    };
                    &&& count == ledger::flipped(
                        old(self).state().relays,
                        final(self).state().relays,
                    )
                    &&& model::recorded(
                        flipped,
                        old(sink)@,
                        final(self).state(),
                        final(sink)@,
                        model::revoked_entry("relay_revoke_bearer"@, token_id@, count),
                        Seq::empty(),
                    )
                } else {
                    &&& count == 0
                    &&& model::recorded(
                        old(self).state(),
                        old(sink)@,
                        final(self).state(),
                        final(sink)@,
                        model::refused_entry(
                            "relay_revoke_bearer"@,
                            token_id@,
                            AuditDetail::Cause { reason: Reason::RevokeDryRun },
                        ),
                        seq![
                            EventView::GuardRefused {
                                subject: token_id@,
                                reason: Reason::RevokeDryRun.words(),
                            },
                        ],
                    )
                },
                Err(e) => {
                    &&& e is Store
                    &&& !(old(self).logs_surely() && model::has_room(old(self).state()))
                    &&& model::unfinished(
                        EngineView { relays: final(self).state().relays, ..old(self).state() },
                        old(sink)@,
                        final(self).state(),
                        final(sink)@,
                        if apply {
                            model::revoked_entry(
                                "relay_revoke_bearer"@,
                                token_id@,
                                ledger::flipped(
                                    old(self).state().relays,
                                    final(self).state().relays,
                                ),
                            )
                        } else {
                            model::refused_entry(
                                "relay_revoke_bearer"@,
                                token_id@,
                                AuditDetail::Cause { reason: Reason::RevokeDryRun },
                            )
                        },
                    )
                },
            },
            final(self).continues(*old(self)),
    {
        if !apply {
            return match self.refuse(sink, "relay_revoke_bearer", token_id, Reason::RevokeDryRun) {
                Ok(_) => Ok(0),
                Err(e) => Err(e),
            };
        }
        let count: u32 = self.broker.revoke_bearer(token_id);
        match self.audit_ok(
            sink,
            "relay_revoke_bearer",
            Some(token_id.to_owned()),
            AuditDetail::Revoked { count },
        ) {
            Ok(_) => Ok(count),
            Err(e) => Err(e),
        }
    }

    /// The real key of a policy, opened. Nothing where it is missing or does not authenticate.
    fn real_key(&self, secret_name: &str) -> (key: Result<Option<Vec<u8>>, EngineError>)
        ensures
            match key {
                Ok(k) => self.state().dek matches Some(dek) ==> codec::bytes_view(k) == (
                match crate::vault::store::latest(self.state().store.secrets, secret_name@) {
                    Some(row) => model::row_plaintext(dek, row),
                    None => None,
                }),
                Err(e) => e is Store && !self.reliable(StoreCall::GetSecretLatest),
            },
    {
        let row: SecretRow = match self.store.get_secret_latest(secret_name) {
            Ok(Some(row)) => row,
            Ok(None) => {
                return Ok(None);
            },
            Err(e) => {
                return Err(EngineError::Store(e));
            },
        };
        let aad: Vec<u8> = record_aad(
            TableTag::SecretVersion,
            row.row_id,
            row.version as i64,
            row.dek_generation,
        );
        match self.vault.dek() {
            Some(dek) => Ok(
                crypto::open(dek, aad.as_slice(), row.nonce.as_slice(), row.ct_tag.as_slice()),
            ),
            None => Ok(None),
        }
    }

    /// Whether a mark for the absence of the key device is right: there is none where the device
    /// was seen, and one of this moment where it was not, or the slots could not be read.
    pub open spec fn usb_marked(&self, usb_absent_since_ms: Option<i64>, now_ms: i64) -> bool {
        match usb_absent_since_ms {
            None => self.usb_seen(true),
            Some(since) => since == now_ms && (self.usb_seen(false) || !self.reliable(
                StoreCall::LoadKeyslots,
            )),
        }
    }

    /// Whether the store may fail to give what a request asks for: the issuance floor for a known
    /// bearer, or the real key for a request that is allowed.
    pub open spec fn swap_bereft(&self, bearer: Seq<char>, verdict: SwapVerdict) -> bool {
        ||| {
            &&& !self.reliable(StoreCall::GetMeta)
            &&& self.state().dek matches Some(dek)
            &&& ledger::looked_up(self.state().relays, model::bearer_key(dek), bearer) is Some
        }
        ||| {
            &&& !self.reliable(StoreCall::GetSecretLatest)
            &&& verdict is Send || verdict == (SwapVerdict::Internal {
                reason: Reason::KeyUnavailable,
            })
        }
    }

    /// What deciding on a request gives and leaves. It ends as the verdict says, with its row
    /// written. Where the store does not give what is needed, the request is refused, and a row
    /// says that the store failed. Where the row itself cannot be written, the request is refused
    /// and nothing is told.
    pub open spec fn swap_outcome(
        before: Self,
        events_before: Seq<EventView>,
        after: Self,
        events_after: Seq<EventView>,
        bearer: Seq<char>,
        req: RequestView,
        now_ms: i64,
        usb_absent_since_ms: Option<i64>,
        step: SwapStep,
    ) -> bool {
        let s = before.state();
        let t = after.state();
        let verdict = model::swap_verdict(s, bearer, req, now_ms, usb_absent_since_ms);
        let failed = SwapVerdict::Internal { reason: Reason::StoreFailed };
        ||| {
            &&& step_is(step, s, verdict)
            &&& model::swap_effect(
                s,
                events_before,
                t,
                events_after,
                verdict,
                req.bytes_out,
                now_ms,
            )
        }
        ||| {
            &&& before.swap_bereft(bearer, verdict)
            &&& step_is(step, s, failed)
            &&& model::swap_effect(
                s,
                events_before,
                t,
                events_after,
                failed,
                req.bytes_out,
                now_ms,
            )
        }
        ||| {
            &&& step is InternalRefused
            &&& !(before.logs_surely() && model::has_room(s))
            &&& {
                ||| model::unfinished(
                    s,
                    events_before,
                    t,
                    events_after,
                    model::swap_entry(s, verdict),
                )
                ||| before.swap_bereft(bearer, verdict) && model::unfinished(
                    s,
                    events_before,
                    t,
                    events_after,
                    model::swap_entry(s, failed),
                )
            }
        }
    }

    /// Refuses a swap for a reason of the engine's own.
    fn refuse_internally(&mut self, reason: Reason, sink: &mut EventSink) -> (step: SwapStep)
        ensures
            step is InternalRefused,
            ({
                let verdict = SwapVerdict::Internal { reason };
                let logged = {
                    &&& step_is(step, old(self).state(), verdict)
                    &&& model::swap_effect(
                        old(self).state(),
                        old(sink)@,
                        final(self).state(),
                        final(sink)@,
                        verdict,
                        0,
                        0,
                    )
                };
                &&& logged || model::unfinished(
                    old(self).state(),
                    old(sink)@,
                    final(self).state(),
                    final(sink)@,
                    model::swap_entry(old(self).state(), verdict),
                )
                &&& old(self).logs_surely() && model::has_room(old(self).state()) ==> logged
            }),
            final(self).continues(*old(self)),
    {
        match self.audit_failed(sink, "relay_swap", None, AuditDetail::Cause { reason }) {
            Ok(_) => SwapStep::InternalRefused(reason.text()),
            Err(e) => SwapStep::InternalRefused(e.message()),
        }
    }

    /// Refuses a swap by the decision.
    fn deny(&mut self, subject: &str, reason: DenyReason, sink: &mut EventSink) -> (step: SwapStep)
        ensures
            step is InternalRefused || step == SwapStep::Denied(reason),
            ({
                let verdict = SwapVerdict::Denied { subject: subject@, reason };
                if step is Denied {
                    model::swap_effect(
                        old(self).state(),
                        old(sink)@,
                        final(self).state(),
                        final(sink)@,
                        verdict,
                        0,
                        0,
                    )
                } else {
                    model::unfinished(
                        old(self).state(),
                        old(sink)@,
                        final(self).state(),
                        final(sink)@,
                        model::swap_entry(old(self).state(), verdict),
                    )
                }
            }),
            old(self).logs_surely() && model::has_room(old(self).state()) ==> step is Denied,
            final(self).continues(*old(self)),
    {
        match self.refuse_with(
            sink,
            "relay_swap",
            subject,
            AuditDetail::Denied { reason },
            reason.text(),
        ) {
            Ok(_) => SwapStep::Denied(reason),
            Err(e) => SwapStep::InternalRefused(e.message()),
        }
    }

    /// Decides on a request at a given time and for a given state of the key device, and fetches
    /// the real key only where the decision is to allow. The audit row is written before the key is
    /// handed out; where it cannot be written, the request is refused.
    pub fn swap_at(
        &mut self,
        bearer: &str,
        req: &CanonRequest,
        now_ms: i64,
        usb_absent_since_ms: Option<i64>,
        sink: &mut EventSink,
    ) -> (step: SwapStep)
        ensures
            Self::swap_outcome(
                *old(self),
                old(sink)@,
                *final(self),
                final(sink)@,
                bearer@,
                req@,
                now_ms,
                usb_absent_since_ms,
                step,
            ),
            final(self).continues(*old(self)),
    {
        let ghost s = self.state();
        let mut key: [u8; 32] = match self.vault.dek() {
            Some(dek) => derive_key("env-ctl/v1/bearer/key", dek.0.as_slice()),
            None => {
                return self.refuse_internally(Reason::VaultLocked, sink);
            },
        };
        let found: Option<(usize, usize)> = self.broker.look_up(&key, bearer);
        wipe_key(&mut key);
        let (b, p) = match found {
            Some(pair) => pair,
            None => {
                return self.deny("unknown bearer", DenyReason::UnknownBearer, sink);
            },
        };
        assert(s.relays.bearers[b as int] == self.broker.bearers@[b as int]@);
        assert(s.relays.policies[p as int] == self.broker.policies@[p as int]@);
        let floor_ms: i64 = match load_issuance_floor(&self.store) {
            Ok(ms) => ms,
            Err(EngineError::UnlockFailed) => {
                return self.refuse_internally(Reason::FloorUnreadable, sink);
            },
            Err(_) => {
                return self.refuse_internally(Reason::StoreFailed, sink);
            },
        };
        let row: &BearerRow = &self.broker.bearers[b];
        let token_id: String = row.token_id.clone();
        let verified = VerifiedBearer {
            policy_id: row.policy_id,
            token_id: row.token_id.clone(),
            expires_at_ms: row.expires_at_ms,
            issued_at_ms: row.issued_at_ms,
            client_uid: row.client_uid,
            client_pid: row.client_pid,
            revoked: row.revoked,
        };
        let decision: RelayDecision = decide::decide(
            &self.broker.policies[p],
            &verified,
            req,
            now_ms,
            usb_absent_since_ms,
            floor_ms,
        );
        proof {
            assert(verified@ == model::claim(s.relays.bearers[b as int]));
            lemma_decided(
                decision,
                s.relays.policies[p as int],
                verified@,
                req@,
                now_ms,
                usb_absent_since_ms,
                floor_ms,
            );
        }
        match decision {
            RelayDecision::Deny { reason } => {
                return self.deny(token_id.as_str(), reason, sink);
            },
            RelayDecision::Allow => {},
        }
        let policy_id: i64 = self.broker.policies[p].id;
        let secret_name: String = self.broker.policies[p].secret_name.clone();
        let mut secret: Vec<u8> = match self.real_key(secret_name.as_str()) {
            Ok(Some(secret)) => secret,
            Ok(None) => {
                return self.refuse_internally(Reason::KeyUnavailable, sink);
            },
            Err(_) => {
                return self.refuse_internally(Reason::StoreFailed, sink);
            },
        };
        match self.audit_ok(
            sink,
            "relay_swap",
            Some(token_id),
            AuditDetail::Relayed { policy_id },
        ) {
            Ok(_) => {},
            Err(e) => {
                wipe_bytes(&mut secret);
                proof {
                    let verdict = model::swap_verdict(
                        s,
                        bearer@,
                        req@,
                        now_ms,
                        usb_absent_since_ms,
                    );
                    assert(model::unfinished(
                        s,
                        old(sink)@,
                        self.state(),
                        sink@,
                        model::swap_entry(s, verdict),
                    ));
                }
                return SwapStep::InternalRefused(e.message());
            },
        }
        self.broker.charge(p, req.bytes_out, now_ms);
        SwapStep::Send { policy_id, key: secret }
    }

    /// Decides on a request now. The caller sends it only where the step is to send, and hands the
    /// reply to `finish_swap`.
    pub fn relay_swap(&mut self, bearer: &str, req: &EgressReq, sink: &mut EventSink) -> (step:
        SwapStep)
        ensures
            exists|now_ms: i64, usb_absent_since_ms: Option<i64>|
                {
                    &&& crate::seam::timed(&old(self).clock_seam(), now_ms)
                    &&& #[trigger] old(self).usb_marked(usb_absent_since_ms, now_ms)
                    &&& Self::swap_outcome(
                        *old(self),
                        old(sink)@,
                        *final(self),
                        final(sink)@,
                        bearer@,
                        canonical(*req),
                        now_ms,
                        usb_absent_since_ms,
                        step,
                    )
                },
            step is Send ==> old(self).usb_seen(true),
            final(self).continues(*old(self)),
    {
        let ghost s = self.state();
        let now: Timestamp = self.clock.now();
        let now_ms: i64 = now.ms;
        assert(crate::seam::told(&self.clock, now));
        assert(crate::seam::timed(&old(self).clock_seam(), now_ms));
        let usb_absent_since_ms: Option<i64> = match self.possesses_usb() {
            Ok(true) => None,
            _ => Some(now_ms),
        };
        let canon = CanonRequest {
            method: req.method,
            host: req.host.clone(),
            sni: None,
            path: req.path.clone(),
            bytes_out: req.bytes_out,
            peer_uid: req.peer_uid,
            peer_pid: req.peer_pid,
        };
        assert(canon@ == canonical(*req));
        let step: SwapStep = self.swap_at(bearer, &canon, now_ms, usb_absent_since_ms, sink);
        proof {
            assert(old(self).usb_marked(usb_absent_since_ms, now_ms));
            if step is Send && usb_absent_since_ms is Some {
                lemma_absent_never_sends(s, bearer@, canon@, now_ms, usb_absent_since_ms);
            }
        }
        step
    }
}

/// Without the key device no request goes out.
pub proof fn lemma_absent_never_sends(
    s: EngineView,
    token: Seq<char>,
    req: RequestView,
    now_ms: i64,
    usb_absent_since_ms: Option<i64>,
)
    requires
        usb_absent_since_ms is Some,
    ensures
        !(model::swap_verdict(s, token, req, now_ms, usb_absent_since_ms) is Send),
{
    if s.dek is Some && ledger::looked_up(
        s.relays,
        model::bearer_key(s.dek.unwrap()),
        token,
    ) is Some && model::stored_floor(s.store) is Some {
        let (b, p) = ledger::looked_up(
            s.relays,
            model::bearer_key(s.dek.unwrap()),
            token,
        ).unwrap();
        let floor = model::stored_floor(s.store).unwrap();
        let policy = s.relays.policies[p];
        let bearer = model::claim(s.relays.bearers[b]);
        lemma_decision_exists(policy, bearer, req, now_ms, usb_absent_since_ms, floor);
        assert(decide::fails(
            DenyReason::GateAbsent,
            policy,
            bearer,
            req,
            now_ms,
            usb_absent_since_ms,
            floor,
        ));
    }
}

} // verus!
