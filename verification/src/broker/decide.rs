//! The relay decision. It looks at nothing but its arguments, and denies unless every check holds.
use vstd::prelude::*;
use crate::broker::policy;
use crate::broker::policy::{lists, lists_method, lists_path, Method, PolicyView, RelayPolicy};
use crate::codec;

verus! {

/// Whether a request may go out with the real key.
#[derive(Clone, Copy, Debug, PartialEq, Eq, Structural)]
pub enum RelayDecision {
    Allow,
    Deny { reason: DenyReason },
}

/// The first check that a request failed.
#[derive(Clone, Copy, Debug, PartialEq, Eq, Structural)]
pub enum DenyReason {
    UnknownBearer,
    Disabled,
    Revoked,
    BearerRevoked,
    BearerExpired,
    PolicyExpired,
    HostNotAllowed,
    PathNotAllowed,
    MethodNotAllowed,
    UpstreamNotAllowed,
    PeerMismatch,
    SniHostMismatch,
    BudgetRequests,
    BudgetBytes,
    RateLimited,
    GateAbsent,
    ClockRollback,
}

impl DenyReason {
    /// The name of the reason.
    pub open spec fn words(self) -> Seq<char> {
        match self {
            DenyReason::UnknownBearer => "unknown_bearer"@,
            DenyReason::Disabled => "disabled"@,
            DenyReason::Revoked => "revoked"@,
            DenyReason::BearerRevoked => "bearer_revoked"@,
            DenyReason::BearerExpired => "bearer_expired"@,
            DenyReason::PolicyExpired => "policy_expired"@,
            DenyReason::HostNotAllowed => "host_not_allowed"@,
            DenyReason::PathNotAllowed => "path_not_allowed"@,
            DenyReason::MethodNotAllowed => "method_not_allowed"@,
            DenyReason::UpstreamNotAllowed => "upstream_not_allowed"@,
            DenyReason::PeerMismatch => "peer_mismatch"@,
            DenyReason::SniHostMismatch => "sni_host_mismatch"@,
            DenyReason::BudgetRequests => "budget_requests"@,
            DenyReason::BudgetBytes => "budget_bytes"@,
            DenyReason::RateLimited => "rate_limited"@,
            DenyReason::GateAbsent => "gate_absent"@,
            DenyReason::ClockRollback => "clock_rollback"@,
        }
    }

    /// The name of the reason.
    pub fn text(&self) -> (text: String)
        ensures
            text@ == self.words(),
    {
        match self {
            DenyReason::UnknownBearer => "unknown_bearer".to_owned(),
            DenyReason::Disabled => "disabled".to_owned(),
            DenyReason::Revoked => "revoked".to_owned(),
            DenyReason::BearerRevoked => "bearer_revoked".to_owned(),
            DenyReason::BearerExpired => "bearer_expired".to_owned(),
            DenyReason::PolicyExpired => "policy_expired".to_owned(),
            DenyReason::HostNotAllowed => "host_not_allowed".to_owned(),
            DenyReason::PathNotAllowed => "path_not_allowed".to_owned(),
            DenyReason::MethodNotAllowed => "method_not_allowed".to_owned(),
            DenyReason::UpstreamNotAllowed => "upstream_not_allowed".to_owned(),
            DenyReason::PeerMismatch => "peer_mismatch".to_owned(),
            DenyReason::SniHostMismatch => "sni_host_mismatch".to_owned(),
            DenyReason::BudgetRequests => "budget_requests".to_owned(),
            DenyReason::BudgetBytes => "budget_bytes".to_owned(),
            DenyReason::RateLimited => "rate_limited".to_owned(),
            DenyReason::GateAbsent => "gate_absent".to_owned(),
            DenyReason::ClockRollback => "clock_rollback".to_owned(),
        }
    }

    /// The number that stands for the reason: its place in the order in which the checks are made.
    pub open spec fn code(self) -> u8 {
        match self {
            DenyReason::UnknownBearer => 0,
            DenyReason::Disabled => 1,
            DenyReason::Revoked => 2,
            DenyReason::BearerRevoked => 3,
            DenyReason::BearerExpired => 4,
            DenyReason::PolicyExpired => 5,
            DenyReason::HostNotAllowed => 6,
            DenyReason::PathNotAllowed => 7,
            DenyReason::MethodNotAllowed => 8,
            DenyReason::UpstreamNotAllowed => 9,
            DenyReason::PeerMismatch => 10,
            DenyReason::SniHostMismatch => 11,
            DenyReason::BudgetRequests => 12,
            DenyReason::BudgetBytes => 13,
            DenyReason::RateLimited => 14,
            DenyReason::GateAbsent => 15,
            DenyReason::ClockRollback => 16,
        }
    }

    /// The number that stands for the reason.
    pub fn byte(&self) -> (code: u8)
        ensures
            code == self.code(),
    {
        match self {
            DenyReason::UnknownBearer => 0,
            DenyReason::Disabled => 1,
            DenyReason::Revoked => 2,
            DenyReason::BearerRevoked => 3,
            DenyReason::BearerExpired => 4,
            DenyReason::PolicyExpired => 5,
            DenyReason::HostNotAllowed => 6,
            DenyReason::PathNotAllowed => 7,
            DenyReason::MethodNotAllowed => 8,
            DenyReason::UpstreamNotAllowed => 9,
            DenyReason::PeerMismatch => 10,
            DenyReason::SniHostMismatch => 11,
            DenyReason::BudgetRequests => 12,
            DenyReason::BudgetBytes => 13,
            DenyReason::RateLimited => 14,
            DenyReason::GateAbsent => 15,
            DenyReason::ClockRollback => 16,
        }
    }
}

/// A bearer that was looked up and verified.
#[derive(Clone, Debug)]
pub struct VerifiedBearer {
    pub policy_id: i64,
    pub token_id: String,
    pub expires_at_ms: i64,
    pub issued_at_ms: i64,
    pub client_uid: Option<u32>,
    pub client_pid: Option<u32>,
    pub revoked: bool,
}

/// The request that the decision is about, in canonical form. The host is the verified inner one.
#[derive(Clone, Debug)]
pub struct CanonRequest {
    pub method: Method,
    pub host: String,
    pub sni: Option<String>,
    pub path: String,
    pub bytes_out: u64,
    pub peer_uid: Option<u32>,
    pub peer_pid: Option<u32>,
}

/// What a request holds.
#[verifier::ext_equal]
pub struct RequestView {
    pub method: Method,
    pub host: Seq<char>,
    pub sni: Option<Seq<char>>,
    pub path: Seq<char>,
    pub bytes_out: u64,
    pub peer_uid: Option<u32>,
    pub peer_pid: Option<u32>,
}

impl View for CanonRequest {
    type V = RequestView;

    open spec fn view(&self) -> RequestView {
        RequestView {
            method: self.method,
            host: self.host@,
            sni: codec::text_view(self.sni),
            path: self.path@,
            bytes_out: self.bytes_out,
            peer_uid: self.peer_uid,
            peer_pid: self.peer_pid,
        }
    }
}

/// What a verified bearer says. The decision reads all of it but the token id, which names the
/// bearer in the audit log.
#[verifier::ext_equal]
pub struct ClaimView {
    pub policy_id: i64,
    pub token_id: Seq<char>,
    pub expires_at_ms: i64,
    pub issued_at_ms: i64,
    pub client_uid: Option<u32>,
    pub client_pid: Option<u32>,
    pub revoked: bool,
}

impl View for VerifiedBearer {
    type V = ClaimView;

    open spec fn view(&self) -> ClaimView {
        ClaimView {
            policy_id: self.policy_id,
            token_id: self.token_id@,
            expires_at_ms: self.expires_at_ms,
            issued_at_ms: self.issued_at_ms,
            client_uid: self.client_uid,
            client_pid: self.client_pid,
            revoked: self.revoked,
        }
    }
}

/// Whether a peer is the one that a bearer is bound to, if it is bound.
pub open spec fn peer_matches(bound: Option<u32>, peer: Option<u32>) -> bool {
    bound is Some ==> peer == bound
}

/// Whether the number of requests is used up.
pub open spec fn requests_spent(p: PolicyView) -> bool {
    p.max_requests matches Some(max) && p.used_requests >= max
}

/// Whether a request would exceed the byte budget.
pub open spec fn bytes_spent(p: PolicyView, bytes_out: u64) -> bool {
    p.max_bytes matches Some(max) && p.used_bytes + bytes_out > max
}

/// Whether the window that `now_ms` falls into is full. A clock that ran backwards does not open
/// a new window.
pub open spec fn window_full(p: PolicyView, now_ms: i64) -> bool {
    p.rate matches Some(rate) && now_ms - p.window_started_ms < rate.window_ms && p.window_requests
        >= rate.max_requests
}

/// Whether a time before the issuance floor, or a bearer from before the floor or from the future,
/// shows that the clock was turned back.
pub open spec fn rolled_back(b: ClaimView, now_ms: i64, issuance_floor_ms: i64) -> bool {
    ||| now_ms < issuance_floor_ms
    ||| b.issued_at_ms < issuance_floor_ms
    ||| now_ms < b.issued_at_ms
}

/// Whether a request fails the check that a reason stands for.
pub open spec fn fails(
    reason: DenyReason,
    p: PolicyView,
    b: ClaimView,
    req: RequestView,
    now_ms: i64,
    usb_absent_since_ms: Option<i64>,
    issuance_floor_ms: i64,
) -> bool {
    match reason {
        DenyReason::UnknownBearer => b.policy_id != p.id,
        DenyReason::Disabled => !p.enabled,
        DenyReason::Revoked => p.revoked,
        DenyReason::BearerRevoked => b.revoked,
        DenyReason::BearerExpired => now_ms >= b.expires_at_ms,
        DenyReason::PolicyExpired => p.expires_at_ms matches Some(end) && now_ms >= end,
        DenyReason::HostNotAllowed => !p.hosts.contains(req.host),
        DenyReason::PathNotAllowed => !policy::some_prefix(p.path_prefixes, req.path),
        DenyReason::MethodNotAllowed => !p.methods.contains(req.method),
        DenyReason::UpstreamNotAllowed => !p.upstreams.contains(req.host),
        DenyReason::PeerMismatch => !(peer_matches(b.client_uid, req.peer_uid) && peer_matches(
            b.client_pid,
            req.peer_pid,
        )),
        DenyReason::SniHostMismatch => req.sni matches Some(sni) && sni != req.host,
        DenyReason::BudgetRequests => requests_spent(p),
        DenyReason::BudgetBytes => bytes_spent(p, req.bytes_out),
        DenyReason::RateLimited => window_full(p, now_ms),
        DenyReason::GateAbsent => usb_absent_since_ms is Some,
        DenyReason::ClockRollback => rolled_back(b, now_ms, issuance_floor_ms),
    }
}

/// Whether a decision is the right one: it allows a request that fails no check, and denies any
/// other by the first check that it fails.
pub open spec fn is_decision(
    decision: RelayDecision,
    p: PolicyView,
    b: ClaimView,
    req: RequestView,
    now_ms: i64,
    usb_absent_since_ms: Option<i64>,
    issuance_floor_ms: i64,
) -> bool {
    match decision {
        RelayDecision::Allow => forall|r: DenyReason| !#[trigger] fails(
            r,
            p,
            b,
            req,
            now_ms,
            usb_absent_since_ms,
            issuance_floor_ms,
        ),
        RelayDecision::Deny { reason } => {
            &&& fails(reason, p, b, req, now_ms, usb_absent_since_ms, issuance_floor_ms)
            &&& forall|r: DenyReason| #[trigger]
                fails(r, p, b, req, now_ms, usb_absent_since_ms, issuance_floor_ms)
                    ==> reason.code() <= r.code()
        },
    }
}

fn peer_is(bound: Option<u32>, peer: Option<u32>) -> (same: bool)
    ensures
        same == peer_matches(bound, peer),
{
    match bound {
        None => true,
        Some(b) => match peer {
            None => false,
            Some(p) => b == p,
        },
    }
}

fn is_window_full(p: &RelayPolicy, now_ms: i64) -> (full: bool)
    ensures
        full == window_full(p@, now_ms),
{
    match p.rate {
        None => false,
        Some(rate) => {
            let age: i128 = now_ms as i128 - p.window_started_ms as i128;
            age < rate.window_ms as i128 && p.window_requests >= rate.max_requests
        },
    }
}

/// Decides whether a request may go out: the policy has to be the one of the bearer, both have to
/// be live now and not before the issuance floor, the key device has to be there, and host, path,
/// method, upstream, peer and budgets have to fit.
pub fn decide(
    p: &RelayPolicy,
    b: &VerifiedBearer,
    req: &CanonRequest,
    now_ms: i64,
    usb_absent_since_ms: Option<i64>,
    issuance_floor_ms: i64,
) -> (decision: RelayDecision)
    ensures
        is_decision(decision, p@, b@, req@, now_ms, usb_absent_since_ms, issuance_floor_ms),
{
    if b.policy_id != p.id {
        return RelayDecision::Deny { reason: DenyReason::UnknownBearer };
    }
    if !p.enabled {
        return RelayDecision::Deny { reason: DenyReason::Disabled };
    }
    if p.revoked {
        return RelayDecision::Deny { reason: DenyReason::Revoked };
    }
    if b.revoked {
        return RelayDecision::Deny { reason: DenyReason::BearerRevoked };
    }
    if now_ms >= b.expires_at_ms {
        return RelayDecision::Deny { reason: DenyReason::BearerExpired };
    }
    match p.expires_at_ms {
        Some(end) => {
            if now_ms >= end {
                return RelayDecision::Deny { reason: DenyReason::PolicyExpired };
            }
        },
        None => {},
    }
    if !lists(p.hosts.as_slice(), req.host.as_str()) {
        return RelayDecision::Deny { reason: DenyReason::HostNotAllowed };
    }
    if !lists_path(p.path_prefixes.as_slice(), req.path.as_str()) {
        return RelayDecision::Deny { reason: DenyReason::PathNotAllowed };
    }
    if !lists_method(p.methods.as_slice(), req.method) {
        return RelayDecision::Deny { reason: DenyReason::MethodNotAllowed };
    }
    if !lists(p.upstreams.as_slice(), req.host.as_str()) {
        return RelayDecision::Deny { reason: DenyReason::UpstreamNotAllowed };
    }
    if !peer_is(b.client_uid, req.peer_uid) || !peer_is(b.client_pid, req.peer_pid) {
        return RelayDecision::Deny { reason: DenyReason::PeerMismatch };
    }
    match &req.sni {
        Some(sni) => {
            if !codec::str_eq(sni.as_str(), req.host.as_str()) {
                return RelayDecision::Deny { reason: DenyReason::SniHostMismatch };
            }
        },
        None => {},
    }
    match p.max_requests {
        Some(max) => {
            if p.used_requests >= max {
                return RelayDecision::Deny { reason: DenyReason::BudgetRequests };
            }
        },
        None => {},
    }
    match p.max_bytes {
        Some(max) => {
            if p.used_bytes > max || req.bytes_out > max - p.used_bytes {
                return RelayDecision::Deny { reason: DenyReason::BudgetBytes };
            }
        },
        None => {},
    }
    if is_window_full(p, now_ms) {
        return RelayDecision::Deny { reason: DenyReason::RateLimited };
    }
    if usb_absent_since_ms.is_some() {
        return RelayDecision::Deny { reason: DenyReason::GateAbsent };
    }
    if now_ms < issuance_floor_ms || b.issued_at_ms < issuance_floor_ms || now_ms < b.issued_at_ms {
        return RelayDecision::Deny { reason: DenyReason::ClockRollback };
    }
    RelayDecision::Allow
}

} // verus!
