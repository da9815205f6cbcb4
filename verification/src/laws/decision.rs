//! What the checks of a relayed request say of the request itself.
use vstd::prelude::*;
use crate::broker::decide;
use crate::broker::decide::{CanonRequest, DenyReason, RelayDecision, VerifiedBearer};
use crate::broker::policy;
use crate::broker::policy::{Method, RelayPolicy};

verus! {

/// Whether the first bytes of a path are a prefix, byte for byte, and a segment ends there.
pub open spec fn whole_prefix(path: Seq<u8>, prefix: Seq<u8>) -> bool {
    &&& path.len() >= prefix.len()
    &&& forall|i: int| 0 <= i < prefix.len() ==> #[trigger] path[i] == prefix[i]
    &&& path.len() > prefix.len() ==> {
        ||| path[prefix.len() as int] == 0x2F
        ||| path[prefix.len() as int] == 0x3F
        ||| prefix.len() > 0 && prefix[prefix.len() - 1] == 0x2F
    }
}

/// A path lies under a prefix exactly where it agrees with all of it, and what follows starts a new
/// segment or a query.
pub proof fn law_path_agrees_with_whole_prefix(path: &[u8], prefix: &[u8], under: bool)
    requires
        call_ensures(policy::path_under, (path, prefix), under),
    ensures
        under <==> whole_prefix(path@, prefix@),
{
    lemma_under_is_whole(path@, prefix@);
}

pub proof fn lemma_under_is_whole(path: Seq<u8>, prefix: Seq<u8>)
    ensures
        policy::lies_under(path, prefix) <==> whole_prefix(path, prefix),
{
    if prefix.len() <= path.len() {
        let head = path.take(prefix.len() as int);
        if head == prefix {
            assert forall|i: int| 0 <= i < prefix.len() implies #[trigger] path[i] == prefix[i] by {
                assert(head[i] == prefix[i]);
            }
        }
        if forall|i: int| 0 <= i < prefix.len() ==> #[trigger] path[i] == prefix[i] {
            assert forall|i: int| 0 <= i < prefix.len() implies head[i] == prefix[i] by {
                assert(path[i] == prefix[i]);
            }
            assert(head =~= prefix);
        }
    }
}

/// A prefix lies under itself, and so does all that follows it behind a slash or a question mark;
/// what goes on with any other byte does not, unless the prefix ends in a slash.
pub proof fn law_prefix_covers_its_segments(
    prefix: &[u8],
    path: &[u8],
    rest: Seq<u8>,
    under: bool,
)
    requires
        call_ensures(policy::path_under, (path, prefix), under),
        path@ == prefix@ + rest,
    ensures
        rest.len() == 0 ==> under,
        rest.len() > 0 && (rest[0] == 0x2F || rest[0] == 0x3F) ==> under,
        rest.len() > 0 && rest[0] != 0x2F && rest[0] != 0x3F ==> under == (prefix@.len() > 0
            && prefix@[prefix@.len() - 1] == 0x2F),
{
    lemma_under_is_whole(path@, prefix@);
    assert forall|i: int| 0 <= i < prefix@.len() implies #[trigger] path@[i] == prefix@[i] by {
        assert((prefix@ + rest)[i] == prefix@[i]);
    }
    if rest.len() > 0 {
        assert((prefix@ + rest)[prefix@.len() as int] == rest[0]);
    }
}

/// A path that differs from a prefix in one byte does not lie under it.
pub proof fn law_one_byte_leads_astray(path: &[u8], prefix: &[u8], i: int, under: bool)
    requires
        call_ensures(policy::path_under, (path, prefix), under),
        0 <= i < prefix@.len(),
        i < path@.len() ==> path@[i] != prefix@[i],
    ensures
        !under,
{
    lemma_under_is_whole(path@, prefix@);
}

/// Whether a list holds a text.
pub open spec fn among(list: Seq<String>, text: Seq<char>) -> bool {
    exists|i: int| 0 <= i < list.len() && (#[trigger] list[i])@ == text
}

pub proof fn lemma_among(list: Seq<String>, text: Seq<char>)
    ensures
        policy::texts(list).contains(text) <==> among(list, text),
{
    let views = policy::texts(list);
    if views.contains(text) {
        let i = choose|i: int| 0 <= i < views.len() && views[i] == text;
        assert(list[i]@ == text);
    }
    if among(list, text) {
        let i = choose|i: int| 0 <= i < list.len() && (#[trigger] list[i])@ == text;
        assert(views[i] == text);
    }
}

/// Whether a path lies under one of a list of prefixes.
pub open spec fn under_one_of(prefixes: Seq<String>, path: Seq<char>) -> bool {
    exists|i: int|
        0 <= i < prefixes.len() && whole_prefix(
            vstd::utf8::encode_utf8(path),
            vstd::utf8::encode_utf8((#[trigger] prefixes[i])@),
        )
}

pub proof fn lemma_under_one_of(prefixes: Seq<String>, path: Seq<char>)
    ensures
        policy::some_prefix(policy::texts(prefixes), path) <==> under_one_of(prefixes, path),
{
    let views = policy::texts(prefixes);
    let p = vstd::utf8::encode_utf8(path);
    assert forall|i: int| 0 <= i < prefixes.len() implies policy::lies_under(
        p,
        vstd::utf8::encode_utf8(#[trigger] views[i]),
    ) == whole_prefix(p, vstd::utf8::encode_utf8(prefixes[i]@)) by {
        lemma_under_is_whole(p, vstd::utf8::encode_utf8(prefixes[i]@));
    }
    if policy::some_prefix(views, path) {
        let i = choose|i: int|
            0 <= i < views.len() && policy::lies_under(
                p,
                vstd::utf8::encode_utf8(#[trigger] views[i]),
            );
        assert(whole_prefix(p, vstd::utf8::encode_utf8(prefixes[i]@)));
    }
    if under_one_of(prefixes, path) {
        let i = choose|i: int|
            0 <= i < prefixes.len() && whole_prefix(
                p,
                vstd::utf8::encode_utf8((#[trigger] prefixes[i])@),
            );
        assert(policy::lies_under(p, vstd::utf8::encode_utf8(views[i])));
    }
}

/// A list of hosts is searched to its end for the very text.
pub proof fn law_lists_finds_the_text(list: &[String], text: &str, found: bool)
    requires
        call_ensures(policy::lists, (list, text), found),
    ensures
        found <==> among(list@, text@),
{
    lemma_among(list@, text@);
}

/// A list of methods is searched to its end for the very method.
pub proof fn law_lists_finds_the_method(list: &[Method], method: Method, found: bool)
    requires
        call_ensures(policy::lists_method, (list, method), found),
    ensures
        found <==> exists|i: int| 0 <= i < list@.len() && #[trigger] list@[i] == method,
{
    if found {
        let i = choose|i: int| 0 <= i < list@.len() && list@[i] == method;
        assert(list@[i] == method);
    }
}

/// A list of prefixes is searched to its end for one that the path lies under.
pub proof fn law_lists_finds_the_prefix(prefixes: &[String], path: &str, found: bool)
    requires
        call_ensures(policy::lists_path, (prefixes, path), found),
    ensures
        found <==> under_one_of(prefixes@, path@),
{
    lemma_under_one_of(prefixes@, path@);
}

/// Whether a request passes the check that a reason stands for, in the fields of policy, bearer and
/// request.
pub open spec fn passes(
    reason: DenyReason,
    p: RelayPolicy,
    b: VerifiedBearer,
    req: CanonRequest,
    now_ms: i64,
    usb_absent_since_ms: Option<i64>,
    issuance_floor_ms: i64,
) -> bool {
    match reason {
        DenyReason::UnknownBearer => p.id == b.policy_id,
        DenyReason::Disabled => p.enabled,
        DenyReason::Revoked => !p.revoked,
        DenyReason::BearerRevoked => !b.revoked,
        DenyReason::BearerExpired => b.expires_at_ms > now_ms,
        DenyReason::PolicyExpired => p.expires_at_ms is None || p.expires_at_ms.unwrap() > now_ms,
        DenyReason::HostNotAllowed => among(p.hosts@, req.host@),
        DenyReason::PathNotAllowed => under_one_of(p.path_prefixes@, req.path@),
        DenyReason::MethodNotAllowed => exists|i: int|
            0 <= i < p.methods@.len() && #[trigger] p.methods@[i] == req.method,
        DenyReason::UpstreamNotAllowed => among(p.upstreams@, req.host@),
        DenyReason::PeerMismatch => {
            &&& b.client_uid is None || b.client_uid == req.peer_uid
            &&& b.client_pid is None || b.client_pid == req.peer_pid
        },
        DenyReason::SniHostMismatch => req.sni is None || req.sni.unwrap()@ == req.host@,
        DenyReason::BudgetRequests => p.max_requests is None || p.max_requests.unwrap()
            > p.used_requests,
        DenyReason::BudgetBytes => p.max_bytes is None || p.max_bytes.unwrap() >= p.used_bytes
            + req.bytes_out,
        DenyReason::RateLimited => {
            ||| p.rate is None
            ||| p.rate.unwrap().max_requests > p.window_requests
            ||| now_ms >= p.window_started_ms + p.rate.unwrap().window_ms
        },
        DenyReason::GateAbsent => usb_absent_since_ms is None,
        DenyReason::ClockRollback => issuance_floor_ms <= b.issued_at_ms && b.issued_at_ms
            <= now_ms,
    }
}

/// The place of a reason in the order in which the checks are made: first what the bearer is good
/// for, then where the request goes and who makes it, then budgets, device and clock.
pub open spec fn place(reason: DenyReason) -> int {
    match reason {
        DenyReason::UnknownBearer => 0,
        DenyReason::Disabled => 1,
        DenyReason::Revoked => 2,
        DenyReason::BearerRevoked => 3,
        DenyReason::BearerExpired => 4,
        DenyReason::PolicyExpired => 5,
        DenyReason::HostNotAllowed => 6,
        DenyReason::PathNotAllowed => 7,
        DenyReason::MethodNotAllowed => 8,
        DenyReason::UpstreamNotAllowed => 9,
        DenyReason::PeerMismatch => 10,
        DenyReason::SniHostMismatch => 11,
        DenyReason::BudgetRequests => 12,
        DenyReason::BudgetBytes => 13,
        DenyReason::RateLimited => 14,
        DenyReason::GateAbsent => 15,
        DenyReason::ClockRollback => 16,
    }
}

/// The decision denies by default: it allows a request only if policy, bearer and request pass
/// every check, it allows every request that does, and it denies for the first check that was not
/// passed.
pub proof fn law_decision_reads_the_request(
    p: &RelayPolicy,
    b: &VerifiedBearer,
    req: &CanonRequest,
    now_ms: i64,
    usb_absent_since_ms: Option<i64>,
    issuance_floor_ms: i64,
    decision: RelayDecision,
)
    requires
        call_ensures(
            decide::decide,
            (p, b, req, now_ms, usb_absent_since_ms, issuance_floor_ms),
            decision,
        ),
    ensures
        decision == RelayDecision::Allow <==> forall|r: DenyReason| #[trigger]
            passes(r, *p, *b, *req, now_ms, usb_absent_since_ms, issuance_floor_ms),
        decision matches RelayDecision::Deny { reason } ==> !passes(
            reason,
            *p,
            *b,
            *req,
            now_ms,
            usb_absent_since_ms,
            issuance_floor_ms,
        ),
        decision matches RelayDecision::Deny { reason } ==> forall|r: DenyReason|
            place(r) < place(reason) ==> #[trigger] passes(
                r,
                *p,
                *b,
                *req,
                now_ms,
                usb_absent_since_ms,
                issuance_floor_ms,
            ),
{
    lemma_among(p.hosts@, req.host@);
    lemma_among(p.upstreams@, req.host@);
    lemma_under_one_of(p.path_prefixes@, req.path@);
    assert forall|r: DenyReason| #[trigger]
        passes(r, *p, *b, *req, now_ms, usb_absent_since_ms, issuance_floor_ms) == !decide::fails(
            r,
            p@,
            b@,
            req@,
            now_ms,
            usb_absent_since_ms,
            issuance_floor_ms,
        ) by {
        if r is MethodNotAllowed && p@.methods.contains(req@.method) {
            let i = choose|i: int| 0 <= i < p@.methods.len() && p@.methods[i] == req@.method;
            assert(p.methods@[i] == req.method);
        }
    }
    match decision {
        RelayDecision::Allow => {},
        RelayDecision::Deny { reason } => {
            assert(decide::fails(
                reason,
                p@,
                b@,
                req@,
                now_ms,
                usb_absent_since_ms,
                issuance_floor_ms,
            ));
            assert(!passes(
                reason,
                *p,
                *b,
                *req,
                now_ms,
                usb_absent_since_ms,
                issuance_floor_ms,
            ));
        },
    }
}

/// A lifetime between nothing and a day is granted as it is, a longer one is cut to a day of 86400
/// seconds, and a negative one to nothing.
pub proof fn law_lifetimes_are_clamped(requested_secs: i64, granted_secs: i64)
    requires
        call_ensures(policy::clamp_ttl, (requested_secs,), granted_secs),
    ensures
        0 <= requested_secs <= 86_400 ==> granted_secs == requested_secs,
        requested_secs > 86_400 ==> granted_secs == 86_400,
        requested_secs < 0 ==> granted_secs == 0,
{
}

} // verus!
