//! The relay decision, bearers, and the ledger of the broker.
use envctl_secrets::broker::ledger::{BearerRow, Broker};
use envctl_secrets::broker::policy::{path_under, RateLimit};
use envctl_secrets::broker::token::mac_bearer;
use envctl_secrets::broker::{decide, verify_bearer, CanonRequest, VerifiedBearer};
use envctl_secrets::{
    clamp_ttl, DenyReason, Method, RelayDecision, RelayPolicy, MAX_BEARER_TTL_SECS,
};

fn policy() -> RelayPolicy {
    RelayPolicy {
        id: 1,
        relay_id: "cli".to_string(),
        secret_name: "key".to_string(),
        enabled: true,
        revoked: false,
        expires_at_ms: Some(5_000),
        hosts: vec!["api.example.com".to_string()],
        path_prefixes: vec!["/v1/messages".to_string()],
        methods: vec![Method::Post],
        upstreams: vec!["api.example.com".to_string()],
        max_requests: Some(10),
        used_requests: 3,
        max_bytes: Some(100),
        used_bytes: 40,
        rate: Some(RateLimit { max_requests: 2, window_ms: 1_000 }),
        window_started_ms: 1_500,
        window_requests: 1,
    }
}

fn bearer() -> VerifiedBearer {
    VerifiedBearer {
        policy_id: 1,
        token_id: "t".to_string(),
        expires_at_ms: 4_000,
        issued_at_ms: 1_000,
        client_uid: Some(1000),
        client_pid: Some(42),
        revoked: false,
    }
}

fn request() -> CanonRequest {
    CanonRequest {
        method: Method::Post,
        host: "api.example.com".to_string(),
        sni: Some("api.example.com".to_string()),
        path: "/v1/messages".to_string(),
        bytes_out: 60,
        peer_uid: Some(1000),
        peer_pid: Some(42),
    }
}

const NOW: i64 = 2_000;
const FLOOR: i64 = 500;

fn denied(p: &RelayPolicy, b: &VerifiedBearer, r: &CanonRequest, reason: DenyReason) {
    assert_eq!(decide(p, b, r, NOW, None, FLOOR), RelayDecision::Deny { reason });
}

#[test]
fn a_request_that_passes_every_check_is_allowed() {
    assert_eq!(
        decide(&policy(), &bearer(), &request(), NOW, None, FLOOR),
        RelayDecision::Allow
    );
}

#[test]
fn each_failed_check_denies_with_its_reason() {
    let (p, b, r) = (policy(), bearer(), request());
    denied(&p, &VerifiedBearer { policy_id: 2, ..b.clone() }, &r, DenyReason::UnknownBearer);
    denied(&RelayPolicy { enabled: false, ..p.clone() }, &b, &r, DenyReason::Disabled);
    denied(&RelayPolicy { revoked: true, ..p.clone() }, &b, &r, DenyReason::Revoked);
    denied(&p, &VerifiedBearer { revoked: true, ..b.clone() }, &r, DenyReason::BearerRevoked);
    denied(&p, &VerifiedBearer { expires_at_ms: NOW, ..b.clone() }, &r, DenyReason::BearerExpired);
    denied(&RelayPolicy { expires_at_ms: Some(NOW), ..p.clone() }, &b, &r, DenyReason::PolicyExpired);
    denied(&RelayPolicy { hosts: vec![], ..p.clone() }, &b, &r, DenyReason::HostNotAllowed);
    denied(&RelayPolicy { path_prefixes: vec![], ..p.clone() }, &b, &r, DenyReason::PathNotAllowed);
    denied(&RelayPolicy { methods: vec![Method::Get], ..p.clone() }, &b, &r, DenyReason::MethodNotAllowed);
    denied(&RelayPolicy { upstreams: vec![], ..p.clone() }, &b, &r, DenyReason::UpstreamNotAllowed);
    denied(&p, &b, &CanonRequest { peer_uid: None, ..r.clone() }, DenyReason::PeerMismatch);
    denied(&p, &b, &CanonRequest { peer_pid: Some(43), ..r.clone() }, DenyReason::PeerMismatch);
    denied(&p, &b, &CanonRequest { sni: Some("evil.example.com".to_string()), ..r.clone() }, DenyReason::SniHostMismatch);
    denied(&RelayPolicy { used_requests: 10, ..p.clone() }, &b, &r, DenyReason::BudgetRequests);
    denied(&p, &b, &CanonRequest { bytes_out: 61, ..r.clone() }, DenyReason::BudgetBytes);
    denied(&p, &b, &CanonRequest { bytes_out: u64::MAX, ..r.clone() }, DenyReason::BudgetBytes);
    denied(&RelayPolicy { window_requests: 2, ..p.clone() }, &b, &r, DenyReason::RateLimited);
    assert_eq!(
        decide(&p, &b, &r, NOW, Some(1_900), FLOOR),
        RelayDecision::Deny { reason: DenyReason::GateAbsent }
    );
    assert_eq!(
        decide(&p, &b, &r, NOW, None, 1_001),
        RelayDecision::Deny { reason: DenyReason::ClockRollback }
    );
    assert_eq!(
        decide(&p, &b, &r, 999, None, FLOOR),
        RelayDecision::Deny { reason: DenyReason::ClockRollback }
    );
}

#[test]
fn the_first_failed_check_names_the_reason() {
    let p = RelayPolicy { revoked: true, enabled: false, ..policy() };
    denied(&p, &bearer(), &request(), DenyReason::Disabled);
}

#[test]
fn an_unbound_bearer_and_an_unlimited_policy_are_not_checked() {
    let p = RelayPolicy {
        expires_at_ms: None,
        max_requests: None,
        used_requests: u64::MAX,
        max_bytes: None,
        used_bytes: u64::MAX,
        rate: None,
        ..policy()
    };
    let b = VerifiedBearer { client_uid: None, client_pid: None, ..bearer() };
    let r = CanonRequest { sni: None, peer_uid: None, peer_pid: None, ..request() };
    assert_eq!(decide(&p, &b, &r, NOW, None, FLOOR), RelayDecision::Allow);
}

#[test]
fn a_full_window_ends() {
    let p = RelayPolicy { window_requests: 2, ..policy() };
    assert_eq!(
        decide(&p, &bearer(), &request(), 2_499, None, FLOOR),
        RelayDecision::Deny { reason: DenyReason::RateLimited }
    );
    assert_eq!(
        decide(&p, &bearer(), &request(), 2_500, None, FLOOR),
        RelayDecision::Allow
    );
}

#[test]
fn paths_match_whole_segments() {
    assert!(path_under(b"/v1", b"/v1"));
    assert!(path_under(b"/v1/x", b"/v1"));
    assert!(path_under(b"/v1?x", b"/v1"));
    assert!(path_under(b"/v1/x", b"/v1/"));
    assert!(!path_under(b"/v10", b"/v1"));
    assert!(!path_under(b"/v", b"/v1"));
    assert!(!path_under(b"/w1/x", b"/v1"));
    assert!(path_under(b"/anything", b"/"));
}

#[test]
fn lifetimes_are_cut_to_a_day() {
    assert_eq!(clamp_ttl(60), 60);
    assert_eq!(clamp_ttl(0), 0);
    assert_eq!(clamp_ttl(-5), 0);
    assert_eq!(clamp_ttl(MAX_BEARER_TTL_SECS + 1), MAX_BEARER_TTL_SECS);
    assert_eq!(MAX_BEARER_TTL_SECS, 24 * 60 * 60);
}

#[test]
fn a_bearer_verifies_against_its_mac_alone() {
    let key = [1u8; 32];
    let mac = mac_bearer(&key, "evrelay_00");
    assert_eq!(mac, blake3::keyed_hash(&key, b"evrelay_00").as_bytes().to_vec());
    assert!(verify_bearer(&key, "evrelay_00", &mac));
    assert!(!verify_bearer(&key, "evrelay_01", &mac));
    assert!(!verify_bearer(&[2u8; 32], "evrelay_00", &mac));
    assert!(!verify_bearer(&key, "evrelay_00", &mac[..31]));
}

fn bearer_row(policy_id: i64, token: &str, revoked: bool) -> BearerRow {
    BearerRow {
        policy_id,
        token_id: token.to_string(),
        mac: mac_bearer(&[1; 32], token),
        issued_at_ms: 0,
        expires_at_ms: 1,
        client_uid: None,
        client_pid: None,
        revoked,
    }
}

fn ledger() -> Broker {
    let mut broker = Broker::new();
    broker.enlist(policy(), bearer_row(1, "a", false));
    broker.enlist(RelayPolicy { id: 2, ..policy() }, bearer_row(2, "b", true));
    broker.enlist(
        RelayPolicy { id: 3, relay_id: "bot".to_string(), ..policy() },
        bearer_row(3, "c", false),
    );
    broker
}

#[test]
fn tokens_are_looked_up_by_their_mac() {
    let broker = ledger();
    assert_eq!(broker.look_up(&[1; 32], "b"), Some((1, 1)));
    assert_eq!(broker.look_up(&[1; 32], "d"), None);
    assert_eq!(broker.look_up(&[2; 32], "b"), None);
    let mut orphan = Broker::new();
    orphan.enlist(policy(), bearer_row(9, "a", false));
    assert_eq!(orphan.look_up(&[1; 32], "a"), None);
}

#[test]
fn revoking_a_relay_flips_its_policies_and_bearers() {
    let mut broker = ledger();
    assert_eq!(broker.revoke_relay("cli"), 3);
    let revoked: Vec<bool> = broker.policies.iter().map(|p| p.revoked).collect();
    assert_eq!(revoked, vec![true, true, false]);
    let revoked: Vec<bool> = broker.bearers.iter().map(|b| b.revoked).collect();
    assert_eq!(revoked, vec![true, true, false]);
    assert_eq!(broker.revoke_relay("cli"), 0);
    assert_eq!(broker.revoke_relay("nobody"), 0);
}

#[test]
fn revoking_a_bearer_flips_it_alone() {
    let mut broker = ledger();
    assert_eq!(broker.revoke_bearer("c"), 1);
    assert_eq!(broker.revoke_bearer("c"), 0);
    let revoked: Vec<bool> = broker.bearers.iter().map(|b| b.revoked).collect();
    assert_eq!(revoked, vec![false, true, true]);
    assert!(broker.policies.iter().all(|p| !p.revoked));
}

#[test]
fn requests_are_charged_to_their_policy() {
    let mut broker = ledger();
    broker.charge(0, 10, 2_000);
    let p = &broker.policies[0];
    assert_eq!((p.used_requests, p.used_bytes), (4, 50));
    assert_eq!((p.window_started_ms, p.window_requests), (1_500, 2));
    broker.charge(0, u64::MAX, 2_500);
    let p = &broker.policies[0];
    assert_eq!((p.used_requests, p.used_bytes), (5, u64::MAX));
    assert_eq!((p.window_started_ms, p.window_requests), (2_500, 1));
}
