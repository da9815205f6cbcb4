//! Bearers from minting to revocation, through the engine.
use envctl_secrets::broker::policy::RateLimit;
use envctl_secrets::engine::init::{enroll, Material};
use envctl_secrets::engine::relay::finish_swap;
use envctl_secrets::event::{AuditDetail, Reason};
use envctl_secrets::keyslot::Dek;
use envctl_secrets::seam::Timestamp;
use envctl_secrets::vault::{InMemStore, Store};
use envctl_secrets::{
    Argon2Params, AuditRecord, Bearer, Clock, DenyReason, EgressReq, EgressResp, Engine,
    EngineError, EventSink, Method, Provider, RelayPolicy, SecretEvent, SecretMeta, SwapOutcome,
    SwapStep, Unlock, UsbProbe, MAX_BEARER_TTL_SECS,
};
use std::cell::Cell;
use std::rc::Rc;

/// A clock that the test moves.
#[derive(Clone)]
struct HandClock(Rc<Cell<i64>>);

impl Clock for HandClock {
    fn now(&self) -> Timestamp {
        Timestamp { ms: self.0.get(), rfc3339: "t".to_string() }
    }
}

/// A key device that the test plugs in and pulls out.
#[derive(Clone)]
struct Plug(Rc<Cell<bool>>);

impl UsbProbe for Plug {
    fn keyfile_for(&self, _partition_uuid: &str) -> Option<Vec<u8>> {
        if self.0.get() {
            Some(vec![7; 32])
        } else {
            None
        }
    }
}

struct Bench {
    eng: Engine<InMemStore, HandClock, Plug>,
    sink: EventSink,
    clock: HandClock,
    plug: Plug,
}

impl Bench {
    /// An unlocked vault that holds the real key.
    fn new() -> Self {
        let clock = HandClock(Rc::new(Cell::new(10_000)));
        let plug = Plug(Rc::new(Cell::new(true)));
        let mut eng = Engine::with_owner(InMemStore::new(), clock.clone(), plug.clone(), 1000);
        let mut sink = EventSink::new();
        let material = Material {
            dek: Dek([5; 32]),
            passphrase_salt: vec![1; 16],
            passphrase_nonce: vec![2; 24],
            usb: Some((vec![3; 32], vec![4; 24])),
        };
        let slots = enroll(
            &material,
            "pass",
            &Some("PART".to_string()),
            &Some(vec![7; 32]),
            Argon2Params { m_kib: 8, t_cost: 1, p_lanes: 1 },
        );
        eng.commit_vault(&material.dek, &slots, 10_000, &mut sink).unwrap();
        eng.unlock(Unlock::Usb, &mut sink).unwrap();
        eng.secret_put(
            SecretMeta {
                name: "key".to_string(),
                provider: Provider::Anthropic,
                note: String::new(),
                broker_only: true,
            },
            b"sk-real".to_vec(),
            &mut sink,
        )
        .unwrap();
        sink.drain();
        Bench { eng, sink, clock, plug }
    }

    fn mint(&mut self, ttl_secs: i64) -> Bearer {
        self.eng.relay_mint(policy(), ttl_secs, Some(1000), None, &mut self.sink).unwrap()
    }

    fn swap(&mut self, token: &str) -> SwapStep {
        self.eng.relay_swap(token, &request(), &mut self.sink)
    }

    fn last_row(&self) -> AuditRecord {
        self.eng.store().last_audit().unwrap().unwrap()
    }
}

fn policy() -> RelayPolicy {
    RelayPolicy {
        id: 99,
        relay_id: "cli".to_string(),
        secret_name: "key".to_string(),
        enabled: true,
        revoked: false,
        expires_at_ms: None,
        hosts: vec!["api.example.com".to_string()],
        path_prefixes: vec!["/v1".to_string()],
        methods: vec![Method::Post],
        upstreams: vec!["api.example.com".to_string()],
        max_requests: Some(2),
        used_requests: 0,
        max_bytes: None,
        used_bytes: 0,
        rate: Some(RateLimit { max_requests: 5, window_ms: 1_000 }),
        window_started_ms: 0,
        window_requests: 0,
    }
}

fn request() -> EgressReq {
    EgressReq {
        method: Method::Post,
        host: "api.example.com".to_string(),
        path: "/v1/messages".to_string(),
        headers: vec![("authorization".to_string(), "evrelay".to_string())],
        bytes_out: 10,
        peer_uid: Some(1000),
        peer_pid: Some(1),
    }
}

fn sent(step: SwapStep) -> Vec<u8> {
    match step {
        SwapStep::Send { key, .. } => key,
        SwapStep::Denied(reason) => panic!("denied: {reason:?}"),
        SwapStep::InternalRefused(why) => panic!("refused: {why}"),
    }
}

fn denied(step: SwapStep) -> DenyReason {
    match step {
        SwapStep::Denied(reason) => reason,
        _ => panic!("not denied"),
    }
}

fn refused(step: SwapStep) -> String {
    match step {
        SwapStep::InternalRefused(why) => why,
        _ => panic!("not refused"),
    }
}

#[test]
fn a_minted_bearer_is_swapped_for_the_real_key() {
    let mut bench = Bench::new();
    let bearer = bench.mint(60);
    assert_eq!(bearer.policy_id, 1);
    assert!(bearer.token.starts_with("evrelay_"));
    assert_eq!(bearer.token.len(), 8 + 64);
    assert_eq!(bearer.token_id.len(), 32);
    assert_eq!((bearer.issued_at_ms, bearer.expires_at_ms), (10_000, 70_000));
    assert_eq!(bench.last_row().detail, AuditDetail::Minted { policy_id: 1, ttl_secs: 60 });
    assert_eq!(sent(bench.swap(&bearer.token)), b"sk-real".to_vec());
    let row = bench.last_row();
    assert_eq!(row.subject, Some(bearer.token_id.clone()));
    assert_eq!(row.detail, AuditDetail::Relayed { policy_id: 1 });
    assert_ne!(bench.mint(60).token, bearer.token);
}

#[test]
fn lifetimes_end_within_a_day() {
    let mut bench = Bench::new();
    let bearer = bench.mint(i64::MAX);
    assert_eq!(bearer.expires_at_ms, 10_000 + 1_000 * MAX_BEARER_TTL_SECS);
    bench.clock.0.set(bearer.expires_at_ms - 1);
    assert_eq!(sent(bench.swap(&bearer.token)), b"sk-real".to_vec());
    bench.clock.0.set(bearer.expires_at_ms);
    assert_eq!(denied(bench.swap(&bearer.token)), DenyReason::BearerExpired);
    let dead = bench.mint(-1);
    assert_eq!(dead.expires_at_ms, dead.issued_at_ms);
    bench.clock.0.set(i64::MAX - 1);
    assert_eq!(bench.mint(60).expires_at_ms, i64::MAX);
}

#[test]
fn minting_needs_the_key_device() {
    let mut bench = Bench::new();
    bench.plug.0.set(false);
    let result = bench.eng.relay_mint(policy(), 60, None, None, &mut bench.sink);
    assert_eq!(result.err(), Some(EngineError::UsbRequired));
    assert_eq!(bench.last_row().detail, AuditDetail::Cause { reason: Reason::KeyDeviceAbsent });
    assert!(bench.sink.drain().iter().any(|e| matches!(e, SecretEvent::GuardRefused { subject, .. }
        if subject == "cli")));
}

#[test]
fn minting_needs_an_unlocked_vault() {
    let mut bench = Bench::new();
    bench.eng.lock(&mut bench.sink).unwrap();
    let result = bench.eng.relay_mint(policy(), 60, None, None, &mut bench.sink);
    assert_eq!(result.err(), Some(EngineError::Locked));
}

#[test]
fn pulling_the_key_device_stops_every_request() {
    let mut bench = Bench::new();
    let bearer = bench.mint(60);
    assert_eq!(bench.eng.possesses_usb(), Ok(true));
    bench.plug.0.set(false);
    assert_eq!(bench.eng.possesses_usb(), Ok(false));
    assert_eq!(denied(bench.swap(&bearer.token)), DenyReason::GateAbsent);
    bench.plug.0.set(true);
    assert_eq!(sent(bench.swap(&bearer.token)), b"sk-real".to_vec());
}

#[test]
fn a_locked_vault_refuses_every_request() {
    let mut bench = Bench::new();
    let bearer = bench.mint(60);
    bench.eng.lock(&mut bench.sink).unwrap();
    assert_eq!(refused(bench.swap(&bearer.token)), "vault_locked");
    assert_eq!(bench.last_row().detail, AuditDetail::Cause { reason: Reason::VaultLocked });
    bench.eng.unlock(Unlock::Usb, &mut bench.sink).unwrap();
    assert_eq!(sent(bench.swap(&bearer.token)), b"sk-real".to_vec());
}

#[test]
fn unknown_tokens_are_denied() {
    let mut bench = Bench::new();
    bench.mint(60);
    assert_eq!(denied(bench.swap("evrelay_guess")), DenyReason::UnknownBearer);
    let row = bench.last_row();
    assert_eq!(row.detail, AuditDetail::Denied { reason: DenyReason::UnknownBearer });
    assert_eq!(row.subject, Some("unknown bearer".to_string()));
}

#[test]
fn a_bearer_is_bound_to_its_client() {
    let mut bench = Bench::new();
    let bearer = bench.mint(60);
    let mut req = request();
    req.peer_uid = Some(1001);
    let step = bench.eng.relay_swap(&bearer.token, &req, &mut bench.sink);
    assert_eq!(denied(step), DenyReason::PeerMismatch);
}

#[test]
fn requests_are_counted_when_they_go_out() {
    let mut bench = Bench::new();
    let bearer = bench.mint(60);
    let mut req = request();
    req.host = "evil.example.com".to_string();
    let step = bench.eng.relay_swap(&bearer.token, &req, &mut bench.sink);
    assert_eq!(denied(step), DenyReason::HostNotAllowed);
    sent(bench.swap(&bearer.token));
    sent(bench.swap(&bearer.token));
    assert_eq!(denied(bench.swap(&bearer.token)), DenyReason::BudgetRequests);
}

#[test]
fn a_missing_key_is_refused() {
    let mut bench = Bench::new();
    let mut spec = policy();
    spec.secret_name = "nobody".to_string();
    let bearer = bench.eng.relay_mint(spec, 60, None, None, &mut bench.sink).unwrap();
    assert_eq!(refused(bench.swap(&bearer.token)), "key_unavailable");
}

#[test]
fn a_clock_turned_back_is_noticed() {
    let mut bench = Bench::new();
    let bearer = bench.mint(60);
    bench.clock.0.set(9_999);
    assert_eq!(denied(bench.swap(&bearer.token)), DenyReason::ClockRollback);
}

#[test]
fn a_revoked_relay_is_dead_at_once() {
    let mut bench = Bench::new();
    let first = bench.mint(60);
    let second = bench.mint(60);
    assert_eq!(bench.eng.relay_revoke("cli", false, &mut bench.sink), Ok(0));
    assert_eq!(bench.last_row().detail, AuditDetail::Cause { reason: Reason::RevokeDryRun });
    sent(bench.swap(&first.token));
    assert_eq!(bench.eng.relay_revoke("cli", true, &mut bench.sink), Ok(4));
    assert_eq!(bench.last_row().detail, AuditDetail::Revoked { count: 4 });
    assert_eq!(denied(bench.swap(&first.token)), DenyReason::Revoked);
    assert_eq!(denied(bench.swap(&second.token)), DenyReason::Revoked);
    assert_eq!(bench.eng.relay_revoke("cli", true, &mut bench.sink), Ok(0));
}

#[test]
fn a_single_bearer_can_be_revoked() {
    let mut bench = Bench::new();
    let first = bench.mint(60);
    let second = bench.mint(60);
    assert_eq!(bench.eng.relay_revoke_bearer(&first.token_id, false, &mut bench.sink), Ok(0));
    assert_eq!(bench.eng.relay_revoke_bearer(&first.token_id, true, &mut bench.sink), Ok(1));
    assert_eq!(denied(bench.swap(&first.token)), DenyReason::BearerRevoked);
    sent(bench.swap(&second.token));
    assert_eq!(bench.eng.relay_revoke_bearer("nobody", true, &mut bench.sink), Ok(0));
}

#[test]
fn the_reply_of_the_upstream_ends_a_swap() {
    let resp = EgressResp { status: 200, headers: Vec::new(), allowed: true };
    assert!(matches!(finish_swap(Ok(resp)), SwapOutcome::Allowed(r) if r.status == 200));
    assert!(matches!(finish_swap(Err("down".to_string())), SwapOutcome::InternalRefused(why)
        if why == "down"));
}
