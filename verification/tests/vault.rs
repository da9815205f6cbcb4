//! The vault driven through the engine: events, the audit log and errors.
//!
//! Argon2id runs at the floors, with one lane.
use envctl_secrets::event::AuditOutcome;
use envctl_secrets::error::StoreError;
use envctl_secrets::keyslot::{ARGON2_M_KIB_FLOOR, ARGON2_T_COST_FLOOR};
use envctl_secrets::vault::audit::genesis_hash;
use envctl_secrets::vault::store::{StoreCall, StoreView};
use envctl_secrets::vault::{InMemStore, SecretRow, Store};
use envctl_secrets::{
    Argon2Params, AuditRecord, Engine, EngineError, EventSink, Factor, Keyslot, Provider,
    SecretEvent, SecretMeta, SystemClock, Unlock, UsbProbe, VaultState,
};
use std::cell::RefCell;
use std::rc::Rc;

/// A probe that hands the keyfile out only for the partition that it is on.
struct FakeUsb {
    uuid: String,
    keyfile: Vec<u8>,
}

impl UsbProbe for FakeUsb {
    fn keyfile_for(&self, partition_uuid: &str) -> Option<Vec<u8>> {
        if partition_uuid == self.uuid {
            Some(self.keyfile.clone())
        } else {
            None
        }
    }
}

/// A probe without a key device.
struct AbsentUsb;

impl UsbProbe for AbsentUsb {
    fn keyfile_for(&self, _partition_uuid: &str) -> Option<Vec<u8>> {
        None
    }
}

fn at_floor_params() -> Argon2Params {
    Argon2Params { m_kib: ARGON2_M_KIB_FLOOR, t_cost: ARGON2_T_COST_FLOOR, p_lanes: 1 }
}

fn pp(s: &str) -> String {
    s.to_string()
}

fn engine_with<S: Store, U: UsbProbe>(store: S, usb: U) -> Engine<S, SystemClock, U> {
    Engine::with_seams(store, SystemClock, usb)
}

/// Counts the mirrored audit rows of one event type.
fn audit_count(events: &[SecretEvent], event_type: &str) -> usize {
    events
        .iter()
        .filter(|e| matches!(e, SecretEvent::Audit(r) if r.event_type == event_type))
        .count()
}

fn has_event<F: Fn(&SecretEvent) -> bool>(events: &[SecretEvent], pred: F) -> bool {
    events.iter().any(pred)
}

/// A store that several engines share.
struct SharedStore(Rc<RefCell<InMemStore>>);

impl Store for SharedStore {
    // The two ghost functions of the trait have no value when the program runs.
    fn state(&self) -> StoreView {
        unreachable!()
    }
    fn reliable(&self, _call: StoreCall) -> bool {
        unreachable!()
    }
    fn get_meta(&self, k: &str) -> Result<Option<String>, StoreError> {
        self.0.borrow().get_meta(k)
    }
    fn put_meta(&mut self, k: &str, v: &str) -> Result<(), StoreError> {
        self.0.borrow_mut().put_meta(k, v)
    }
    fn reserve_secret_row_id(&mut self) -> Result<i64, StoreError> {
        self.0.borrow_mut().reserve_secret_row_id()
    }
    fn put_secret(&mut self, row: SecretRow) -> Result<i64, StoreError> {
        self.0.borrow_mut().put_secret(row)
    }
    fn get_secret_latest(&self, name: &str) -> Result<Option<SecretRow>, StoreError> {
        self.0.borrow().get_secret_latest(name)
    }
    fn get_secret_version(
        &self,
        name: &str,
        version: u32,
    ) -> Result<Option<SecretRow>, StoreError> {
        self.0.borrow().get_secret_version(name, version)
    }
    fn max_secret_version(&self, name: &str) -> Result<u32, StoreError> {
        self.0.borrow().max_secret_version(name)
    }
    fn list_secret_names(&self) -> Result<Vec<String>, StoreError> {
        self.0.borrow().list_secret_names()
    }
    fn list_secret_versions(&self, name: &str) -> Result<Vec<u32>, StoreError> {
        self.0.borrow().list_secret_versions(name)
    }
    fn save_keyslot(&mut self, slot: &Keyslot) -> Result<(), StoreError> {
        self.0.borrow_mut().save_keyslot(slot)
    }
    fn load_keyslots(&self) -> Result<Vec<Keyslot>, StoreError> {
        self.0.borrow().load_keyslots()
    }
    fn load_keyslot(&self, id: i64) -> Result<Option<Keyslot>, StoreError> {
        self.0.borrow().load_keyslot(id)
    }
    fn append_audit(&mut self, rec: &AuditRecord) -> Result<i64, StoreError> {
        self.0.borrow_mut().append_audit(rec)
    }
    fn verify_audit_chain(&self) -> Result<(), EngineError> {
        self.0.borrow().verify_audit_chain()
    }
    fn last_audit(&self) -> Result<Option<AuditRecord>, StoreError> {
        self.0.borrow().last_audit()
    }
    fn query_audit(&self, since_seq: i64, limit: usize) -> Result<Vec<AuditRecord>, StoreError> {
        self.0.borrow().query_audit(since_seq, limit)
    }
}

// Init + passphrase unlock + put/get round-trip

#[test]
fn init_passphrase_unlock_put_get_roundtrip() {
    let store = InMemStore::new();
    let mut eng = engine_with(store, AbsentUsb);
    let mut sink = EventSink::new();

    // init
    eng.init_vault(pp("super-secret-pass"), None, None, at_floor_params(), &mut sink)
        .expect("init_vault must succeed");
    let ev = sink.drain();
    assert_eq!(audit_count(&ev, "vault_init"), 1, "a vault_init audit row must land");

    // unlock
    let st = eng
        .unlock(Unlock::Passphrase(pp("super-secret-pass")), &mut sink)
        .expect("unlock must succeed");
    assert_eq!(st, VaultState::Unlocked);
    let ev = sink.drain();
    assert!(
        has_event(&ev, |e| matches!(
            e,
            SecretEvent::VaultUnlocked { factor: Factor::Passphrase }
        )),
        "VaultUnlocked{{Passphrase}} must be emitted"
    );

    // put v1
    eng.secret_put(
        SecretMeta {
            name: "anthropic".to_string(),
            provider: Provider::Anthropic,
            note: String::new(),
            broker_only: false,
        },
        b"sk-live-xyz".to_vec(),
        &mut sink,
    )
    .expect("secret_put must succeed");
    let ev = sink.drain();
    assert!(
        has_event(&ev, |e| matches!(
            e,
            SecretEvent::SecretWritten { name, version: 1 } if name == "anthropic"
        )),
        "SecretWritten{{anthropic,v1}} must be emitted"
    );

    // get v1 (reveal + apply)
    let got = eng
        .secret_get("anthropic", true, true, &mut sink)
        .expect("secret_get must succeed");
    assert_eq!(got.as_slice(), b"sk-live-xyz");
    let ev = sink.drain();
    assert!(
        has_event(&ev, |e| matches!(e, SecretEvent::SecretRead { name, .. } if name == "anthropic")),
        "SecretRead must be emitted"
    );

    // put v2 (latest-wins)
    eng.secret_put(
        SecretMeta {
            name: "anthropic".to_string(),
            provider: Provider::Anthropic,
            note: String::new(),
            broker_only: false,
        },
        b"sk-live-v2".to_vec(),
        &mut sink,
    )
    .expect("secret_put v2 must succeed");
    let ev = sink.drain();
    assert!(
        has_event(&ev, |e| matches!(
            e,
            SecretEvent::SecretWritten { name, version: 2 } if name == "anthropic"
        )),
        "SecretWritten{{anthropic,v2}} must be emitted"
    );

    let got2 = eng
        .secret_get("anthropic", true, true, &mut sink)
        .expect("secret_get v2 must succeed");
    assert_eq!(got2.as_slice(), b"sk-live-v2", "latest-wins returns v2 bytes");
}

// USB keyslot unlock via fake probe

#[test]
fn usb_keyslot_unlock_via_fake_probe() {
    // A dual-KEK vault: passphrase + USB. A fresh engine over the same store models a daemon restart
    // with another probe.
    let inmem = Rc::new(RefCell::new(InMemStore::new()));
    let keyfile = vec![0xA5u8; 64];

    let store_for_init = SharedStore(inmem.clone());
    let mut eng_init = engine_with(
        store_for_init,
        FakeUsb { uuid: "1234-ABCD".to_string(), keyfile: keyfile.clone() },
    );
    let mut sink = EventSink::new();

    eng_init
        .init_vault(
            pp("dual-factor-pass"),
            Some("1234-ABCD".to_string()),
            Some(keyfile.clone()),
            at_floor_params(),
            &mut sink,
        )
        .expect("dual-KEK init must succeed");
    let _ = sink.drain();

    // Unlock via USB on an engine whose probe DOES possess the matching keyfile.
    let mut eng_usb = engine_with(
        SharedStore(inmem.clone()),
        FakeUsb { uuid: "1234-ABCD".to_string(), keyfile: keyfile.clone() },
    );
    let st = eng_usb.unlock(Unlock::Usb, &mut sink).expect("USB unlock must succeed");
    assert_eq!(st, VaultState::Unlocked);
    let ev = sink.drain();
    assert!(
        has_event(&ev, |e| matches!(
            e,
            SecretEvent::VaultUnlocked { factor: Factor::Usb }
        )),
        "VaultUnlocked{{Usb}} must be emitted"
    );

    // Same DEK regardless of factor: put then get round-trips.
    eng_usb
        .secret_put(
            SecretMeta {
                name: "gh".to_string(),
                provider: Provider::Github,
                note: String::new(),
                broker_only: false,
            },
            b"ghp_token".to_vec(),
            &mut sink,
        )
        .expect("put under USB-unlocked vault");
    let got = eng_usb
        .secret_get("gh", true, true, &mut sink)
        .expect("get under USB-unlocked vault");
    assert_eq!(got.as_slice(), b"ghp_token");
    let _ = sink.drain();

    // Negative: a fresh engine over the SAME store but with a WRONG UUID (possession unproven)
    // must fail to unlock via USB and emit no VaultUnlocked.
    let mut eng_wrong = engine_with(
        SharedStore(inmem.clone()),
        FakeUsb { uuid: "WRONG-UUID".to_string(), keyfile: keyfile.clone() },
    );
    let err = eng_wrong
        .unlock(Unlock::Usb, &mut sink)
        .expect_err("wrong-UUID USB unlock must fail");
    assert!(
        matches!(err, EngineError::UnlockFailed),
        "expected UnlockFailed, got {err:?}"
    );
    let ev = sink.drain();
    assert!(
        !has_event(&ev, |e| matches!(e, SecretEvent::VaultUnlocked { .. })),
        "no VaultUnlocked on a failed USB unlock"
    );

    // And an absent probe likewise fails.
    let mut eng_absent = engine_with(SharedStore(inmem.clone()), AbsentUsb);
    let err = eng_absent
        .unlock(Unlock::Usb, &mut sink)
        .expect_err("absent USB unlock must fail");
    assert!(matches!(err, EngineError::UnlockFailed));
}

// Wrong passphrase fails

#[test]
fn wrong_passphrase_fails() {
    let mut eng = engine_with(InMemStore::new(), AbsentUsb);
    let mut sink = EventSink::new();
    eng.init_vault(pp("the-real-pass"), None, None, at_floor_params(), &mut sink)
        .expect("init");
    let _ = sink.drain();

    let err = eng
        .unlock(Unlock::Passphrase(pp("nope")), &mut sink)
        .expect_err("wrong passphrase must fail");
    assert!(
        matches!(err, EngineError::UnlockFailed),
        "expected the single generic UnlockFailed, got {err:?}"
    );
    // Single generic message.
    assert_eq!(err.message(), "unlock failed");

    let ev = sink.drain();
    assert!(
        !has_event(&ev, |e| matches!(e, SecretEvent::VaultUnlocked { .. })),
        "no VaultUnlocked on wrong passphrase"
    );
    assert!(
        ev.iter().any(|e| matches!(
            e,
            SecretEvent::Audit(r)
                if r.event_type == "vault_unlock"
                    && r.outcome == AuditOutcome::Failed
        )),
        "a Failed vault_unlock audit row must be appended"
    );
}

// Lock zeroizes; subsequent get/put refused; re-unlock recovers

#[test]
fn lock_zeroizes_then_get_refused() {
    let mut eng = engine_with(InMemStore::new(), AbsentUsb);
    let mut sink = EventSink::new();
    eng.init_vault(pp("lock-pass"), None, None, at_floor_params(), &mut sink)
        .unwrap();
    eng.unlock(Unlock::Passphrase(pp("lock-pass")), &mut sink).unwrap();
    eng.secret_put(
        SecretMeta {
            name: "anthropic".to_string(),
            provider: Provider::Anthropic,
            note: String::new(),
            broker_only: false,
        },
        b"sk-locked".to_vec(),
        &mut sink,
    )
    .unwrap();
    let _ = sink.drain();

    // lock
    eng.lock(&mut sink).expect("lock must succeed");
    let ev = sink.drain();
    assert!(
        has_event(&ev, |e| matches!(e, SecretEvent::VaultLocked)),
        "VaultLocked must be emitted"
    );

    // get while locked => Err(Locked)
    let err = eng
        .secret_get("anthropic", true, true, &mut sink)
        .expect_err("get while locked must fail");
    assert!(matches!(err, EngineError::Locked));

    // put while locked => Err(Locked)
    let err = eng
        .secret_put(
            SecretMeta {
                name: "anthropic".to_string(),
                provider: Provider::Anthropic,
                note: String::new(),
                broker_only: false,
            },
            b"x".to_vec(),
            &mut sink,
        )
        .expect_err("put while locked must fail");
    assert!(matches!(err, EngineError::Locked));

    // re-unlock => persisted ciphertext is intact; only the RAM key was wiped.
    eng.unlock(Unlock::Passphrase(pp("lock-pass")), &mut sink)
        .expect("re-unlock must succeed");
    let got = eng
        .secret_get("anthropic", true, true, &mut sink)
        .expect("get after re-unlock must succeed");
    assert_eq!(got.as_slice(), b"sk-locked");

    // lock is idempotent.
    eng.lock(&mut sink).unwrap();
    eng.lock(&mut sink).unwrap();
}

// Reveal gate: broker_only + apply

#[test]
fn reveal_gate_broker_only_and_apply() {
    let mut eng = engine_with(InMemStore::new(), AbsentUsb);
    let mut sink = EventSink::new();
    eng.init_vault(pp("gate-pass"), None, None, at_floor_params(), &mut sink)
        .unwrap();
    eng.unlock(Unlock::Passphrase(pp("gate-pass")), &mut sink).unwrap();

    // broker_only secret
    eng.secret_put(
        SecretMeta {
            name: "bonly".to_string(),
            provider: Provider::Anthropic,
            note: String::new(),
            broker_only: true,
        },
        b"never-reveal".to_vec(),
        &mut sink,
    )
    .unwrap();
    // normal secret
    eng.secret_put(
        SecretMeta {
            name: "normal".to_string(),
            provider: Provider::Anthropic,
            note: String::new(),
            broker_only: false,
        },
        b"reveal-with-apply".to_vec(),
        &mut sink,
    )
    .unwrap();
    let _ = sink.drain();

    // broker_only + reveal + apply => REFUSED
    let err = eng
        .secret_get("bonly", true, true, &mut sink)
        .expect_err("broker-only reveal must be refused");
    assert!(err.message().contains("broker-only"));
    let ev = sink.drain();
    assert!(
        has_event(&ev, |e| matches!(e, SecretEvent::GuardRefused { subject, .. } if subject == "bonly")),
        "GuardRefused must be emitted for the broker-only reveal"
    );
    assert!(
        ev.iter().any(|e| matches!(
            e,
            SecretEvent::Audit(r)
                if r.event_type == "secret_read"
                    && r.outcome == AuditOutcome::Refused
        )),
        "a Refused secret_read audit row must be appended"
    );

    // normal + reveal + !apply => REFUSED (apply gate)
    let err = eng
        .secret_get("normal", true, false, &mut sink)
        .expect_err("reveal without apply must be refused");
    assert!(err.message().contains("apply"));
    let ev = sink.drain();
    assert!(
        has_event(&ev, |e| matches!(e, SecretEvent::GuardRefused { subject, .. } if subject == "normal")),
        "GuardRefused must be emitted for the apply gate"
    );

    // normal + reveal=false + apply=false => NOT refused on the apply gate (no reveal requested).
    let out = eng
        .secret_get("normal", false, false, &mut sink)
        .expect("a non-revealing read must not be refused by the apply gate");
    assert!(
        out.as_slice().is_empty(),
        "a non-revealing read returns no plaintext to the caller"
    );
    let ev = sink.drain();
    assert!(
        !has_event(&ev, |e| matches!(e, SecretEvent::GuardRefused { .. })),
        "no GuardRefused for a non-revealing read"
    );
    assert!(
        has_event(&ev, |e| matches!(e, SecretEvent::SecretRead { name, .. } if name == "normal")),
        "a SecretRead is still emitted for the non-revealing read"
    );
}

// Audit chain verifies + detects tamper

#[test]
fn audit_chain_verifies_and_detects_tamper() {
    // The store is shared, so that the test can get at it behind the back of the engine.
    let inmem = Rc::new(RefCell::new(InMemStore::new()));
    let mut eng = engine_with(SharedStore(inmem.clone()), AbsentUsb);
    let mut sink = EventSink::new();

    eng.init_vault(pp("chain-pass"), None, None, at_floor_params(), &mut sink)
        .unwrap();
    eng.unlock(Unlock::Passphrase(pp("chain-pass")), &mut sink).unwrap();
    eng.secret_put(
        SecretMeta {
            name: "a".to_string(),
            provider: Provider::Generic,
            note: String::new(),
            broker_only: false,
        },
        b"v1".to_vec(),
        &mut sink,
    )
    .unwrap();
    eng.secret_put(
        SecretMeta {
            name: "a".to_string(),
            provider: Provider::Generic,
            note: String::new(),
            broker_only: false,
        },
        b"v2".to_vec(),
        &mut sink,
    )
    .unwrap();
    let _ = sink.drain();

    // The chain verifies, and the rows are contiguous + linked.
    inmem.borrow().verify_audit_chain().expect("a clean chain must verify");
    let rows = inmem.borrow().audit_rows();
    assert!(rows.len() >= 4, "init + unlock + 2 puts => >= 4 audit rows");
    assert_eq!(
        rows[0].prev_hash,
        genesis_hash().to_vec(),
        "row 0 links to genesis"
    );
    for (i, r) in rows.iter().enumerate() {
        assert_eq!(r.seq, (i as i64) + 1, "seq must be 1..=n contiguous");
    }
    for w in rows.windows(2) {
        assert_eq!(w[1].prev_hash, w[0].row_hash, "prev_hash == prior row_hash");
    }

    // Tamper a MIDDLE row's subject without recomputing row_hash => the chain breaks at that seq.
    let target_seq = 2i64;
    inmem.borrow_mut().tamper_audit_subject(target_seq);
    let err = inmem
        .borrow()
        .verify_audit_chain()
        .expect_err("a tampered chain must not verify");
    assert!(
        matches!(err, EngineError::AuditChainBroken(seq) if seq == target_seq),
        "expected AuditChainBroken({target_seq}), got {err:?}"
    );
}

// Audit tail-truncation is detected by the DEK-keyed anchor

#[test]
fn audit_tail_truncation_is_detected() {
    let inmem = Rc::new(RefCell::new(InMemStore::new()));
    let mut eng = engine_with(SharedStore(inmem.clone()), AbsentUsb);
    let mut sink = EventSink::new();

    eng.init_vault(pp("trunc-pass"), None, None, at_floor_params(), &mut sink)
        .unwrap();
    eng.unlock(Unlock::Passphrase(pp("trunc-pass")), &mut sink).unwrap();
    for _ in 0..3 {
        eng.secret_put(
            SecretMeta {
                name: "a".to_string(),
                provider: Provider::Generic,
                note: String::new(),
                broker_only: false,
            },
            b"v".to_vec(),
            &mut sink,
        )
        .unwrap();
    }
    let _ = sink.drain();

    // The unkeyed chain verifies AND the DEK-keyed anchor verifies while unlocked.
    inmem.borrow().verify_audit_chain().expect("clean chain verifies");
    eng.verify_audit_anchor(&sink)
        .expect("anchor verifies on a clean chain");

    // Drop the most recent rows (e.g. a refused reveal / failed unlock). The unkeyed chain STILL
    // verifies (it is just shorter), which is exactly the gap the anchor closes.
    let before = inmem.borrow().audit_rows().len();
    inmem.borrow_mut().truncate_audit_tail(2);
    assert_eq!(inmem.borrow().audit_rows().len(), before - 2);
    inmem
        .borrow()
        .verify_audit_chain()
        .expect("a truncated chain still passes the UNKEYED verifier (the gap)");

    // The DEK-keyed anchor catches the truncation: the anchored (seq, row_hash) is no longer
    // reproducible from any row in the shortened chain.
    let err = eng
        .verify_audit_anchor(&sink)
        .expect_err("the anchor must detect tail truncation");
    assert!(
        matches!(err, EngineError::AuditChainBroken(_)),
        "expected AuditChainBroken, got {err:?}"
    );
}

// A tampered dek_generation meta is caught at unlock (not silently defaulted)

#[test]
fn tampered_dek_generation_refuses_unlock() {
    let inmem = Rc::new(RefCell::new(InMemStore::new()));
    let mut eng = engine_with(SharedStore(inmem.clone()), AbsentUsb);
    let mut sink = EventSink::new();

    eng.init_vault(pp("gen-pass"), None, None, at_floor_params(), &mut sink)
        .unwrap();
    let _ = sink.drain();

    // The generation that secret_put seals for. A value that disagrees with the authenticated slots
    // must refuse the unlock.
    inmem.borrow_mut().tamper_meta("vault.dek_generation", "7");

    let err = eng
        .unlock(Unlock::Passphrase(pp("gen-pass")), &mut sink)
        .expect_err("a tampered dek_generation must refuse unlock");
    assert!(
        matches!(err, EngineError::HeaderMacMismatch),
        "expected HeaderMacMismatch, got {err:?}"
    );
    let ev = sink.drain();
    assert!(
        !has_event(&ev, |e| matches!(e, SecretEvent::VaultUnlocked { .. })),
        "no VaultUnlocked on a generation-mismatch unlock"
    );
}

// Re-unlock with a WRONG passphrase on a live vault is idempotent (state guard)

#[test]
fn reunlock_with_wrong_passphrase_leaves_vault_unlocked() {
    let mut eng = engine_with(InMemStore::new(), AbsentUsb);
    let mut sink = EventSink::new();
    eng.init_vault(pp("live-pass"), None, None, at_floor_params(), &mut sink)
        .unwrap();
    eng.unlock(Unlock::Passphrase(pp("live-pass")), &mut sink).unwrap();
    eng.secret_put(
        SecretMeta {
            name: "k".to_string(),
            provider: Provider::Generic,
            note: String::new(),
            broker_only: false,
        },
        b"value".to_vec(),
        &mut sink,
    )
    .unwrap();
    let _ = sink.drain();

    // Re-unlock the ALREADY-unlocked vault with a WRONG passphrase. The state guard short-circuits
    // before any KEK derivation, returning Unlocked idempotently — it must NOT fail (which would
    // mislead a caller into thinking the vault is now unusable) and must NOT grind Argon2.
    let st = eng
        .unlock(Unlock::Passphrase(pp("totally-wrong")), &mut sink)
        .expect("re-unlock of a live vault is idempotent, not an error");
    assert_eq!(st, VaultState::Unlocked);

    // The live DEK is intact: the secret still round-trips.
    let got = eng
        .secret_get("k", true, true, &mut sink)
        .expect("the vault is still unlocked after the idempotent re-unlock");
    assert_eq!(got.as_slice(), b"value");
}

// Many secret_puts all round-trip (AAD/row_id binding holds; no dead records)

#[test]
fn many_puts_all_round_trip() {
    let mut eng = engine_with(InMemStore::new(), AbsentUsb);
    let mut sink = EventSink::new();
    eng.init_vault(pp("multi-pass"), None, None, at_floor_params(), &mut sink)
        .unwrap();
    eng.unlock(Unlock::Passphrase(pp("multi-pass")), &mut sink).unwrap();

    // Distinct names interleaved so row_id and version advance independently — the store is the
    // sole row_id authority and the engine seals the AAD against exactly the reserved id, so every
    // stored row must open (no AAD/row_id divergence, no dead records).
    let names = ["alpha", "beta", "gamma", "delta"];
    for round in 0u8..5 {
        for n in names {
            let body = format!("{n}-secret-{round}");
            eng.secret_put(
                SecretMeta {
                    name: n.to_string(),
                    provider: Provider::Generic,
                    note: String::new(),
                    broker_only: false,
                },
                body.into_bytes(),
                &mut sink,
            )
            .expect("each put must succeed");
        }
    }
    let _ = sink.drain();

    // Latest of each name opens to its last round's value.
    for n in names {
        let got = eng
            .secret_get(n, true, true, &mut sink)
            .expect("latest version must open (AAD binding intact)");
        assert_eq!(got.as_slice(), format!("{n}-secret-4").as_bytes());
    }
}

// A HeaderMacMismatch leaves the vault Locked

#[test]
fn header_mac_mismatch_leaves_vault_locked() {
    let inmem = Rc::new(RefCell::new(InMemStore::new()));
    let mut eng = engine_with(SharedStore(inmem.clone()), AbsentUsb);
    let mut sink = EventSink::new();
    eng.init_vault(pp("mac-pass"), None, None, at_floor_params(), &mut sink)
        .unwrap();
    let _ = sink.drain();

    // Corrupt the stored header MAC so verify_header_mac fails after the DEK is recovered.
    inmem.borrow_mut().tamper_meta("vault.header_mac", &"00".repeat(32));

    let err = eng
        .unlock(Unlock::Passphrase(pp("mac-pass")), &mut sink)
        .expect_err("a drifted header MAC must refuse unlock");
    assert!(matches!(err, EngineError::HeaderMacMismatch));

    // The vault must remain Locked: a subsequent get returns Locked, NOT a recovered secret.
    let err = eng
        .secret_get("anything", true, true, &mut sink)
        .expect_err("vault must stay locked after a header-MAC mismatch");
    assert!(matches!(err, EngineError::Locked));
}
