//! Every way in which an engine operation is refused or fails.
use envctl_secrets::engine::init::{draw_material, enroll, Material};
use envctl_secrets::error::StoreError;
use envctl_secrets::event::{AuditDetail, AuditOutcome, Reason};
use envctl_secrets::keyslot::{Dek, ARGON2_M_KIB_FLOOR, ARGON2_T_COST_FLOOR};
use envctl_secrets::seam::Timestamp;
use envctl_secrets::vault::store::{StoreCall, StoreView};
use envctl_secrets::vault::{InMemStore, SecretRow, Store};
use envctl_secrets::{
    Argon2Params, AuditRecord, Clock, EgressReq, Engine, EngineError, EventSink, Keyslot, Method,
    Provider, RelayPolicy, SecretEvent, SecretMeta, SwapStep, Unlock, UsbProbe, VaultState,
};
use std::cell::RefCell;
use std::rc::Rc;

/// What a rigged store does wrong.
#[derive(Default)]
struct Fault {
    hidden_meta: Option<&'static str>,
    shifted_row_id: bool,
    flipped_ciphertext: bool,
    refused_appends: bool,
    refused_secrets: bool,
    refused_meta: bool,
    unreadable_meta: bool,
    unreadable_tail: bool,
    unreadable_key: Option<&'static str>,
    unreadable_secrets: bool,
    uncheckable_log: bool,
}

fn disk_full() -> StoreError {
    StoreError::Backend("disk full".to_string())
}

/// A store that several engines share and that can be made to misbehave.
#[derive(Clone)]
struct Rigged(Rc<RefCell<(InMemStore, Fault)>>);

impl Rigged {
    fn new() -> Self {
        Rigged(Rc::new(RefCell::new((InMemStore::new(), Fault::default()))))
    }
}

impl Store for Rigged {
    fn state(&self) -> StoreView {
        unreachable!()
    }
    fn reliable(&self, _call: StoreCall) -> bool {
        unreachable!()
    }
    fn get_meta(&self, k: &str) -> Result<Option<String>, StoreError> {
        if self.0.borrow().1.unreadable_meta || self.0.borrow().1.unreadable_key == Some(k) {
            return Err(disk_full());
        }
        if self.0.borrow().1.hidden_meta == Some(k) {
            return Ok(None);
        }
        self.0.borrow().0.get_meta(k)
    }
    fn put_meta(&mut self, k: &str, v: &str) -> Result<(), StoreError> {
        if self.0.borrow().1.refused_meta {
            return Err(disk_full());
        }
        self.0.borrow_mut().0.put_meta(k, v)
    }
    fn reserve_secret_row_id(&mut self) -> Result<i64, StoreError> {
        self.0.borrow_mut().0.reserve_secret_row_id()
    }
    fn put_secret(&mut self, mut row: SecretRow) -> Result<i64, StoreError> {
        if self.0.borrow().1.refused_secrets {
            return Err(disk_full());
        }
        if self.0.borrow().1.shifted_row_id {
            row.row_id = self.reserve_secret_row_id()?;
        }
        self.0.borrow_mut().0.put_secret(row)
    }
    fn get_secret_latest(&self, name: &str) -> Result<Option<SecretRow>, StoreError> {
        if self.0.borrow().1.unreadable_secrets {
            return Err(disk_full());
        }
        let mut row = self.0.borrow().0.get_secret_latest(name)?;
        if self.0.borrow().1.flipped_ciphertext {
            if let Some(r) = row.as_mut() {
                r.ct_tag[0] ^= 1;
            }
        }
        Ok(row)
    }
    fn get_secret_version(
        &self,
        name: &str,
        version: u32,
    ) -> Result<Option<SecretRow>, StoreError> {
        self.0.borrow().0.get_secret_version(name, version)
    }
    fn max_secret_version(&self, name: &str) -> Result<u32, StoreError> {
        self.0.borrow().0.max_secret_version(name)
    }
    fn list_secret_names(&self) -> Result<Vec<String>, StoreError> {
        self.0.borrow().0.list_secret_names()
    }
    fn list_secret_versions(&self, name: &str) -> Result<Vec<u32>, StoreError> {
        self.0.borrow().0.list_secret_versions(name)
    }
    fn save_keyslot(&mut self, slot: &Keyslot) -> Result<(), StoreError> {
        self.0.borrow_mut().0.save_keyslot(slot)
    }
    fn load_keyslots(&self) -> Result<Vec<Keyslot>, StoreError> {
        self.0.borrow().0.load_keyslots()
    }
    fn load_keyslot(&self, id: i64) -> Result<Option<Keyslot>, StoreError> {
        self.0.borrow().0.load_keyslot(id)
    }
    fn append_audit(&mut self, rec: &AuditRecord) -> Result<i64, StoreError> {
        if self.0.borrow().1.refused_appends {
            return Err(disk_full());
        }
        self.0.borrow_mut().0.append_audit(rec)
    }
    fn verify_audit_chain(&self) -> Result<(), EngineError> {
        if self.0.borrow().1.uncheckable_log {
            return Err(EngineError::Store(disk_full()));
        }
        self.0.borrow().0.verify_audit_chain()
    }
    fn last_audit(&self) -> Result<Option<AuditRecord>, StoreError> {
        if self.0.borrow().1.unreadable_tail {
            return Err(disk_full());
        }
        self.0.borrow().0.last_audit()
    }
    fn query_audit(&self, since_seq: i64, limit: usize) -> Result<Vec<AuditRecord>, StoreError> {
        self.0.borrow().0.query_audit(since_seq, limit)
    }
}

/// A clock that stands still.
struct FixedClock(i64);

impl Clock for FixedClock {
    fn now(&self) -> Timestamp {
        Timestamp { ms: self.0, rfc3339: "2024-01-01T00:00:00+00:00".to_string() }
    }
}

/// The key device, if it is there.
struct Key(Option<Vec<u8>>);

impl UsbProbe for Key {
    fn keyfile_for(&self, partition_uuid: &str) -> Option<Vec<u8>> {
        if partition_uuid == "PART" {
            self.0.clone()
        } else {
            None
        }
    }
}

const OWNER: u32 = 1000;

fn engine(store: &Rigged) -> Engine<Rigged, FixedClock, Key> {
    Engine::with_owner(store.clone(), FixedClock(1_000), Key(Some(vec![7; 32])), OWNER)
}

fn params() -> Argon2Params {
    Argon2Params { m_kib: ARGON2_M_KIB_FLOOR, t_cost: ARGON2_T_COST_FLOOR, p_lanes: 1 }
}

/// Slots as a new vault has them, with a cheap stand-in for the passphrase slot.
fn usb_only_slots() -> (Dek, Vec<Keyslot>) {
    let material = Material {
        dek: Dek([5; 32]),
        passphrase_salt: vec![1; 16],
        passphrase_nonce: vec![2; 24],
        usb: Some((vec![3; 32], vec![4; 24])),
    };
    let cheap = Argon2Params { m_kib: 8, t_cost: 1, p_lanes: 1 };
    let slots = enroll(
        &material,
        "pass",
        &Some("PART".to_string()),
        &Some(vec![7; 32]),
        cheap,
    );
    (material.dek, slots)
}

/// A vault that opens by USB, made without an expensive derivation.
fn usb_vault() -> (Rigged, Engine<Rigged, FixedClock, Key>, EventSink) {
    let store = Rigged::new();
    let mut eng = engine(&store);
    let mut sink = EventSink::new();
    let (dek, slots) = usb_only_slots();
    eng.commit_vault(&dek, &slots, 1_000, &mut sink).unwrap();
    (store, eng, sink)
}

fn open_vault() -> (Rigged, Engine<Rigged, FixedClock, Key>, EventSink) {
    let (store, mut eng, mut sink) = usb_vault();
    assert_eq!(eng.unlock(Unlock::Usb, &mut sink), Ok(VaultState::Unlocked));
    sink.drain();
    (store, eng, sink)
}

fn meta(name: &str) -> SecretMeta {
    SecretMeta {
        name: name.to_string(),
        provider: Provider::Generic,
        note: "note".to_string(),
        broker_only: false,
    }
}

fn last_row(store: &Rigged) -> AuditRecord {
    store.last_audit().unwrap().unwrap()
}

#[test]
fn init_refuses_an_existing_vault() {
    let (_, mut eng, mut sink) = usb_vault();
    sink.drain();
    let result = eng.init_vault("p".to_string(), None, None, params(), &mut sink);
    assert_eq!(result, Err(EngineError::AlreadyInitialized));
    let no_lanes = Argon2Params { p_lanes: 0, ..params() };
    let result = eng.init_vault("p".to_string(), None, None, no_lanes, &mut sink);
    assert_eq!(result, Err(EngineError::AlreadyInitialized));
    assert!(sink.drain().is_empty());
}

#[test]
fn init_refuses_parameters_below_the_floors() {
    let store = Rigged::new();
    let mut eng = engine(&store);
    let mut sink = EventSink::new();
    let weak = Argon2Params { m_kib: ARGON2_M_KIB_FLOOR - 1, ..params() };
    assert_eq!(
        eng.init_vault("p".to_string(), None, None, weak, &mut sink),
        Err(EngineError::Argon2MemoryBelowFloor {
            m_kib: ARGON2_M_KIB_FLOOR - 1,
            floor: ARGON2_M_KIB_FLOOR
        })
    );
    let fast = Argon2Params { t_cost: ARGON2_T_COST_FLOOR - 1, ..params() };
    assert_eq!(
        eng.init_vault("p".to_string(), None, None, fast, &mut sink),
        Err(EngineError::Argon2TimeBelowFloor {
            t_cost: ARGON2_T_COST_FLOOR - 1,
            floor: ARGON2_T_COST_FLOOR
        })
    );
    assert!(store.load_keyslots().unwrap().is_empty());
}

#[test]
fn init_refuses_a_keyfile_without_its_partition() {
    let store = Rigged::new();
    let mut eng = engine(&store);
    let mut sink = EventSink::new();
    assert_eq!(
        eng.init_vault("p".to_string(), None, Some(vec![7; 32]), params(), &mut sink),
        Err(EngineError::UsbPartitionMissing)
    );
    assert!(store.load_keyslots().unwrap().is_empty());
    assert!(store.last_audit().unwrap().is_none());
}

#[test]
fn init_writes_header_slots_and_one_audit_row() {
    let store = Rigged::new();
    let mut eng = engine(&store);
    let mut sink = EventSink::new();
    eng.init_vault(
        "pass".to_string(),
        Some("PART".to_string()),
        Some(vec![7; 32]),
        params(),
        &mut sink,
    )
    .unwrap();
    assert!(!eng.is_unlocked());
    let slots = store.load_keyslots().unwrap();
    assert_eq!(slots.iter().map(|s| s.id).collect::<Vec<i64>>(), vec![1, 2]);
    assert_eq!((slots[0].salt.len(), slots[1].salt.len()), (16, 32));
    assert!(slots.iter().all(|s| s.wrap_nonce.len() == 24 && s.wrapped_dek.len() == 48));
    assert_ne!(slots[0].wrapped_dek, slots[1].wrapped_dek);
    assert_eq!(store.get_meta("vault.issuance_floor_ms").unwrap(), Some("1000".to_string()));
    assert_eq!(store.get_meta("vault.dek_generation").unwrap(), Some("1".to_string()));
    assert_eq!(store.get_meta("vault.header_mac").unwrap().unwrap().len(), 64);
    assert_eq!(store.get_meta("vault.audit_head").unwrap().unwrap().len(), 64);
    let row = last_row(&store);
    assert_eq!(row.event_type, "vault_init");
    assert_eq!(row.detail, AuditDetail::Init { slots: 2, dek_generation: 1 });
    assert_eq!(row.actor_uid, Some(OWNER));
    assert_eq!(eng.unlock(Unlock::Usb, &mut sink), Ok(VaultState::Unlocked));
}

#[test]
fn a_vault_that_cannot_be_finished_is_not_told() {
    let (dek, slots) = usb_only_slots();
    let store = Rigged::new();
    let mut eng = engine(&store);
    let mut sink = EventSink::new();
    store.0.borrow_mut().1.refused_meta = true;
    assert_eq!(
        eng.commit_vault(&dek, &slots, 1_000, &mut sink),
        Err(EngineError::Store(disk_full()))
    );
    assert!(sink.drain().is_empty());
    assert_eq!(store.load_keyslots().unwrap().len(), 2);
    assert_eq!(store.get_meta("vault.header_mac").unwrap(), None);
    assert!(store.last_audit().unwrap().is_none());

    let store = Rigged::new();
    let mut eng = engine(&store);
    store.0.borrow_mut().1.refused_appends = true;
    assert_eq!(
        eng.commit_vault(&dek, &slots, 1_000, &mut sink),
        Err(EngineError::Store(disk_full()))
    );
    assert!(sink.drain().is_empty());
    assert_eq!(store.get_meta("vault.dek_generation").unwrap(), Some("1".to_string()));
    assert_eq!(store.get_meta("vault.audit_head").unwrap(), None);
}

#[test]
fn a_mirrored_row_has_its_number_but_no_hashes() {
    let (store, mut eng, mut sink) = usb_vault();
    sink.drain();
    eng.lock(&mut sink).unwrap();
    let events = sink.drain();
    assert_eq!(events.len(), 2);
    assert!(matches!(&events[0], SecretEvent::Audit(r)
        if r.seq == 2 && r.event_type == "vault_locked" && r.row_hash.is_empty()));
    assert!(matches!(events[1], SecretEvent::VaultLocked));
    assert_eq!(last_row(&store).row_hash.len(), 32);
}

#[test]
fn an_unreadable_header_fails_without_an_audit_row() {
    for key in ["vault.header_mac", "vault.issuance_floor_ms"] {
        let (store, mut eng, mut sink) = usb_vault();
        store.0.borrow_mut().1.hidden_meta = Some(key);
        let rows = last_row(&store).seq;
        assert_eq!(eng.unlock(Unlock::Usb, &mut sink), Err(EngineError::UnlockFailed));
        assert_eq!(last_row(&store).seq, rows);
        store.0.borrow_mut().1.hidden_meta = None;
        store.clone().put_meta(key, "not a value").unwrap();
        assert_eq!(eng.unlock(Unlock::Usb, &mut sink), Err(EngineError::UnlockFailed));
        assert!(!eng.is_unlocked());
    }
}

#[test]
fn a_missing_or_garbled_generation_refuses_unlock_and_put() {
    let (store, mut eng, mut sink) = usb_vault();
    let rows = last_row(&store).seq;
    sink.drain();
    store.0.borrow_mut().1.hidden_meta = Some("vault.dek_generation");
    assert_eq!(eng.unlock(Unlock::Usb, &mut sink), Err(EngineError::HeaderMacMismatch));
    store.0.borrow_mut().1.hidden_meta = None;
    for garbled in ["one", "", "+1 ", "4294967296"] {
        store.clone().put_meta("vault.dek_generation", garbled).unwrap();
        assert_eq!(eng.unlock(Unlock::Usb, &mut sink), Err(EngineError::HeaderMacMismatch));
        assert!(!eng.is_unlocked());
        let row = last_row(&store);
        assert_eq!(row.event_type, "vault_unlock");
        assert_eq!(row.outcome, AuditOutcome::Failed);
        assert_eq!(row.detail, AuditDetail::Cause { reason: Reason::DekGeneration });
    }
    assert_eq!(last_row(&store).seq, rows + 5);
    assert!(sink.drain().iter().all(|e| matches!(e, SecretEvent::Audit(_))));
    store.clone().put_meta("vault.dek_generation", "1").unwrap();
    assert_eq!(eng.unlock(Unlock::Usb, &mut sink), Ok(VaultState::Unlocked));
    store.clone().put_meta("vault.dek_generation", "one").unwrap();
    assert_eq!(
        eng.secret_put(meta("k"), b"v".to_vec(), &mut sink),
        Err(EngineError::DekGenerationInvalid)
    );
    store.0.borrow_mut().1.hidden_meta = Some("vault.dek_generation");
    assert_eq!(
        eng.secret_put(meta("k"), b"v".to_vec(), &mut sink),
        Err(EngineError::DekGenerationMissing)
    );
}

#[test]
fn an_unlock_records_why_it_was_refused() {
    let (store, mut eng, mut sink) = usb_vault();
    store.clone().put_meta("vault.dek_generation", "2").unwrap();
    assert_eq!(eng.unlock(Unlock::Usb, &mut sink), Err(EngineError::HeaderMacMismatch));
    assert_eq!(last_row(&store).detail, AuditDetail::Cause { reason: Reason::DekGeneration });
    store.clone().put_meta("vault.dek_generation", "1").unwrap();
    store.clone().put_meta("vault.issuance_floor_ms", "999").unwrap();
    assert_eq!(eng.unlock(Unlock::Usb, &mut sink), Err(EngineError::HeaderMacMismatch));
    assert_eq!(last_row(&store).detail, AuditDetail::Cause { reason: Reason::HeaderMac });
    assert_eq!(last_row(&store).outcome, AuditOutcome::Failed);
    store.clone().put_meta("vault.issuance_floor_ms", "1000").unwrap();
    assert_eq!(eng.unlock(Unlock::Usb, &mut sink), Ok(VaultState::Unlocked));
}

#[test]
fn a_tampered_slot_refuses_unlock() {
    let (store, mut eng, mut sink) = usb_vault();
    let mut slot = store.load_keyslot(1).unwrap().unwrap();
    slot.enabled = false;
    store.clone().save_keyslot(&slot).unwrap();
    assert_eq!(eng.unlock(Unlock::Usb, &mut sink), Err(EngineError::HeaderMacMismatch));
    assert!(!eng.is_unlocked());
}

#[test]
fn a_broken_or_truncated_log_refuses_unlock() {
    let (store, mut eng, mut sink) = open_vault();
    eng.lock(&mut sink).unwrap();
    store.0.borrow_mut().0.truncate_audit_tail(2);
    assert_eq!(eng.unlock(Unlock::Usb, &mut sink), Err(EngineError::AuditChainBroken(0)));
    assert_eq!(last_row(&store).detail, AuditDetail::Cause { reason: Reason::AuditChain });

    let (store, mut eng, mut sink) = usb_vault();
    store.0.borrow_mut().0.tamper_audit_subject(1);
    assert_eq!(eng.unlock(Unlock::Usb, &mut sink), Err(EngineError::AuditChainBroken(1)));

    let (store, mut eng, mut sink) = usb_vault();
    store.clone().put_meta("vault.audit_head", "zz").unwrap();
    assert_eq!(eng.unlock(Unlock::Usb, &mut sink), Err(EngineError::AuditChainBroken(0)));

    let (store, mut eng, mut sink) = usb_vault();
    store.0.borrow_mut().1.hidden_meta = Some("vault.audit_head");
    assert_eq!(eng.unlock(Unlock::Usb, &mut sink), Ok(VaultState::Unlocked));
}

#[test]
fn rows_written_while_locked_do_not_break_the_anchor() {
    let (_, mut eng, mut sink) = open_vault();
    assert_eq!(eng.verify_audit_anchor(&sink), Ok(()));
    eng.lock(&mut sink).unwrap();
    assert_eq!(eng.verify_audit_anchor(&sink), Err(EngineError::Locked));
    eng.lock(&mut sink).unwrap();
    assert_eq!(eng.unlock(Unlock::Usb, &mut sink), Ok(VaultState::Unlocked));
    assert_eq!(eng.verify_audit_anchor(&sink), Ok(()));
}

#[test]
fn an_unlock_whose_audit_row_fails_leaves_the_vault_locked() {
    let (store, mut eng, mut sink) = usb_vault();
    sink.drain();
    store.0.borrow_mut().1.refused_appends = true;
    assert_eq!(
        eng.unlock(Unlock::Usb, &mut sink),
        Err(EngineError::Store(StoreError::Backend("disk full".to_string())))
    );
    assert!(!eng.is_unlocked());
    assert!(sink.drain().is_empty());
}

#[test]
fn a_lock_whose_audit_row_fails_still_locks() {
    let (store, mut eng, mut sink) = open_vault();
    store.0.borrow_mut().1.refused_appends = true;
    assert_eq!(eng.lock(&mut sink), Err(EngineError::Store(disk_full())));
    assert!(!eng.is_unlocked());
    assert!(sink.drain().is_empty());
}

#[test]
fn an_unlock_that_cannot_read_the_header_tells_nothing() {
    let (store, mut eng, mut sink) = usb_vault();
    let rows = last_row(&store).seq;
    sink.drain();
    store.0.borrow_mut().1.unreadable_meta = true;
    assert_eq!(eng.unlock(Unlock::Usb, &mut sink), Err(EngineError::Store(disk_full())));
    assert!(!eng.is_unlocked());
    assert!(sink.drain().is_empty());
    assert_eq!(last_row(&store).seq, rows);
}

#[test]
fn a_tail_that_cannot_be_read_leaves_the_anchor_where_it_was() {
    let (store, mut eng, mut sink) = open_vault();
    let anchor = store.get_meta("vault.audit_head").unwrap();
    store.0.borrow_mut().1.unreadable_tail = true;
    assert_eq!(eng.secret_put(meta("k"), b"v".to_vec(), &mut sink), Ok(()));
    assert_eq!(eng.secret_get("k", true, true, &mut sink), Ok(b"v".to_vec()));
    assert_eq!(store.get_meta("vault.audit_head").unwrap(), anchor);
    store.0.borrow_mut().1.unreadable_tail = false;
    assert_eq!(last_row(&store).event_type, "secret_read");
    assert_eq!(eng.verify_audit_anchor(&sink), Ok(()));
    eng.lock(&mut sink).unwrap();
    assert_eq!(eng.unlock(Unlock::Usb, &mut sink), Ok(VaultState::Unlocked));
    assert_ne!(store.get_meta("vault.audit_head").unwrap(), anchor);
}

#[test]
fn an_anchor_that_cannot_be_written_is_the_stores_error() {
    let (store, mut eng, mut sink) = open_vault();
    let rows = last_row(&store).seq;
    store.0.borrow_mut().1.refused_meta = true;
    assert_eq!(
        eng.secret_get("k", true, true, &mut sink),
        Err(EngineError::Store(disk_full()))
    );
    assert_eq!(last_row(&store).seq, rows + 1);
    store.0.borrow_mut().1.refused_meta = false;
    assert_eq!(eng.verify_audit_anchor(&sink), Ok(()));
}

#[test]
fn a_write_that_the_store_refuses_is_not_told() {
    let (store, mut eng, mut sink) = open_vault();
    let rows = last_row(&store).seq;
    store.0.borrow_mut().1.refused_secrets = true;
    assert_eq!(
        eng.secret_put(meta("k"), b"v".to_vec(), &mut sink),
        Err(EngineError::Store(disk_full()))
    );
    assert!(sink.drain().is_empty());
    assert_eq!(last_row(&store).seq, rows);
    assert!(store.list_secret_names().unwrap().is_empty());
}

#[test]
fn a_locked_vault_takes_no_secret_whatever_the_store_does() {
    let (store, mut eng, mut sink) = usb_vault();
    let rows = last_row(&store).seq;
    sink.drain();
    store.0.borrow_mut().1.refused_appends = true;
    store.0.borrow_mut().1.unreadable_meta = true;
    assert_eq!(
        eng.secret_put(meta("k"), b"v".to_vec(), &mut sink),
        Err(EngineError::Locked)
    );
    assert!(sink.drain().is_empty());
    assert_eq!(last_row(&store).seq, rows);
}

#[test]
fn a_key_device_that_is_away_opens_nothing() {
    let (store, _, mut sink) = usb_vault();
    for key in [None, Some(vec![8; 32])] {
        let mut eng = Engine::with_owner(store.clone(), FixedClock(1_000), Key(key), OWNER);
        assert_eq!(eng.unlock(Unlock::Usb, &mut sink), Err(EngineError::UnlockFailed));
        assert!(!eng.is_unlocked());
        assert_eq!(last_row(&store).outcome, AuditOutcome::Failed);
    }
    let mut eng = engine(&store);
    assert_eq!(eng.unlock(Unlock::Usb, &mut sink), Ok(VaultState::Unlocked));
}

#[test]
fn a_secret_outlives_everything_that_happens_to_others() {
    let (_, mut eng, mut sink) = open_vault();
    assert_eq!(eng.secret_put(meta("kept"), b"v".to_vec(), &mut sink), Ok(()));
    for _ in 0..3 {
        assert_eq!(eng.secret_put(meta("other"), b"w".to_vec(), &mut sink), Ok(()));
        assert_eq!(eng.secret_get("other", false, false, &mut sink), Ok(Vec::new()));
        eng.lock(&mut sink).unwrap();
        assert!(eng.secret_get("kept", true, true, &mut sink).is_err());
        assert!(eng.unlock(Unlock::Passphrase("no".to_string()), &mut sink).is_err());
        assert_eq!(eng.unlock(Unlock::Usb, &mut sink), Ok(VaultState::Unlocked));
        assert_eq!(eng.verify_audit_anchor(&sink), Ok(()));
    }
    assert_eq!(eng.secret_get("kept", true, true, &mut sink), Ok(b"v".to_vec()));
}

#[test]
fn reading_an_unknown_secret() {
    let (store, mut eng, mut sink) = open_vault();
    assert_eq!(
        eng.secret_get("nobody", true, true, &mut sink),
        Err(EngineError::UnknownSecret("nobody".to_string()))
    );
    let row = last_row(&store);
    assert_eq!(row.subject, Some("nobody".to_string()));
    assert_eq!(row.detail, AuditDetail::Cause { reason: Reason::NotFound });
    assert_eq!(row.outcome, AuditOutcome::Failed);
}

#[test]
fn reading_a_tampered_secret() {
    let (store, mut eng, mut sink) = open_vault();
    eng.secret_put(meta("k"), b"v".to_vec(), &mut sink).unwrap();
    store.0.borrow_mut().1.flipped_ciphertext = true;
    assert_eq!(
        eng.secret_get("k", false, false, &mut sink),
        Err(EngineError::SecretTampered("k".to_string()))
    );
    assert_eq!(last_row(&store).detail, AuditDetail::TamperedVersion { version: 1 });
}

#[test]
fn a_read_records_whether_it_revealed() {
    let (store, mut eng, mut sink) = open_vault();
    eng.secret_put(meta("k"), b"v".to_vec(), &mut sink).unwrap();
    sink.drain();
    assert_eq!(eng.secret_get("k", true, true, &mut sink), Ok(b"v".to_vec()));
    assert_eq!(last_row(&store).detail, AuditDetail::Read { version: 1, revealed: true });
    let events = sink.drain();
    assert!(matches!(&events[1], SecretEvent::SecretRead { by_uid: OWNER, .. }));
    assert_eq!(eng.secret_get("k", false, true, &mut sink), Ok(Vec::new()));
    assert_eq!(last_row(&store).detail, AuditDetail::Read { version: 1, revealed: false });
}

#[test]
fn a_write_keeps_its_metadata_and_its_place() {
    let (store, mut eng, mut sink) = open_vault();
    eng.secret_put(meta("k"), b"one".to_vec(), &mut sink).unwrap();
    eng.secret_put(meta("k"), b"two".to_vec(), &mut sink).unwrap();
    let row = store.get_secret_latest("k").unwrap().unwrap();
    assert_eq!((row.row_id, row.version, row.dek_generation), (2, 2, 1));
    assert_eq!(row.note, "note");
    assert_eq!(row.created_ts, "2024-01-01T00:00:00+00:00");
    assert_eq!(row.ct_tag.len(), 3 + 16);
    assert_eq!(last_row(&store).detail, AuditDetail::Written { version: 2 });
    assert_eq!(store.get_secret_version("k", 1).unwrap().unwrap().row_id, 1);
}

#[test]
fn a_row_id_that_diverges_is_refused() {
    let (store, mut eng, mut sink) = open_vault();
    store.0.borrow_mut().1.shifted_row_id = true;
    assert_eq!(
        eng.secret_put(meta("k"), b"v".to_vec(), &mut sink),
        Err(EngineError::RowIdDivergence { assigned: 2, sealed: 1 })
    );
    assert!(sink.drain().is_empty());
    assert_ne!(last_row(&store).event_type, "secret_written");
    assert_eq!(store.get_secret_latest("k").unwrap().unwrap().row_id, 2);
}

#[test]
fn a_name_without_a_version_left_is_refused() {
    let (store, mut eng, mut sink) = open_vault();
    eng.secret_put(meta("k"), b"v".to_vec(), &mut sink).unwrap();
    let mut row = store.get_secret_latest("k").unwrap().unwrap();
    row.row_id = store.clone().reserve_secret_row_id().unwrap();
    row.version = u32::MAX;
    store.clone().put_secret(row).unwrap();
    assert_eq!(
        eng.secret_put(meta("k"), b"v".to_vec(), &mut sink),
        Err(EngineError::VersionsExhausted("k".to_string()))
    );
}

#[test]
fn a_new_engine_is_locked_and_empty() {
    let eng = Engine::open(Key(None));
    assert!(!eng.is_unlocked());
    assert!(eng.store().audit_rows().is_empty());
}

#[test]
fn no_leaf_for_interception_is_issued() {
    let (store, mut eng, mut sink) = open_vault();
    assert_eq!(
        eng.ca_issue("host", &[], "mitm_leaf", &mut sink),
        Err(EngineError::MitmLeafRefused)
    );
    assert_eq!(last_row(&store).detail, AuditDetail::Cause { reason: Reason::MitmLeaf });
    assert_eq!(last_row(&store).outcome, AuditOutcome::Refused);
    assert_eq!(
        eng.ca_issue("host", &["alt".to_string()], "server", &mut sink),
        Err(EngineError::NoCertificateAuthority)
    );
}

#[test]
fn a_log_that_cannot_be_checked_is_entered_as_such() {
    let (store, mut eng, mut sink) = usb_vault();
    let rows = last_row(&store).seq;
    sink.drain();
    store.0.borrow_mut().1.uncheckable_log = true;
    assert_eq!(eng.unlock(Unlock::Usb, &mut sink), Err(EngineError::Store(disk_full())));
    assert!(!eng.is_unlocked());
    let row = last_row(&store);
    assert_eq!((row.seq, row.event_type.as_str()), (rows + 1, "vault_unlock"));
    assert_eq!(row.outcome, AuditOutcome::Failed);
    assert_eq!(row.detail, AuditDetail::Cause { reason: Reason::AuditChain });
    let events = sink.drain();
    assert_eq!(events.len(), 1);
    assert!(matches!(&events[0], SecretEvent::Audit(r)
        if r.seq == rows + 1 && r.outcome == AuditOutcome::Failed));
}

#[test]
fn a_generation_that_cannot_be_read_leaves_no_trace() {
    let (store, mut eng, mut sink) = usb_vault();
    let rows = last_row(&store).seq;
    sink.drain();
    store.0.borrow_mut().1.unreadable_key = Some("vault.dek_generation");
    assert_eq!(eng.unlock(Unlock::Usb, &mut sink), Err(EngineError::Store(disk_full())));
    assert!(!eng.is_unlocked());
    assert_eq!(last_row(&store).seq, rows);
    assert!(sink.drain().is_empty());
}

#[test]
fn an_unlock_whose_anchor_cannot_be_set_tells_its_row_alone() {
    let (store, mut eng, mut sink) = usb_vault();
    let rows = last_row(&store).seq;
    sink.drain();
    store.0.borrow_mut().1.refused_meta = true;
    assert_eq!(eng.unlock(Unlock::Usb, &mut sink), Err(EngineError::Store(disk_full())));
    assert_eq!(last_row(&store).event_type, "vault_unlocked");
    assert_eq!(last_row(&store).seq, rows + 1);
    let events = sink.drain();
    assert_eq!(events.len(), 1);
    assert!(matches!(&events[0], SecretEvent::Audit(r) if r.seq == rows + 1));
}

#[test]
fn an_entry_that_cannot_be_written_leaves_the_anchor() {
    let (store, mut eng, mut sink) = open_vault();
    let anchor = store.get_meta("vault.audit_head").unwrap();
    store.0.borrow_mut().1.refused_appends = true;
    assert_eq!(
        eng.secret_get("k", true, true, &mut sink),
        Err(EngineError::Store(disk_full()))
    );
    assert_eq!(
        eng.relay_revoke("cli", false, &mut sink),
        Err(EngineError::Store(disk_full()))
    );
    assert!(sink.drain().is_empty());
    assert_eq!(store.get_meta("vault.audit_head").unwrap(), anchor);
}

#[test]
fn a_swap_that_the_store_fails_is_refused_and_entered() {
    let (store, mut eng, mut sink) = open_vault();
    eng.secret_put(meta("key"), b"real".to_vec(), &mut sink).unwrap();
    let policy = RelayPolicy {
        id: 0,
        relay_id: "cli".to_string(),
        secret_name: "key".to_string(),
        enabled: true,
        revoked: false,
        expires_at_ms: None,
        hosts: vec!["host".to_string()],
        path_prefixes: vec!["/".to_string()],
        methods: vec![Method::Post],
        upstreams: vec!["host".to_string()],
        max_requests: None,
        used_requests: 0,
        max_bytes: None,
        used_bytes: 0,
        rate: None,
        window_started_ms: 0,
        window_requests: 0,
    };
    let token = eng.relay_mint(policy, 60, None, None, &mut sink).unwrap().token;
    let req = EgressReq {
        method: Method::Post,
        host: "host".to_string(),
        path: "/".to_string(),
        headers: Vec::new(),
        bytes_out: 1,
        peer_uid: None,
        peer_pid: None,
    };
    sink.drain();
    for by_floor in [true, false] {
        let rows = last_row(&store).seq;
        if by_floor {
            store.0.borrow_mut().1.unreadable_key = Some("vault.issuance_floor_ms");
        } else {
            store.0.borrow_mut().1.unreadable_secrets = true;
        }
        assert!(matches!(eng.relay_swap(&token, &req, &mut sink),
            SwapStep::InternalRefused(why) if why == "store_failed"));
        store.0.borrow_mut().1.unreadable_key = None;
        store.0.borrow_mut().1.unreadable_secrets = false;
        let row = last_row(&store);
        assert_eq!((row.seq, row.event_type.as_str()), (rows + 1, "relay_swap"));
        assert_eq!(row.outcome, AuditOutcome::Failed);
        assert_eq!(row.detail, AuditDetail::Cause { reason: Reason::StoreFailed });
        assert_eq!(sink.drain().len(), 1);
    }
    let rows = last_row(&store).seq;
    store.0.borrow_mut().1.refused_appends = true;
    assert!(matches!(eng.relay_swap(&token, &req, &mut sink), SwapStep::InternalRefused(_)));
    assert!(matches!(eng.relay_swap("none", &req, &mut sink), SwapStep::InternalRefused(_)));
    store.0.borrow_mut().1.refused_appends = false;
    assert_eq!(last_row(&store).seq, rows);
    assert!(sink.drain().is_empty());
    assert!(matches!(eng.relay_swap(&token, &req, &mut sink),
        SwapStep::Send { key, .. } if key == b"real".to_vec()));
}

#[test]
fn the_anchor_guards_the_rows_up_to_its_own() {
    let (store, mut eng, mut sink) = open_vault();
    eng.lock(&mut sink).unwrap();
    eng.lock(&mut sink).unwrap();
    store.0.borrow_mut().0.truncate_audit_tail(1);
    assert_eq!(eng.unlock(Unlock::Usb, &mut sink), Ok(VaultState::Unlocked));
    assert_eq!(eng.verify_audit_anchor(&sink), Ok(()));
    store.0.borrow_mut().0.truncate_audit_tail(1);
    assert_eq!(store.verify_audit_chain(), Ok(()));
    assert_eq!(eng.verify_audit_anchor(&sink), Err(EngineError::AuditChainBroken(0)));
}

#[test]
fn the_log_is_sound_from_an_empty_store_on() {
    let store = Rigged::new();
    let mut eng = engine(&store);
    let mut sink = EventSink::new();
    eng.lock(&mut sink).unwrap();
    assert_eq!(eng.unlock(Unlock::Usb, &mut sink), Err(EngineError::UnlockFailed));
    assert_eq!(eng.relay_revoke("cli", true, &mut sink), Ok(0));
    let (dek, slots) = usb_only_slots();
    eng.commit_vault(&dek, &slots, 1_000, &mut sink).unwrap();
    eng.unlock(Unlock::Usb, &mut sink).unwrap();
    assert_eq!(eng.verify_audit_anchor(&sink), Ok(()));
    assert!(eng.secret_get("nobody", true, true, &mut sink).is_err());
    assert_eq!(eng.verify_audit_anchor(&sink), Ok(()));
}

#[test]
fn what_a_vault_is_made_of_is_drawn_piece_by_piece() {
    let a = draw_material(true).unwrap();
    let b = draw_material(true).unwrap();
    let (usb_salt, usb_nonce) = a.usb.clone().unwrap();
    assert_eq!((a.passphrase_salt.len(), a.passphrase_nonce.len()), (16, 24));
    assert_eq!((usb_salt.len(), usb_nonce.len()), (32, 24));
    assert_ne!(usb_salt, a.dek.0.to_vec());
    assert_ne!(usb_nonce, a.passphrase_nonce);
    assert_ne!(a.dek.0, b.dek.0);
    assert_ne!(a.passphrase_nonce, b.passphrase_nonce);
    assert!(draw_material(false).unwrap().usb.is_none());
}

#[test]
fn a_new_vault_keeps_neither_key_nor_factor() {
    let store = Rigged::new();
    let mut eng = engine(&store);
    let mut sink = EventSink::new();
    let (dek, slots) = usb_only_slots();
    eng.commit_vault(&dek, &slots, 1_000, &mut sink).unwrap();
    let factors: [&[u8]; 3] = [&[5; 32], &[7; 32], b"pass"];
    for slot in store.load_keyslots().unwrap() {
        for field in [&slot.salt, &slot.wrap_nonce, &slot.wrapped_dek] {
            for factor in factors {
                assert!(!field.windows(factor.len()).any(|part| part == factor));
            }
        }
    }
}
