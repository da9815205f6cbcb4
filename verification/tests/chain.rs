//! The audit chain, its anchor, and the store in memory.
use envctl_secrets::error::StoreError;
use envctl_secrets::event::{AuditDetail, AuditOutcome};
use envctl_secrets::keyslot::Dek;
use envctl_secrets::vault::audit::{
    audit_head_mac, digest_row, find_anchor, genesis_hash, link_row, new_row, verify_chain,
};
use envctl_secrets::vault::{InMemStore, SecretRow, Store};
use envctl_secrets::{AuditRecord, EngineError, Factor, Kdf, Keyslot, Provider};

fn draft(subject: &str) -> AuditRecord {
    new_row(
        "2024-01-01T00:00:00+00:00".to_string(),
        Some(1000),
        "secret_read",
        Some(subject.to_string()),
        AuditDetail::Read { version: 1, revealed: true },
        AuditOutcome::Succeeded,
    )
}

fn chain(n: usize) -> InMemStore {
    let mut store = InMemStore::new();
    for i in 0..n {
        assert_eq!(store.append_audit(&draft(&format!("s{i}"))).unwrap(), i as i64 + 1);
    }
    store
}

fn row(row_id: i64, name: &str, version: u32) -> SecretRow {
    SecretRow {
        row_id,
        name: name.to_string(),
        version,
        provider: Provider::Generic,
        note: "n".to_string(),
        broker_only: false,
        dek_generation: 1,
        nonce: vec![0; 24],
        ct_tag: vec![version as u8; 20],
        created_ts: "t".to_string(),
    }
}

#[test]
fn the_first_row_links_to_the_genesis_hash() {
    assert_eq!(genesis_hash(), *blake3::hash(b"env-ctl/v1/audit-genesis").as_bytes());
}

#[test]
fn a_row_hash_covers_the_whole_row() {
    let base = digest_row(&draft("a"));
    assert_ne!(base, digest_row(&draft("b")));
    let changes: [fn(&mut AuditRecord); 7] = [
        |r| r.seq = 9,
        |r| r.ts.push('x'),
        |r| r.actor_uid = None,
        |r| r.event_type.push('x'),
        |r| r.detail = AuditDetail::Read { version: 1, revealed: false },
        |r| r.outcome = AuditOutcome::Refused,
        |r| r.prev_hash = vec![1],
    ];
    for change in changes {
        let mut r = draft("a");
        change(&mut r);
        assert_ne!(base, digest_row(&r));
    }
    let mut r = draft("a");
    r.row_hash = vec![1];
    assert_eq!(base, digest_row(&r));
}

#[test]
fn a_row_hash_is_blake3_of_its_canonical_bytes() {
    let linked = link_row(&draft("a"), 3, &[5, 6]);
    let text = |t: &str| [(t.len() as u64).to_be_bytes().as_slice(), t.as_bytes()].concat();
    let msg = [
        2u64.to_be_bytes().as_slice(),
        &[5, 6],
        3i64.to_be_bytes().as_slice(),
        &text("2024-01-01T00:00:00+00:00"),
        &[1],
        1000u32.to_be_bytes().as_slice(),
        &text("secret_read"),
        &[1],
        &text("a"),
        &[6, 1, 0, 0, 0, 1],
        &[1],
    ]
    .concat();
    assert_eq!(linked.seq, 3);
    assert_eq!(linked.prev_hash, vec![5, 6]);
    assert_eq!(linked.row_hash, blake3::hash(&msg).as_bytes().to_vec());
}

#[test]
fn appended_chains_verify_and_so_do_their_beginnings() {
    let mut store = chain(4);
    assert!(store.verify_audit_chain().is_ok());
    store.truncate_audit_tail(1);
    assert_eq!(store.audit_rows().len(), 3);
    assert!(store.verify_audit_chain().is_ok());
    store.truncate_audit_tail(9);
    assert!(store.audit_rows().is_empty());
    assert!(store.verify_audit_chain().is_ok());
}

#[test]
fn the_first_broken_row_is_named() {
    let mut store = chain(4);
    store.tamper_audit_subject(4);
    store.tamper_audit_subject(2);
    assert_eq!(store.verify_audit_chain(), Err(EngineError::AuditChainBroken(2)));
}

#[test]
fn reordered_renumbered_and_relinked_rows_break_the_chain() {
    let rows = chain(3).audit_rows();
    let mut swapped = rows.clone();
    swapped.swap(0, 1);
    assert_eq!(verify_chain(&swapped), Err(EngineError::AuditChainBroken(2)));
    assert_eq!(verify_chain(&rows[1..]), Err(EngineError::AuditChainBroken(2)));
    let mut cut = rows.clone();
    cut.remove(1);
    assert_eq!(verify_chain(&cut), Err(EngineError::AuditChainBroken(3)));
    let mut relinked = rows.clone();
    relinked[1] = link_row(&draft("forged"), 2, &relinked[0].row_hash.clone());
    assert_eq!(verify_chain(&relinked), Err(EngineError::AuditChainBroken(3)));
}

#[test]
fn the_anchor_is_a_keyed_mac() {
    let key = blake3::derive_key("env-ctl/v1/audit-head/key", &[1; 32]);
    let mut msg = b"env-ctl/v1/audit-head".to_vec();
    msg.extend_from_slice(&5i64.to_be_bytes());
    msg.extend_from_slice(&[9, 9]);
    let expected = blake3::keyed_hash(&key, &msg).as_bytes().to_vec();
    assert_eq!(audit_head_mac(&Dek([1; 32]), 5, &[9, 9]), expected);
}

#[test]
fn the_anchor_is_found_at_its_row_only() {
    let dek = Dek([1; 32]);
    let rows = chain(3).audit_rows();
    let mac = audit_head_mac(&dek, 2, &rows[1].row_hash);
    assert!(find_anchor(&dek, &rows, &mac));
    assert!(find_anchor(&dek, &rows[..2], &mac));
    assert!(!find_anchor(&dek, &rows[..1], &mac));
    assert!(!find_anchor(&dek, &[], &mac));
    assert!(!find_anchor(&Dek([2; 32]), &rows, &mac));
    let empty = audit_head_mac(&dek, 0, &[]);
    assert!(find_anchor(&dek, &[], &empty));
    assert!(!find_anchor(&dek, &rows, &empty));
}

#[test]
fn audit_rows_are_queried_in_order() {
    let store = chain(5);
    let seqs = |since, limit| {
        store.query_audit(since, limit).unwrap().iter().map(|r| r.seq).collect::<Vec<i64>>()
    };
    assert_eq!(seqs(0, usize::MAX), vec![1, 2, 3, 4, 5]);
    assert_eq!(seqs(2, 2), vec![3, 4]);
    assert_eq!(seqs(5, 2), Vec::<i64>::new());
    assert_eq!(seqs(0, 0), Vec::<i64>::new());
    assert_eq!(store.last_audit().unwrap().unwrap().seq, 5);
    assert!(InMemStore::new().last_audit().unwrap().is_none());
}

#[test]
fn metadata_keys_keep_their_last_value() {
    let mut store = InMemStore::new();
    assert_eq!(store.get_meta("a").unwrap(), None);
    store.put_meta("a", "1").unwrap();
    store.put_meta("b", "2").unwrap();
    store.put_meta("a", "3").unwrap();
    assert_eq!(store.get_meta("a").unwrap(), Some("3".to_string()));
    assert_eq!(store.get_meta("b").unwrap(), Some("2".to_string()));
}

#[test]
fn row_ids_are_handed_out_once() {
    let mut store = InMemStore::new();
    assert_eq!(store.reserve_secret_row_id(), Ok(1));
    assert_eq!(store.reserve_secret_row_id(), Ok(2));
}

#[test]
fn rows_are_taken_only_under_a_reserved_free_id_and_a_new_version() {
    let mut store = InMemStore::new();
    assert_eq!(store.put_secret(row(1, "a", 1)), Err(StoreError::UnreservedRowId(1)));
    store.reserve_secret_row_id().unwrap();
    store.reserve_secret_row_id().unwrap();
    assert_eq!(store.put_secret(row(0, "a", 1)), Err(StoreError::UnreservedRowId(0)));
    assert_eq!(store.put_secret(row(1, "a", 1)), Ok(1));
    assert_eq!(store.put_secret(row(1, "b", 1)), Err(StoreError::RowIdCollision(1)));
    assert_eq!(store.put_secret(row(2, "a", 1)), Err(StoreError::VersionNotMonotonic(1)));
    assert_eq!(store.put_secret(row(2, "a", 5)), Ok(2));
}

#[test]
fn secrets_are_listed_and_read_by_name_and_version() {
    let mut store = InMemStore::new();
    for (id, name, version) in [(1, "a", 1), (2, "b", 1), (3, "a", 2)] {
        store.reserve_secret_row_id().unwrap();
        store.put_secret(row(id, name, version)).unwrap();
    }
    assert_eq!(store.list_secret_names().unwrap(), vec!["a".to_string(), "b".to_string()]);
    assert_eq!(store.list_secret_versions("a").unwrap(), vec![1, 2]);
    assert_eq!(store.list_secret_versions("c").unwrap(), Vec::<u32>::new());
    assert_eq!(store.max_secret_version("a"), Ok(2));
    assert_eq!(store.max_secret_version("c"), Ok(0));
    assert_eq!(store.get_secret_latest("a").unwrap().unwrap().row_id, 3);
    assert_eq!(store.get_secret_version("a", 1).unwrap().unwrap().row_id, 1);
    assert!(store.get_secret_version("a", 3).unwrap().is_none());
    assert!(store.get_secret_latest("c").unwrap().is_none());
}

#[test]
fn a_keyslot_replaces_the_one_with_its_id() {
    let slot = |id: i64, label: &str| Keyslot {
        id,
        factor: Factor::Usb,
        label: label.to_string(),
        kdf: Kdf::HkdfSha256,
        salt: Vec::new(),
        usb_partition_uuid: None,
        wrap_nonce: Vec::new(),
        wrapped_dek: Vec::new(),
        dek_generation: 1,
        enabled: true,
    };
    let mut store = InMemStore::new();
    store.save_keyslot(&slot(1, "a")).unwrap();
    store.save_keyslot(&slot(2, "b")).unwrap();
    store.save_keyslot(&slot(1, "c")).unwrap();
    let labels: Vec<String> =
        store.load_keyslots().unwrap().into_iter().map(|s| s.label).collect();
    assert_eq!(labels, vec!["c".to_string(), "b".to_string()]);
    assert_eq!(store.load_keyslot(2).unwrap().unwrap().label, "b");
    assert!(store.load_keyslot(3).unwrap().is_none());
}
