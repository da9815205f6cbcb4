//! Keys, seals and keyslots against the primitives that they are built on.
use envctl_secrets::keyslot::{
    header_mac, kek_from_passphrase, kek_from_usb, keyslot_aad, try_keyfile, try_passphrase,
    unwrap_dek, verify_header_mac, wrap_dek, wrap_dek_with, Dek, Kek, ARGON2_M_KIB_FLOOR,
    ARGON2_T_COST_FLOOR,
};
use envctl_secrets::vault::aad::{record_aad, TableTag};
use envctl_secrets::vault::crypto::{open, seal, seal_with};
use envctl_secrets::vault::Vault;
use envctl_secrets::{Argon2Params, Factor, Kdf, Keyslot};

fn slot(id: i64) -> Keyslot {
    Keyslot {
        id,
        factor: Factor::Usb,
        label: "usb".to_string(),
        kdf: Kdf::HkdfSha256,
        salt: vec![3; 32],
        usb_partition_uuid: Some("1234-ABCD".to_string()),
        wrap_nonce: vec![4; 24],
        wrapped_dek: vec![5; 48],
        dek_generation: 1,
        enabled: true,
    }
}

#[test]
fn usb_key_is_hkdf_sha256() {
    let kek = kek_from_usb(b"keyfile", b"salt");
    let mut expected = [0u8; 32];
    hkdf::Hkdf::<sha2::Sha256>::new(Some(b"salt"), b"keyfile")
        .expand(b"env-ctl/v1/kek/usb", &mut expected)
        .unwrap();
    assert_eq!(kek.0, expected);
    assert_ne!(kek.0, kek_from_usb(b"keyfile", b"other").0);
}

#[test]
fn passphrase_key_is_argon2id() {
    let p = Argon2Params { m_kib: 64, t_cost: 2, p_lanes: 2 };
    let kek = kek_from_passphrase(b"pass", b"saltsalt", p);
    let params = argon2::Params::new(64, 2, 2, Some(32)).unwrap();
    let mut expected = [0u8; 32];
    argon2::Argon2::new(argon2::Algorithm::Argon2id, argon2::Version::V0x13, params)
        .hash_password_into(b"pass", b"saltsalt", &mut expected)
        .unwrap();
    assert_eq!(kek.0, expected);
    let other = Argon2Params { m_kib: 64, t_cost: 3, p_lanes: 2 };
    assert_ne!(kek.0, kek_from_passphrase(b"pass", b"saltsalt", other).0);
}

#[test]
fn default_costs() {
    assert_eq!(
        Argon2Params::default(),
        Argon2Params { m_kib: 1_048_576, t_cost: 4, p_lanes: 4 }
    );
}

#[test]
fn a_seal_opens_to_what_was_sealed() {
    let dek = Dek([7; 32]);
    let aad = record_aad(TableTag::SecretVersion, 1, 1, 1);
    let (nonce, ct) = seal(&dek, &aad, b"sk-live").unwrap();
    assert_eq!(nonce.len(), 24);
    assert_eq!(ct.len(), 7 + 16);
    assert_ne!(&ct[..7], b"sk-live");
    assert_eq!(open(&dek, &aad, &nonce, &ct), Some(b"sk-live".to_vec()));
    let (again, _) = seal(&dek, &aad, b"sk-live").unwrap();
    assert_ne!(nonce, again);
}

#[test]
fn a_seal_opens_for_nothing_else() {
    let dek = Dek([7; 32]);
    let aad = record_aad(TableTag::SecretVersion, 1, 1, 1);
    let (nonce, ct) = seal(&dek, &aad, b"sk-live").unwrap();
    assert_eq!(open(&Dek([8; 32]), &aad, &nonce, &ct), None);
    let moved = record_aad(TableTag::SecretVersion, 2, 1, 1);
    assert_eq!(open(&dek, &moved, &nonce, &ct), None);
    let mut flipped = ct.clone();
    flipped[0] ^= 1;
    assert_eq!(open(&dek, &aad, &nonce, &flipped), None);
    assert_eq!(open(&dek, &aad, &nonce[..23], &ct), None);
    assert_eq!(open(&dek, &aad, &nonce, &ct[..15]), None);
}

#[test]
fn sealing_is_xchacha20poly1305() {
    let key = [9u8; 32];
    let nonce = [1u8; 24];
    let cipher: chacha20poly1305::XChaCha20Poly1305 =
        chacha20poly1305::KeyInit::new((&key).into());
    let payload = chacha20poly1305::aead::Payload { msg: b"m".as_slice(), aad: b"a".as_slice() };
    let expected =
        chacha20poly1305::aead::Aead::encrypt(&cipher, (&nonce).into(), payload).unwrap();
    assert_eq!(seal_with(&key, &nonce, b"a", b"m"), expected);
}

#[test]
fn a_wrapped_key_unwraps_under_its_key_alone() {
    let dek = Dek([1; 32]);
    let (nonce, wrapped) = wrap_dek(Kek([2; 32]), &dek, b"aad").unwrap();
    assert_eq!(wrapped.len(), 48);
    assert_eq!(unwrap_dek(Kek([2; 32]), &nonce, &wrapped, b"aad").unwrap().0, [1; 32]);
    assert!(unwrap_dek(Kek([3; 32]), &nonce, &wrapped, b"aad").is_none());
    assert!(unwrap_dek(Kek([2; 32]), &nonce, &wrapped, b"other").is_none());
}

#[test]
fn only_a_key_of_the_right_length_unwraps() {
    let short = seal_with(&[2; 32], &[0; 24], b"aad", &[1; 31]);
    assert!(unwrap_dek(Kek([2; 32]), &[0; 24], &short, b"aad").is_none());
}

#[test]
fn keys_are_wiped() {
    let mut dek = Dek([1; 32]);
    dek.wipe();
    assert_eq!(dek.0, [0; 32]);
    let mut kek = Kek([1; 32]);
    kek.wipe();
    assert_eq!(kek.0, [0; 32]);
}

#[test]
fn a_vault_holds_its_key_until_it_is_locked() {
    let mut vault = Vault::Unlocked { dek: Dek([1; 32]) };
    assert!(vault.is_unlocked());
    assert_eq!(vault.dek().unwrap().0, [1; 32]);
    vault.lock();
    assert!(!vault.is_unlocked());
    assert!(vault.dek().is_none());
}

#[test]
fn keyslot_aad_layout() {
    let mut s = slot(1);
    s.salt = vec![9];
    s.usb_partition_uuid = None;
    assert_eq!(
        keyslot_aad(&s),
        [
            1i64.to_be_bytes().as_slice(),
            &[1, 2, 0, 0, 0, 0, 0, 0, 0, 0, 0, 0, 0, 0],
            1u64.to_be_bytes().as_slice(),
            &[9, 0],
            1i64.to_be_bytes().as_slice(),
        ]
        .concat()
    );
}

#[test]
fn keyslot_aad_binds_identity_and_derivation() {
    let base = keyslot_aad(&slot(1));
    let changed: [fn(&mut Keyslot); 6] = [
        |s| s.id = 2,
        |s| s.factor = Factor::RequireBoth,
        |s| s.kdf = Kdf::Argon2id(Argon2Params { m_kib: 1, t_cost: 1, p_lanes: 1 }),
        |s| s.salt.push(0),
        |s| s.usb_partition_uuid = None,
        |s| s.dek_generation = 2,
    ];
    for change in changed {
        let mut s = slot(1);
        change(&mut s);
        assert_ne!(keyslot_aad(&s), base);
    }
    let mut s = slot(1);
    s.label = "other".to_string();
    assert_eq!(keyslot_aad(&s), base);
}

#[test]
fn header_mac_covers_slots_and_floor_in_any_order() {
    let dek = Dek([1; 32]);
    let mac = header_mac(&dek, &[slot(1), slot(2)], 5);
    assert_eq!(mac.len(), 32);
    assert_eq!(mac, header_mac(&dek, &[slot(2), slot(1)], 5));
    assert!(verify_header_mac(&dek, &[slot(1), slot(2)], 5, &mac));
    assert!(!verify_header_mac(&dek, &[slot(1), slot(2)], 6, &mac));
    assert!(!verify_header_mac(&dek, &[slot(1)], 5, &mac));
    assert!(!verify_header_mac(&Dek([2; 32]), &[slot(1), slot(2)], 5, &mac));
    assert!(!verify_header_mac(&dek, &[slot(1), slot(2)], 5, &mac[..31]));
    let mut disabled = slot(2);
    disabled.enabled = false;
    assert!(!verify_header_mac(&dek, &[slot(1), disabled], 5, &mac));
    let mut rewrapped = slot(2);
    rewrapped.wrapped_dek[0] ^= 1;
    assert!(!verify_header_mac(&dek, &[slot(1), rewrapped], 5, &mac));
}

#[test]
fn header_mac_of_no_slots() {
    let dek = Dek([1; 32]);
    let key = blake3::derive_key("env-ctl/v1/header-mac/key", &[1; 32]);
    let mut msg = b"env-ctl/v1/header-mac".to_vec();
    msg.extend_from_slice(&7i64.to_be_bytes());
    msg.extend_from_slice(&0u64.to_be_bytes());
    assert_eq!(header_mac(&dek, &[], 7), blake3::keyed_hash(&key, &msg).as_bytes().to_vec());
}

#[test]
fn a_keyfile_opens_its_slot() {
    let mut s = slot(2);
    let aad = keyslot_aad(&s);
    s.wrapped_dek =
        wrap_dek_with(kek_from_usb(b"file", &s.salt), &Dek([6; 32]), &s.wrap_nonce, &aad);
    assert_eq!(try_keyfile(&s, b"file").unwrap().0, [6; 32]);
    assert!(try_keyfile(&s, b"other").is_none());
    s.enabled = false;
    assert!(try_keyfile(&s, b"file").is_none());
}

#[test]
fn weak_or_impossible_passphrase_slots_are_passed_over() {
    let good = Argon2Params {
        m_kib: ARGON2_M_KIB_FLOOR,
        t_cost: ARGON2_T_COST_FLOOR,
        p_lanes: 1,
    };
    let bad = [
        Kdf::HkdfSha256,
        Kdf::Argon2id(Argon2Params { m_kib: ARGON2_M_KIB_FLOOR - 1, ..good }),
        Kdf::Argon2id(Argon2Params { t_cost: ARGON2_T_COST_FLOOR - 1, ..good }),
        Kdf::Argon2id(Argon2Params { p_lanes: 0, ..good }),
        Kdf::Argon2id(Argon2Params { p_lanes: ARGON2_M_KIB_FLOOR, ..good }),
    ];
    for kdf in bad {
        let mut s = slot(1);
        s.factor = Factor::Passphrase;
        s.kdf = kdf;
        assert!(try_passphrase(&s, b"pass").is_none());
    }
    let mut short_salt = slot(1);
    short_salt.factor = Factor::Passphrase;
    short_salt.kdf = Kdf::Argon2id(good);
    short_salt.salt = vec![0; 7];
    assert!(try_passphrase(&short_salt, b"pass").is_none());
}
