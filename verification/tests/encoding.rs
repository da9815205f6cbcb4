//! Canonical encodings, texts and numbers.
use envctl_secrets::codec::{hex_decode, hex_encode, push_be_i64, push_optional_text, push_prefixed};
use envctl_secrets::decimal::{decimal_i64, decimal_u32, decimal_u64, parse_i64};
use envctl_secrets::error::StoreError;
use envctl_secrets::event::{factor_str, AuditDetail, Reason};
use envctl_secrets::vault::aad::{record_aad, TableTag};
use envctl_secrets::{DenyReason, EngineError, Factor, StoreHealth};

#[test]
fn hex_is_lowercase_and_reads_either_case() {
    assert_eq!(hex_encode(&[0x00, 0x0f, 0xa5, 0xff]), "000fa5ff");
    assert_eq!(hex_decode("000fa5ff"), Some(vec![0x00, 0x0f, 0xa5, 0xff]));
    assert_eq!(hex_decode("A5Ff"), Some(vec![0xa5, 0xff]));
    assert_eq!(hex_decode(""), Some(Vec::new()));
}

#[test]
fn hex_rejects_what_is_not_hex() {
    assert_eq!(hex_decode("abc"), None);
    assert_eq!(hex_decode("zz"), None);
    assert_eq!(hex_decode("0x"), None);
    assert_eq!(hex_decode("\u{e9}"), None);
    assert_eq!(hex_decode(" 0"), None);
}

#[test]
fn hex_round_trips_every_byte() {
    let all: Vec<u8> = (0..=255u8).collect();
    assert_eq!(hex_decode(&hex_encode(&all)), Some(all));
}

#[test]
fn decimal_agrees_with_the_standard_library() {
    for n in [0i64, 1, -1, 9, 10, 1_700_000_000_000, i64::MAX, i64::MIN] {
        assert_eq!(decimal_i64(n), n.to_string());
        assert_eq!(parse_i64(&n.to_string()), Some(n));
    }
    assert_eq!(decimal_u64(u64::MAX), u64::MAX.to_string());
    assert_eq!(decimal_u32(0), "0");
}

#[test]
fn parse_takes_what_the_standard_library_takes() {
    let texts = [
        "", "+", "-", "+5", "-0", "007", " 7", "7 ", "7x", "1_000", "9223372036854775807",
        "9223372036854775808", "-9223372036854775808", "-9223372036854775809", "\u{663}",
    ];
    for text in texts {
        assert_eq!(parse_i64(text), text.parse::<i64>().ok(), "{text:?}");
    }
}

#[test]
fn record_aad_is_fixed_width() {
    let aad = record_aad(TableTag::SecretVersion, 1, 2, 3);
    assert_eq!(
        aad,
        vec![1, 0, 0, 0, 0, 0, 0, 0, 1, 0, 0, 0, 0, 0, 0, 0, 2, 0, 0, 0, 0, 0, 0, 0, 3]
    );
    assert_ne!(aad, record_aad(TableTag::CaKey, 1, 2, 3));
    assert_ne!(aad, record_aad(TableTag::SecretVersion, 2, 1, 3));
    assert_ne!(aad, record_aad(TableTag::SecretVersion, 1, 2, 4));
}

#[test]
fn numbers_and_lengths_are_big_endian() {
    let mut out = Vec::new();
    push_be_i64(&mut out, -2);
    assert_eq!(out, (-2i64).to_be_bytes().to_vec());
    let mut out = Vec::new();
    push_prefixed(&mut out, &[7, 8]);
    assert_eq!(out, vec![0, 0, 0, 0, 0, 0, 0, 2, 7, 8]);
    let mut out = Vec::new();
    push_optional_text(&mut out, &None);
    push_optional_text(&mut out, &Some("\u{e9}".to_string()));
    assert_eq!(out, vec![0, 1, 0, 0, 0, 0, 0, 0, 0, 2, 0xc3, 0xa9]);
}

/// A JSON object with sorted keys, as a JSON library writes it.
fn json_object(fields: Vec<(&str, serde_json::Value)>) -> String {
    let map: std::collections::BTreeMap<String, serde_json::Value> =
        fields.into_iter().map(|(k, v)| (k.to_string(), v)).collect();
    serde_json::to_string(&map).unwrap()
}

#[test]
fn details_read_as_json() {
    assert_eq!(AuditDetail::Empty.json(), json_object(vec![]));
    assert_eq!(
        AuditDetail::Init { slots: 2, dek_generation: 1 }.json(),
        json_object(vec![("slots", 2.into()), ("dek_generation", 1.into())])
    );
    assert_eq!(
        AuditDetail::Unlocked { factor: Factor::Usb }.json(),
        json_object(vec![("factor", "usb".into())])
    );
    assert_eq!(
        AuditDetail::Cause { reason: Reason::HeaderMac }.json(),
        json_object(vec![("reason", "header_mac".into())])
    );
    assert_eq!(
        AuditDetail::Cause { reason: Reason::BrokerOnly }.json(),
        json_object(vec![("reason", "reveal refused: secret is broker-only".into())])
    );
    assert_eq!(
        AuditDetail::TamperedVersion { version: 3 }.json(),
        json_object(vec![("reason", "tamper".into()), ("version", 3.into())])
    );
    assert_eq!(
        AuditDetail::Written { version: u32::MAX }.json(),
        json_object(vec![("version", u32::MAX.into())])
    );
    assert_eq!(
        AuditDetail::Read { version: 1, revealed: true }.json(),
        json_object(vec![("version", 1.into()), ("revealed", true.into())])
    );
    assert_eq!(
        AuditDetail::Read { version: 1, revealed: false }.json(),
        json_object(vec![("version", 1.into()), ("revealed", false.into())])
    );
    assert_eq!(
        AuditDetail::Minted { policy_id: 4, ttl_secs: 60 }.json(),
        json_object(vec![("policy_id", 4.into()), ("ttl_secs", 60.into())])
    );
    assert_eq!(
        AuditDetail::Revoked { count: 2 }.json(),
        json_object(vec![("count", 2.into())])
    );
    assert_eq!(
        AuditDetail::Relayed { policy_id: -1 }.json(),
        json_object(vec![("policy_id", (-1).into())])
    );
    assert_eq!(
        AuditDetail::Denied { reason: DenyReason::SniHostMismatch }.json(),
        json_object(vec![("reason", "sni_host_mismatch".into())])
    );
}

#[test]
fn details_have_distinct_bytes() {
    let details = [
        AuditDetail::Empty,
        AuditDetail::Init { slots: 1, dek_generation: 1 },
        AuditDetail::Init { slots: 1, dek_generation: 2 },
        AuditDetail::Unlocked { factor: Factor::Usb },
        AuditDetail::Unlocked { factor: Factor::Passphrase },
        AuditDetail::Cause { reason: Reason::NotFound },
        AuditDetail::TamperedVersion { version: 1 },
        AuditDetail::Written { version: 1 },
        AuditDetail::Read { version: 1, revealed: true },
        AuditDetail::Read { version: 1, revealed: false },
        AuditDetail::Minted { policy_id: 1, ttl_secs: 1 },
        AuditDetail::Revoked { count: 1 },
        AuditDetail::Relayed { policy_id: 1 },
        AuditDetail::Denied { reason: DenyReason::UnknownBearer },
    ];
    let mut seen: Vec<Vec<u8>> = Vec::new();
    for d in details {
        let mut out = Vec::new();
        d.push_onto(&mut out);
        assert!(!seen.contains(&out));
        seen.push(out);
    }
}

#[test]
fn factor_names() {
    assert_eq!(factor_str(Factor::Usb), "usb");
    assert_eq!(factor_str(Factor::Passphrase), "passphrase");
    assert_eq!(factor_str(Factor::RequireBoth), "require_both");
}

#[test]
fn error_messages() {
    assert_eq!(EngineError::UnlockFailed.message(), "unlock failed");
    assert_eq!(
        EngineError::AlreadyInitialized.message(),
        "vault already initialized (refusing to overwrite)"
    );
    assert_eq!(
        EngineError::Argon2MemoryBelowFloor { m_kib: 8, floor: 262_144 }.message(),
        "argon2 m_kib 8 is below the 262144 KiB floor"
    );
    assert_eq!(
        EngineError::Argon2TimeBelowFloor { t_cost: 1, floor: 2 }.message(),
        "argon2 t_cost 1 is below the 2 iteration floor"
    );
    assert_eq!(
        EngineError::UsbPartitionMissing.message(),
        "usb keyfile provided without a usb_partition_uuid"
    );
    assert_eq!(EngineError::DekGenerationMissing.message(), "dek_generation missing");
    assert_eq!(
        EngineError::DekGenerationInvalid.message(),
        "dek_generation is not a valid integer"
    );
    assert_eq!(EngineError::UnknownSecret("k".to_string()).message(), "unknown secret 'k'");
    assert_eq!(
        EngineError::SecretTampered("k".to_string()).message(),
        "secret 'k' failed authentication (tampered or corrupt)"
    );
    assert_eq!(
        EngineError::BrokerOnly("k".to_string()).message(),
        "reveal refused: 'k' is broker-only"
    );
    assert_eq!(
        EngineError::ApplyRequired("k".to_string()).message(),
        "reveal refused: 'k' requires --apply"
    );
    assert_eq!(
        EngineError::RowIdDivergence { assigned: 2, sealed: 1 }.message(),
        "store assigned row_id 2 but the ciphertext was sealed against 1"
    );
    assert_eq!(EngineError::AuditChainBroken(-3).message(), "audit chain broken at seq -3");
    assert_eq!(
        EngineError::Store(StoreError::Backend("gone".to_string())).message(),
        "store failed: gone"
    );
}

#[test]
fn a_store_is_healthy_if_durable_and_provisioned() {
    let health = |durable, schema_version| StoreHealth { durable, schema_version, profile: "remote" };
    assert!(health(true, 1).is_healthy());
    assert!(!health(false, 1).is_healthy());
    assert!(!health(true, 0).is_healthy());
}
