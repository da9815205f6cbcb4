//! What the operations of the engine do, in terms of what the engine and its store hold.
use vstd::prelude::*;
use crate::broker::decide::{ClaimView, DenyReason, RelayDecision, RequestView};
use crate::broker::ledger::{BearerView, BrokerView};
use crate::broker::policy::PolicyView;
use crate::codec;
use crate::error::EngineError;
use crate::event::{AuditDetail, AuditOutcome, EventView, Reason, RowView};
use crate::keyslot::{Argon2Params, Factor, Kdf, SlotView};
use crate::vault::aad::TableTag;
use crate::vault::store::{SecretView, StoreView};

verus! {

/// What an engine holds: the live data key, everything in its store, its relays, and whom it works
/// for.
#[verifier::ext_equal]
pub struct EngineView {
    pub dek: Option<Seq<u8>>,
    pub store: StoreView,
    pub relays: BrokerView,
    pub owner_uid: u32,
    /// Whether the store always tells its last audit row, so that the anchor can follow it.
    pub reads_tail: bool,
    /// Whether the store always sets its metadata, so that the anchor moves only with its entry.
    pub writes_meta: bool,
}

/// Metadata key of the header MAC.
pub open spec fn header_mac_key() -> Seq<char> {
    "vault.header_mac"@
}

/// Metadata key of the issuance floor.
pub open spec fn issuance_floor_key() -> Seq<char> {
    "vault.issuance_floor_ms"@
}

/// Metadata key of the generation of the data key.
pub open spec fn dek_generation_key() -> Seq<char> {
    "vault.dek_generation"@
}

/// Metadata key of the anchor over the audit chain.
pub open spec fn audit_head_key() -> Seq<char> {
    "vault.audit_head"@
}

/// What an audit row says apart from its place, its time and its author.
pub struct Entry {
    pub event_type: Seq<char>,
    pub subject: Option<Seq<char>>,
    pub detail: AuditDetail,
    pub outcome: AuditOutcome,
}

/// The row for an entry before it becomes part of the chain.
pub open spec fn entry_row(owner_uid: u32, entry: Entry, ts: Seq<char>) -> RowView {
    crate::vault::audit::draft(
        ts,
        Some(owner_uid),
        entry.event_type,
        entry.subject,
        entry.detail,
        entry.outcome,
    )
}

/// The store after the anchor was moved to the end of the chain. Without a live data key it stays
/// where it is.
pub open spec fn anchored(store: StoreView, dek: Option<Seq<u8>>) -> StoreView {
    match dek {
        Some(k) => crate::vault::store::with_meta(
            store,
            audit_head_key(),
            codec::hex_text(crate::vault::audit::tail_mac(k, store.audit)),
        ),
        None => store,
    }
}

/// The engine after an entry was written to the audit log at time `ts`, with the anchor where it
/// was.
pub open spec fn noted(s: EngineView, entry: Entry, ts: Seq<char>) -> EngineView {
    EngineView {
        store: crate::vault::store::with_audit(s.store, entry_row(s.owner_uid, entry, ts)),
        ..s
    }
}

/// The engine after an entry was written to the audit log at time `ts` and the anchor was moved.
pub open spec fn journaled(s: EngineView, entry: Entry, ts: Seq<char>) -> EngineView {
    EngineView { store: anchored(noted(s, entry, ts).store, s.dek), ..s }
}

/// The event that mirrors an audit entry: the row with its number, not yet linked.
pub open spec fn mirrored(s: EngineView, entry: Entry, ts: Seq<char>) -> EventView {
    EventView::Audit(
        RowView {
            seq: (s.store.audit.len() + 1) as i64,
            ..entry_row(s.owner_uid, entry, ts)
        },
    )
}

/// The time of the last audit row.
pub open spec fn last_ts(t: EngineView) -> Seq<char> {
    t.store.audit.last().ts
}

/// Whether exactly one entry was written between `s` and `t`, at whatever time, and the events are
/// its mirror followed by `then`. The anchor was moved; it may stay behind only where the store
/// does not always tell its last row.
pub open spec fn recorded(
    s: EngineView,
    before: Seq<EventView>,
    t: EngineView,
    after: Seq<EventView>,
    entry: Entry,
    then: Seq<EventView>,
) -> bool {
    &&& has_room(s)
    &&& t == journaled(s, entry, last_ts(t)) || (!s.reads_tail && t == noted(s, entry, last_ts(t)))
    &&& after == before.push(mirrored(s, entry, last_ts(t))) + then
}

/// What is left where the store failed while an entry was written: nothing was told, and the row is
/// there or is not. The anchor stays where it was; it may have followed the row only where setting
/// it is what failed.
pub open spec fn unfinished(
    s: EngineView,
    before: Seq<EventView>,
    t: EngineView,
    after: Seq<EventView>,
    entry: Entry,
) -> bool {
    &&& after == before
    &&& t == s || (has_room(s) && (t == noted(s, entry, last_ts(t)) || (!s.writes_meta && t
        == journaled(s, entry, last_ts(t)))))
}

/// Whether the audit log has room for another row.
pub open spec fn has_room(s: EngineView) -> bool {
    s.store.audit.len() < i64::MAX
}

/// The rows among which the anchor is looked for.
pub open spec fn anchor_rows(store: StoreView) -> Seq<RowView> {
    crate::vault::store::at_most(crate::vault::store::audit_since(store.audit, 0), usize::MAX)
}

/// Where the audit log is broken for the holder of a data key: at the first row that does not
/// hold, or at zero where the anchor cannot be read or belongs to no row. `None` if all is well.
pub open spec fn audit_fault(store: StoreView, dek: Seq<u8>) -> Option<i64> {
    match crate::vault::audit::first_break(store.audit) {
        Some(seq) => Some(seq),
        None => match crate::vault::store::meta_value(store, audit_head_key()) {
            None => None,
            Some(text) => match codec::unhex(text) {
                None => Some(0i64),
                Some(mac) => if crate::vault::audit::anchor_found(dek, anchor_rows(store), mac) {
                    None
                } else {
                    Some(0i64)
                },
            },
        },
    }
}

/// The header MAC that the store holds.
pub open spec fn stored_mac(store: StoreView) -> Option<Seq<u8>> {
    match crate::vault::store::meta_value(store, header_mac_key()) {
        Some(text) => codec::unhex(text),
        None => None,
    }
}

/// The issuance floor that the store holds.
pub open spec fn stored_floor(store: StoreView) -> Option<i64> {
    match crate::vault::store::meta_value(store, issuance_floor_key()) {
        Some(text) => crate::decimal::parsed_i64(text),
        None => None,
    }
}

/// The generation of the data key that the store holds, or what is wrong with it.
pub open spec fn stored_generation(store: StoreView) -> Result<i64, EngineError> {
    match crate::vault::store::meta_value(store, dek_generation_key()) {
        Some(text) => match crate::decimal::parsed_i64(text) {
            Some(g) => Ok(g),
            None => Err(EngineError::DekGenerationInvalid),
        },
        None => Err(EngineError::DekGenerationMissing),
    }
}

/// The largest generation among the slots.
pub open spec fn max_generation(slots: Seq<SlotView>) -> i64
    decreases slots.len(),
{
    if slots.len() == 0 {
        1
    } else if slots.len() == 1 {
        slots[0].dek_generation
    } else {
        let rest = max_generation(slots.drop_last());
        if slots.last().dek_generation > rest {
            slots.last().dek_generation
        } else {
            rest
        }
    }
}

/// How an attempt to unlock a locked vault ends.
pub enum UnlockVerdict {
    /// The header cannot be read; nothing is written.
    Unreadable { error: EngineError },
    /// The attempt is written to the audit log, and fails.
    Refused { detail: AuditDetail, error: EngineError },
    /// The vault opens.
    Opened { dek: Seq<u8> },
}

/// How an attempt ends for which the keyslots gave `recovered`. A key generation that was changed,
/// garbled or cleared is refused like a changed header; there is no default for it.
pub open spec fn recovery_verdict(store: StoreView, recovered: Option<Seq<u8>>) -> UnlockVerdict {
    match recovered {
        None => UnlockVerdict::Refused {
            detail: AuditDetail::Empty,
            error: EngineError::UnlockFailed,
        },
        Some(dek) => if stored_mac(store) != Some(
            crate::keyslot::header_mac_bytes(dek, store.slots, stored_floor(store).unwrap()),
        ) {
            UnlockVerdict::Refused {
                detail: AuditDetail::Cause { reason: Reason::HeaderMac },
                error: EngineError::HeaderMacMismatch,
            }
        } else {
            if stored_generation(store) != Ok::<i64, EngineError>(max_generation(store.slots)) {
                UnlockVerdict::Refused {
                    detail: AuditDetail::Cause { reason: Reason::DekGeneration },
                    error: EngineError::HeaderMacMismatch,
                }
            } else {
                match audit_fault(store, dek) {
                    Some(seq) => UnlockVerdict::Refused {
                        detail: AuditDetail::Cause { reason: Reason::AuditChain },
                        error: EngineError::AuditChainBroken(seq),
                    },
                    None => UnlockVerdict::Opened { dek },
                }
            }
        },
    }
}

/// How an attempt to unlock a locked vault ends.
pub open spec fn unlock_verdict(store: StoreView, recovered: Option<Seq<u8>>) -> UnlockVerdict {
    if stored_mac(store) is None || stored_floor(store) is None {
        UnlockVerdict::Unreadable { error: EngineError::UnlockFailed }
    } else {
        recovery_verdict(store, recovered)
    }
}

/// The entry for a failed attempt to unlock.
pub open spec fn unlock_failed_entry(detail: AuditDetail) -> Entry {
    Entry { event_type: "vault_unlock"@, subject: None, detail, outcome: AuditOutcome::Failed }
}

/// The entry for an unlocked vault.
pub open spec fn unlocked_entry(factor: Factor) -> Entry {
    Entry {
        event_type: "vault_unlocked"@,
        subject: None,
        detail: AuditDetail::Unlocked { factor },
        outcome: AuditOutcome::Succeeded,
    }
}

/// The entry for a locked vault.
pub open spec fn locked_entry() -> Entry {
    Entry {
        event_type: "vault_locked"@,
        subject: None,
        detail: AuditDetail::Empty,
        outcome: AuditOutcome::Succeeded,
    }
}

/// What an attempt to unlock a locked vault does, apart from failures of the store.
pub open spec fn unlock_effect(
    s: EngineView,
    before: Seq<EventView>,
    t: EngineView,
    after: Seq<EventView>,
    factor: Factor,
    recovered: Option<Seq<u8>>,
    error: Option<EngineError>,
) -> bool {
    match unlock_verdict(s.store, recovered) {
        UnlockVerdict::Unreadable { error: e } => {
            &&& error == Some(e)
            &&& t == s
            &&& after == before
        },
        UnlockVerdict::Refused { detail, error: e } => {
            &&& error == Some(e)
            &&& recorded(s, before, t, after, unlock_failed_entry(detail), Seq::empty())
        },
        UnlockVerdict::Opened { dek } => {
            &&& error is None
            &&& recorded(
                EngineView { dek: Some(dek), ..s },
                before,
                t,
                after,
                unlocked_entry(factor),
                seq![EventView::VaultUnlocked { factor }],
            )
        },
    }
}

/// The random bytes that a new vault is made of.
pub struct MaterialView {
    pub dek: Seq<u8>,
    pub passphrase_salt: Seq<u8>,
    pub passphrase_nonce: Seq<u8>,
    /// Salt and nonce of the USB slot.
    pub usb: Option<(Seq<u8>, Seq<u8>)>,
}

/// Whether the random bytes have the lengths that a new vault asks for.
pub open spec fn material_fits(m: MaterialView, with_usb: bool) -> bool {
    &&& m.dek.len() == 32
    &&& m.passphrase_salt.len() == 16
    &&& m.passphrase_nonce.len() == crate::primitives::NONCE_LEN
    &&& match m.usb {
        Some((salt, nonce)) => with_usb && salt.len() == 32 && nonce.len()
            == crate::primitives::NONCE_LEN,
        None => !with_usb,
    }
}

/// The salts and nonces of a new vault, one after the other.
pub open spec fn seed_bytes(m: MaterialView) -> Seq<u8> {
    m.passphrase_salt + m.passphrase_nonce + match m.usb {
        Some((salt, nonce)) => salt + nonce,
        None => Seq::empty(),
    }
}

/// How many bytes of salts and nonces a new vault takes.
pub open spec fn seed_len(with_usb: bool) -> usize {
    if with_usb {
        96
    } else {
        40
    }
}

/// Whether all random bytes of a new vault are what the operating system gave: the data key in one
/// draw, and in another the salts and nonces, each at a place of its own.
pub open spec fn material_drawn(m: MaterialView) -> bool {
    &&& crate::entropy::drawn(32, m.dek)
    &&& crate::entropy::drawn(seed_len(m.usb is Some), seed_bytes(m))
}

/// Whether the operating system failed to give some of the random bytes of a new vault.
pub open spec fn material_missing(with_usb: bool) -> bool {
    ||| crate::entropy::none_drawn(seed_len(with_usb))
    ||| crate::entropy::none_drawn(32)
}

/// A slot with the wrapped data key put in.
pub open spec fn filled(
    slot: SlotView,
    kek: Seq<u8>,
    nonce: Seq<u8>,
    dek: Seq<u8>,
) -> SlotView {
    SlotView {
        wrap_nonce: nonce,
        wrapped_dek: crate::primitives::xchacha_seal(
            kek,
            nonce,
            crate::keyslot::keyslot_aad_bytes(slot),
            dek,
        ),
        ..slot
    }
}

/// The passphrase slot of a new vault.
pub open spec fn new_passphrase_slot(
    m: MaterialView,
    passphrase: Seq<char>,
    params: Argon2Params,
) -> SlotView {
    filled(
        SlotView {
            id: 1,
            factor: Factor::Passphrase,
            label: "passphrase"@,
            kdf: Kdf::Argon2id(params),
            salt: m.passphrase_salt,
            usb_partition_uuid: None,
            wrap_nonce: Seq::empty(),
            wrapped_dek: Seq::empty(),
            dek_generation: 1,
            enabled: true,
        },
        crate::keyslot::passphrase_kek(
            vstd::utf8::encode_utf8(passphrase),
            m.passphrase_salt,
            params,
        ),
        m.passphrase_nonce,
        m.dek,
    )
}

/// The USB slot of a new vault.
pub open spec fn new_usb_slot(
    dek: Seq<u8>,
    salt: Seq<u8>,
    nonce: Seq<u8>,
    uuid: Seq<char>,
    keyfile: Seq<u8>,
) -> SlotView {
    filled(
        SlotView {
            id: 2,
            factor: Factor::Usb,
            label: "usb"@,
            kdf: Kdf::HkdfSha256,
            salt,
            usb_partition_uuid: Some(uuid),
            wrap_nonce: Seq::empty(),
            wrapped_dek: Seq::empty(),
            dek_generation: 1,
            enabled: true,
        },
        crate::keyslot::usb_kek(keyfile, salt),
        nonce,
        dek,
    )
}

/// The slots of a new vault: one for the passphrase, and one for the keyfile if there is one.
pub open spec fn new_slots(
    m: MaterialView,
    passphrase: Seq<char>,
    uuid: Option<Seq<char>>,
    keyfile: Option<Seq<u8>>,
    params: Argon2Params,
) -> Seq<SlotView> {
    match (m.usb, uuid, keyfile) {
        (Some((salt, nonce)), Some(u), Some(k)) => seq![
            new_passphrase_slot(m, passphrase, params),
            new_usb_slot(m.dek, salt, nonce, u, k),
        ],
        _ => seq![new_passphrase_slot(m, passphrase, params)],
    }
}

/// Whether the slots of a new vault give the data key back: the first to the passphrase, the second
/// to the keyfile.
pub open spec fn slots_open(
    slots: Seq<SlotView>,
    passphrase: Seq<char>,
    keyfile: Option<Seq<u8>>,
    dek: Seq<u8>,
) -> bool {
    &&& slots.len() >= 1
    &&& crate::keyslot::passphrase_opens(slots[0], vstd::utf8::encode_utf8(passphrase)) == Some(dek)
    &&& keyfile is Some ==> slots.len() == 2 && crate::keyslot::keyfile_opens(slots[1], keyfile)
        == Some(dek)
}

/// Why a new vault is refused, before anything is drawn or written.
pub open spec fn init_refusal(
    store: StoreView,
    params: Argon2Params,
    with_uuid: bool,
    with_keyfile: bool,
) -> Option<EngineError> {
    if crate::vault::store::meta_value(store, header_mac_key()) is Some {
        Some(EngineError::AlreadyInitialized)
    } else if params.m_kib < crate::keyslot::ARGON2_M_KIB_FLOOR {
        Some(
            EngineError::Argon2MemoryBelowFloor {
                m_kib: params.m_kib,
                floor: crate::keyslot::ARGON2_M_KIB_FLOOR,
            },
        )
    } else if params.t_cost < crate::keyslot::ARGON2_T_COST_FLOOR {
        Some(
            EngineError::Argon2TimeBelowFloor {
                t_cost: params.t_cost,
                floor: crate::keyslot::ARGON2_T_COST_FLOOR,
            },
        )
    } else if with_keyfile && !with_uuid {
        Some(EngineError::UsbPartitionMissing)
    } else {
        None
    }
}

/// The store after each of the slots was saved, in order.
pub open spec fn with_slots(store: StoreView, slots: Seq<SlotView>) -> StoreView
    decreases slots.len(),
{
    if slots.len() == 0 {
        store
    } else {
        crate::vault::store::with_slot(with_slots(store, slots.drop_last()), slots.last())
    }
}

/// The store with the slots and the header of a new vault.
pub open spec fn with_header(
    store: StoreView,
    dek: Seq<u8>,
    slots: Seq<SlotView>,
    floor_ms: i64,
) -> StoreView {
    crate::vault::store::with_meta(
        crate::vault::store::with_meta(
            crate::vault::store::with_meta(
                with_slots(store, slots),
                header_mac_key(),
                codec::hex_text(crate::keyslot::header_mac_bytes(dek, slots, floor_ms)),
            ),
            issuance_floor_key(),
            crate::decimal::decimal_text(floor_ms as int),
        ),
        dek_generation_key(),
        crate::decimal::decimal_text(1),
    )
}

/// The store after the first `n` of the writes that make the slots and the header of a new vault:
/// slot by slot, then the header MAC, the issuance floor and the key generation.
pub open spec fn with_header_part(
    store: StoreView,
    dek: Seq<u8>,
    slots: Seq<SlotView>,
    floor_ms: i64,
    n: int,
) -> StoreView {
    let all = slots.len();
    if n <= all {
        with_slots(store, slots.take(n))
    } else {
        let keyed = crate::vault::store::with_meta(
            with_slots(store, slots),
            header_mac_key(),
            codec::hex_text(crate::keyslot::header_mac_bytes(dek, slots, floor_ms)),
        );
        let floored = crate::vault::store::with_meta(
            keyed,
            issuance_floor_key(),
            crate::decimal::decimal_text(floor_ms as int),
        );
        if n == all + 1 {
            keyed
        } else if n == all + 2 {
            floored
        } else {
            with_header(store, dek, slots, floor_ms)
        }
    }
}

/// The entry for a new vault.
pub open spec fn init_entry(slots: nat) -> Entry {
    Entry {
        event_type: "vault_init"@,
        subject: None,
        detail: AuditDetail::Init { slots: slots as u64, dek_generation: 1 },
        outcome: AuditOutcome::Succeeded,
    }
}

/// What a new vault leaves behind: its slots, its header, one audit row, and the anchor over that
/// row under the new data key. The engine keeps no trace of the key.
pub open spec fn init_effect(
    s: EngineView,
    before: Seq<EventView>,
    t: EngineView,
    after: Seq<EventView>,
    dek: Seq<u8>,
    slots: Seq<SlotView>,
    floor_ms: i64,
) -> bool {
    let headed = EngineView { store: with_header(s.store, dek, slots, floor_ms), ..s };
    let written = noted(headed, init_entry(slots.len()), last_ts(t));
    &&& has_room(s)
    &&& t == (EngineView { store: anchored(written.store, Some(dek)), ..written })
    &&& after == before.push(mirrored(headed, init_entry(slots.len()), last_ts(t)))
}

/// What is left where slots and header of a new vault were not all written: the first of the
/// writes, in their order. Nothing was told.
pub open spec fn header_unfinished(
    s: EngineView,
    before: Seq<EventView>,
    t: EngineView,
    after: Seq<EventView>,
    dek: Seq<u8>,
    slots: Seq<SlotView>,
    floor_ms: i64,
) -> bool {
    &&& after == before
    &&& exists|n: int|
        0 <= n <= slots.len() + 3 && t.store == #[trigger] with_header_part(
            s.store,
            dek,
            slots,
            floor_ms,
            n,
        )
    &&& t == (EngineView { store: t.store, ..s })
}

/// What is left where a new vault was written with its audit row, and the anchor was not: the row
/// is told, and the anchor is where it was or has followed.
pub open spec fn anchor_unfinished(
    s: EngineView,
    before: Seq<EventView>,
    t: EngineView,
    after: Seq<EventView>,
    dek: Seq<u8>,
    slots: Seq<SlotView>,
    floor_ms: i64,
) -> bool {
    let headed = EngineView { store: with_header(s.store, dek, slots, floor_ms), ..s };
    let entry = init_entry(slots.len());
    let written = noted(headed, entry, last_ts(t));
    &&& has_room(s)
    &&& after == before.push(mirrored(headed, entry, last_ts(t)))
    &&& {
        ||| t == written
        ||| t == journaled(headed, entry, last_ts(t))
        ||| t == (EngineView { store: anchored(written.store, Some(dek)), ..s })
    }
}

/// Whether a new vault was made of the given random bytes and issuance floor, and opens again.
pub open spec fn created(
    s: EngineView,
    before: Seq<EventView>,
    t: EngineView,
    after: Seq<EventView>,
    m: MaterialView,
    passphrase: Seq<char>,
    uuid: Option<Seq<char>>,
    keyfile: Option<Seq<u8>>,
    params: Argon2Params,
    floor_ms: i64,
) -> bool {
    let slots = new_slots(m, passphrase, uuid, keyfile, params);
    &&& material_fits(m, keyfile is Some)
    &&& slots_open(slots, passphrase, keyfile, m.dek)
    &&& init_effect(s, before, t, after, m.dek, slots, floor_ms)
}

/// The associated data of a stored version.
pub open spec fn row_aad(row: SecretView) -> Seq<u8> {
    crate::vault::aad::record_aad_bytes(
        TableTag::SecretVersion,
        row.row_id,
        row.version as i64,
        row.dek_generation,
    )
}

/// The plaintext of a stored version.
pub open spec fn row_plaintext(dek: Seq<u8>, row: SecretView) -> Option<Seq<u8>> {
    crate::vault::crypto::opened(dek, row.nonce, row_aad(row), row.ct_tag)
}

/// How a read of an unlocked vault ends.
pub enum ReadVerdict {
    NotFound,
    Tampered { version: u32 },
    BrokerOnly,
    ApplyNotSet,
    Revealed { version: u32, body: Seq<u8> },
    Consumed { version: u32 },
}

/// How a read of an unlocked vault ends.
pub open spec fn read_verdict(
    store: StoreView,
    dek: Seq<u8>,
    name: Seq<char>,
    reveal: bool,
    apply: bool,
) -> ReadVerdict {
    match crate::vault::store::latest(store.secrets, name) {
        None => ReadVerdict::NotFound,
        Some(row) => match row_plaintext(dek, row) {
            None => ReadVerdict::Tampered { version: row.version },
            Some(body) => if !reveal {
                ReadVerdict::Consumed { version: row.version }
            } else if row.broker_only {
                ReadVerdict::BrokerOnly
            } else if !apply {
                ReadVerdict::ApplyNotSet
            } else {
                ReadVerdict::Revealed { version: row.version, body }
            },
        },
    }
}

/// The entry for a read.
pub open spec fn read_entry(verdict: ReadVerdict, name: Seq<char>) -> Entry {
    let (detail, outcome) = match verdict {
        ReadVerdict::NotFound => (
            AuditDetail::Cause { reason: Reason::NotFound },
            AuditOutcome::Failed,
        ),
        ReadVerdict::Tampered { version } => (
            AuditDetail::TamperedVersion { version },
            AuditOutcome::Failed,
        ),
        ReadVerdict::BrokerOnly => (
            AuditDetail::Cause { reason: Reason::BrokerOnly },
            AuditOutcome::Refused,
        ),
        ReadVerdict::ApplyNotSet => (
            AuditDetail::Cause { reason: Reason::ApplyNotSet },
            AuditOutcome::Refused,
        ),
        ReadVerdict::Revealed { version, body } => (
            AuditDetail::Read { version, revealed: true },
            AuditOutcome::Succeeded,
        ),
        ReadVerdict::Consumed { version } => (
            AuditDetail::Read { version, revealed: false },
            AuditOutcome::Succeeded,
        ),
    };
    Entry { event_type: "secret_read"@, subject: Some(name), detail, outcome }
}

/// The events that follow the mirrored entry of a read.
pub open spec fn read_events(verdict: ReadVerdict, name: Seq<char>, uid: u32) -> Seq<EventView> {
    match verdict {
        ReadVerdict::NotFound => Seq::empty(),
        ReadVerdict::Tampered { version } => Seq::empty(),
        ReadVerdict::BrokerOnly => seq![
            EventView::GuardRefused { subject: name, reason: Reason::BrokerOnly.words() },
        ],
        ReadVerdict::ApplyNotSet => seq![
            EventView::GuardRefused { subject: name, reason: Reason::ApplyNotSet.words() },
        ],
        ReadVerdict::Revealed { version, body } => seq![
            EventView::SecretRead { name, by_uid: uid },
        ],
        ReadVerdict::Consumed { version } => seq![EventView::SecretRead { name, by_uid: uid }],
    }
}

/// What a read gives back. Nothing but a reveal gives plaintext.
pub open spec fn read_result(
    verdict: ReadVerdict,
    name: Seq<char>,
    result: Result<Vec<u8>, EngineError>,
) -> bool {
    match verdict {
        ReadVerdict::NotFound => result matches Err(EngineError::UnknownSecret(n)) && n@ == name,
        ReadVerdict::Tampered { version } => result matches Err(EngineError::SecretTampered(n))
            && n@ == name,
        ReadVerdict::BrokerOnly => result matches Err(EngineError::BrokerOnly(n)) && n@ == name,
        ReadVerdict::ApplyNotSet => result matches Err(EngineError::ApplyRequired(n)) && n@
            == name,
        ReadVerdict::Revealed { version, body } => result matches Ok(b) && b@ == body,
        ReadVerdict::Consumed { version } => result matches Ok(b) && b@ == Seq::<u8>::empty(),
    }
}

/// What is known of a secret besides its body.
pub struct MetaView {
    pub name: Seq<char>,
    pub provider: crate::broker::policy::Provider,
    pub note: Seq<char>,
    pub broker_only: bool,
}

/// The entry for a written version.
pub open spec fn written_entry(name: Seq<char>, version: u32) -> Entry {
    Entry {
        event_type: "secret_written"@,
        subject: Some(name),
        detail: AuditDetail::Written { version },
        outcome: AuditOutcome::Succeeded,
    }
}

/// Whether `row` is the next version of a secret with the given body, sealed for its own place.
pub open spec fn is_next_version(
    store: StoreView,
    dek: Seq<u8>,
    generation: i64,
    meta: MetaView,
    body: Seq<u8>,
    row: SecretView,
) -> bool {
    &&& row.row_id == store.next_row_id
    &&& row.name == meta.name
    &&& row.version == crate::vault::store::latest_version(store.secrets, meta.name) + 1
    &&& row.provider == meta.provider
    &&& row.note == meta.note
    &&& row.broker_only == meta.broker_only
    &&& row.dek_generation == generation
    &&& crate::vault::crypto::is_sealed(dek, row.nonce, row_aad(row), body, row.ct_tag)
}

/// What writing a version does: the last row of the store is the new version, and one entry was
/// written.
pub open spec fn put_effect(
    s: EngineView,
    before: Seq<EventView>,
    t: EngineView,
    after: Seq<EventView>,
    meta: MetaView,
    body: Seq<u8>,
) -> bool {
    let row = t.store.secrets.last();
    &&& s.dek matches Some(dek)
    &&& s.store.next_row_id < i64::MAX
    &&& stored_generation(s.store) matches Ok(generation)
    &&& is_next_version(s.store, dek, generation, meta, body, row)
    &&& crate::entropy::drawn(crate::primitives::NONCE_LEN, row.nonce)
    &&& recorded(
        EngineView {
            store: crate::vault::store::with_secret(
                crate::vault::store::with_row_id_taken(s.store),
                row,
            ),
            ..s
        },
        before,
        t,
        after,
        written_entry(meta.name, row.version),
        seq![EventView::SecretWritten { name: meta.name, version: row.version }],
    )
}

/// What is left where the store failed while a version was written: nothing was told. The row id
/// was handed out or was not, the row is there or is not, and an entry can be there only behind the
/// row.
pub open spec fn put_unfinished(
    s: EngineView,
    before: Seq<EventView>,
    t: EngineView,
    after: Seq<EventView>,
    meta: MetaView,
    body: Seq<u8>,
) -> bool {
    let taken = EngineView { store: crate::vault::store::with_row_id_taken(s.store), ..s };
    let row = t.store.secrets.last();
    &&& after == before
    &&& {
        ||| t == s
        ||| s.store.next_row_id < i64::MAX && t == taken
        ||| {
            &&& s.store.next_row_id < i64::MAX
            &&& s.dek matches Some(dek)
            &&& stored_generation(s.store) matches Ok(generation)
            &&& is_next_version(s.store, dek, generation, meta, body, row)
            &&& crate::entropy::drawn(crate::primitives::NONCE_LEN, row.nonce)
            &&& unfinished(
                EngineView { store: crate::vault::store::with_secret(taken.store, row), ..s },
                before,
                t,
                after,
                written_entry(meta.name, row.version),
            )
        }
    }
}

/// What is left where the store filed a version under another row id than the one it handed out,
/// for which the version is sealed: the row is there, out of place, and nothing was told or
/// entered.
pub open spec fn put_diverged(
    s: EngineView,
    before: Seq<EventView>,
    t: EngineView,
    after: Seq<EventView>,
    meta: MetaView,
    body: Seq<u8>,
    assigned: i64,
) -> bool {
    let taken = crate::vault::store::with_row_id_taken(s.store);
    let filed = t.store.secrets.last();
    &&& after == before
    &&& s.store.next_row_id < i64::MAX
    &&& s.dek matches Some(dek)
    &&& stored_generation(s.store) matches Ok(generation)
    &&& is_next_version(
        s.store,
        dek,
        generation,
        meta,
        body,
        SecretView { row_id: s.store.next_row_id, ..filed },
    )
    &&& crate::entropy::drawn(crate::primitives::NONCE_LEN, filed.nonce)
    &&& filed.row_id == assigned
    &&& assigned != s.store.next_row_id
    &&& t == (EngineView { store: crate::vault::store::with_secret(taken, filed), ..s })
}

/// Why a version is not written, before anything is drawn or changed.
pub open spec fn put_refusal(s: EngineView, name: Seq<char>) -> Option<PutRefusal> {
    if s.dek is None {
        Some(PutRefusal::Locked)
    } else if stored_generation(s.store) is Err {
        Some(PutRefusal::Generation { error: stored_generation(s.store)->Err_0 })
    } else if crate::vault::store::latest_version(s.store.secrets, name) == u32::MAX {
        Some(PutRefusal::VersionsExhausted)
    } else {
        None
    }
}

/// Why a version is not written.
pub enum PutRefusal {
    Locked,
    Generation { error: EngineError },
    VersionsExhausted,
}

/// The error for a refused write.
pub open spec fn put_refused(
    refusal: PutRefusal,
    name: Seq<char>,
    result: Result<(), EngineError>,
) -> bool {
    match refusal {
        PutRefusal::Locked => result == Err::<(), EngineError>(EngineError::Locked),
        PutRefusal::Generation { error } => result == Err::<(), EngineError>(error),
        PutRefusal::VersionsExhausted => result matches Err(EngineError::VersionsExhausted(n))
            && n@ == name,
    }
}

/// The key under which the tokens of bearers are kept as MACs.
pub open spec fn bearer_key(dek: Seq<u8>) -> Seq<u8> {
    crate::primitives::blake3_derive_key("env-ctl/v1/bearer/key"@, dek)
}

/// The token that the client of a bearer presents.
pub open spec fn token_text(token_bytes: Seq<u8>) -> Seq<char> {
    "evrelay_"@ + codec::hex_text(token_bytes)
}

/// The end of a lifetime that starts now, as far as the clock goes.
pub open spec fn expiry(now_ms: i64, ttl_secs: int) -> i64 {
    let end = now_ms + 1000 * ttl_secs;
    if end > i64::MAX {
        i64::MAX
    } else {
        end as i64
    }
}

/// What a bearer is minted for.
pub struct MintView {
    pub policy: PolicyView,
    pub requested_ttl_secs: i64,
    pub peer_uid: Option<u32>,
    pub peer_pid: Option<u32>,
}

/// The policy of a new bearer: the one asked for, under the next free number.
pub open spec fn new_policy(s: EngineView, mint: MintView) -> PolicyView {
    PolicyView { id: (s.relays.policies.len() + 1) as i64, ..mint.policy }
}

/// What is kept of a new bearer.
pub open spec fn new_bearer(
    s: EngineView,
    dek: Seq<u8>,
    mint: MintView,
    now_ms: i64,
    token_bytes: Seq<u8>,
    id_bytes: Seq<u8>,
) -> BearerView {
    BearerView {
        policy_id: new_policy(s, mint).id,
        token_id: codec::hex_text(id_bytes),
        mac: crate::broker::token::bearer_mac(bearer_key(dek), token_text(token_bytes)),
        issued_at_ms: now_ms,
        expires_at_ms: expiry(
            now_ms,
            crate::broker::policy::clamped_ttl(mint.requested_ttl_secs as int),
        ),
        client_uid: mint.peer_uid,
        client_pid: mint.peer_pid,
        revoked: false,
    }
}

/// The entry for a new bearer.
pub open spec fn minted_entry(s: EngineView, mint: MintView) -> Entry {
    Entry {
        event_type: "relay_mint"@,
        subject: Some(mint.policy.relay_id),
        detail: AuditDetail::Minted {
            policy_id: new_policy(s, mint).id,
            ttl_secs: crate::broker::policy::clamped_ttl(mint.requested_ttl_secs as int) as i64,
        },
        outcome: AuditOutcome::Succeeded,
    }
}

/// What minting a bearer does: one policy and one bearer more, and one entry. The token is in what
/// the client gets, and nowhere else.
pub open spec fn mint_effect(
    s: EngineView,
    before: Seq<EventView>,
    t: EngineView,
    after: Seq<EventView>,
    mint: MintView,
    now_ms: i64,
    token_bytes: Seq<u8>,
    id_bytes: Seq<u8>,
    bearer: crate::broker::policy::Bearer,
) -> bool {
    &&& s.dek matches Some(dek)
    &&& s.relays.policies.len() < i64::MAX
    &&& {
        let row = new_bearer(s, dek, mint, now_ms, token_bytes, id_bytes);
        &&& recorded(
            EngineView {
                relays: BrokerView {
                    policies: s.relays.policies.push(new_policy(s, mint)),
                    bearers: s.relays.bearers.push(row),
                },
                ..s
            },
            before,
            t,
            after,
            minted_entry(s, mint),
            Seq::empty(),
        )
        &&& bearer.policy_id == row.policy_id
        &&& bearer.token_id@ == row.token_id
        &&& bearer.token@ == token_text(token_bytes)
        &&& bearer.issued_at_ms == row.issued_at_ms
        &&& bearer.expires_at_ms == row.expires_at_ms
    }
}

/// The entry for something that was refused.
pub open spec fn refused_entry(
    event_type: Seq<char>,
    subject: Seq<char>,
    detail: AuditDetail,
) -> Entry {
    Entry { event_type, subject: Some(subject), detail, outcome: AuditOutcome::Refused }
}

/// The entry for revoked policies or bearers.
pub open spec fn revoked_entry(event_type: Seq<char>, subject: Seq<char>, count: u32) -> Entry {
    Entry {
        event_type,
        subject: Some(subject),
        detail: AuditDetail::Revoked { count },
        outcome: AuditOutcome::Succeeded,
    }
}

/// The decision on a request.
pub open spec fn decided(
    p: PolicyView,
    b: ClaimView,
    req: RequestView,
    now_ms: i64,
    usb_absent_since_ms: Option<i64>,
    issuance_floor_ms: i64,
) -> RelayDecision {
    choose|d: RelayDecision|
        crate::broker::decide::is_decision(
            d,
            p,
            b,
            req,
            now_ms,
            usb_absent_since_ms,
            issuance_floor_ms,
        )
}

/// What the decision reads of a kept bearer.
pub open spec fn claim(b: BearerView) -> ClaimView {
    ClaimView {
        policy_id: b.policy_id,
        token_id: b.token_id,
        expires_at_ms: b.expires_at_ms,
        issued_at_ms: b.issued_at_ms,
        client_uid: b.client_uid,
        client_pid: b.client_pid,
        revoked: b.revoked,
    }
}

/// How the swap of a bearer for the real key ends.
pub enum SwapVerdict {
    /// Something that the decision needs is missing.
    Internal { reason: Reason },
    Denied { subject: Seq<char>, reason: DenyReason },
    /// The request may go out with the key.
    Send { policy: int, token_id: Seq<char>, key: Seq<u8> },
}

/// The subject under which a token is audited that belongs to no bearer.
pub open spec fn unknown_subject() -> Seq<char> {
    "unknown bearer"@
}

/// How the swap of a bearer for the real key ends. The key is looked at only where the decision is
/// to allow.
pub open spec fn swap_verdict(
    s: EngineView,
    token: Seq<char>,
    req: RequestView,
    now_ms: i64,
    usb_absent_since_ms: Option<i64>,
) -> SwapVerdict {
    match s.dek {
        None => SwapVerdict::Internal { reason: Reason::VaultLocked },
        Some(dek) => match crate::broker::ledger::looked_up(s.relays, bearer_key(dek), token) {
            None => SwapVerdict::Denied {
                subject: unknown_subject(),
                reason: DenyReason::UnknownBearer,
            },
            Some((b, p)) => {
                let bearer = s.relays.bearers[b];
                let policy = s.relays.policies[p];
                match stored_floor(s.store) {
                    None => SwapVerdict::Internal { reason: Reason::FloorUnreadable },
                    Some(floor) => match decided(
                        policy,
                        claim(bearer),
                        req,
                        now_ms,
                        usb_absent_since_ms,
                        floor,
                    ) {
                        RelayDecision::Deny { reason } => SwapVerdict::Denied {
                            subject: bearer.token_id,
                            reason,
                        },
                        RelayDecision::Allow => match crate::vault::store::latest(
                            s.store.secrets,
                            policy.secret_name,
                        ) {
                            None => SwapVerdict::Internal { reason: Reason::KeyUnavailable },
                            Some(row) => match row_plaintext(dek, row) {
                                None => SwapVerdict::Internal { reason: Reason::KeyUnavailable },
                                Some(key) => SwapVerdict::Send {
                                    policy: p,
                                    token_id: bearer.token_id,
                                    key,
                                },
                            },
                        },
                    },
                }
            },
        },
    }
}

/// The engine after a request of `bytes_out` bytes was counted against its policy.
pub open spec fn with_charge(
    s: EngineView,
    policy: int,
    bytes_out: u64,
    now_ms: i64,
) -> EngineView {
    EngineView {
        relays: BrokerView {
            policies: s.relays.policies.update(
                policy,
                crate::broker::ledger::charged(s.relays.policies[policy], bytes_out, now_ms),
            ),
            ..s.relays
        },
        ..s
    }
}

/// The entry for a swap.
pub open spec fn swap_entry(s: EngineView, verdict: SwapVerdict) -> Entry {
    let (subject, detail, outcome) = match verdict {
        SwapVerdict::Internal { reason } => (
            None::<Seq<char>>,
            AuditDetail::Cause { reason },
            AuditOutcome::Failed,
        ),
        SwapVerdict::Denied { subject, reason } => (
            Some(subject),
            AuditDetail::Denied { reason },
            AuditOutcome::Refused,
        ),
        SwapVerdict::Send { policy, token_id, key } => (
            Some(token_id),
            AuditDetail::Relayed { policy_id: s.relays.policies[policy].id },
            AuditOutcome::Succeeded,
        ),
    };
    Entry { event_type: "relay_swap"@, subject, detail, outcome }
}

/// What a swap does.
pub open spec fn swap_effect(
    s: EngineView,
    before: Seq<EventView>,
    t: EngineView,
    after: Seq<EventView>,
    verdict: SwapVerdict,
    bytes_out: u64,
    now_ms: i64,
) -> bool {
    let entry = swap_entry(s, verdict);
    match verdict {
        SwapVerdict::Internal { reason } => recorded(s, before, t, after, entry, Seq::empty()),
        SwapVerdict::Denied { subject, reason } => recorded(
            s,
            before,
            t,
            after,
            entry,
            seq![EventView::GuardRefused { subject, reason: reason.words() }],
        ),
        SwapVerdict::Send { policy, token_id, key } => recorded(
            with_charge(s, policy, bytes_out, now_ms),
            before,
            t,
            after,
            entry,
            Seq::empty(),
        ),
    }
}

} // verus!
