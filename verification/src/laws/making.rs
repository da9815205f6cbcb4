//! Which vaults are made, what they hold, and who can open them.
use vstd::prelude::*;
use crate::codec;
use crate::decimal;
use crate::engine::model;
use crate::engine::model::{EngineView, MaterialView};
use crate::engine::{Engine, Unlock};
use crate::entropy;
use crate::error::{EngineError, VaultState};
use crate::event::{AuditDetail, AuditOutcome, EventSink};
use crate::keyslot;
use crate::keyslot::{Argon2Params, Dek, Factor, Kdf, Keyslot, SlotView};
use crate::laws;
use crate::primitives;
use crate::seam;
use crate::seam::{Clock, UsbProbe};
use crate::vault::store::{Store, StoreCall, StoreView};

verus! {

/// Whether random bytes that a new vault takes were not to be had.
pub open spec fn no_entropy(with_keyfile: bool) -> bool {
    ||| entropy::none_drawn(32)
    ||| with_keyfile && entropy::none_drawn(96)
    ||| !with_keyfile && entropy::none_drawn(40)
}

/// A new vault is refused where the store holds one, where memory or time are below their floors,
/// and where a keyfile comes without its partition; nowhere else. What is refused changes nothing.
/// What is not refused is made, unless there are no random bytes to make it of.
pub proof fn law_vault_is_refused_for_a_reason<S: Store, C: Clock, U: UsbProbe>(
    e: &mut Engine<S, C, U>,
    passphrase: String,
    uuid: Option<String>,
    keyfile: Option<Vec<u8>>,
    params: Argon2Params,
    sink: &mut EventSink,
    result: Result<(), EngineError>,
)
    requires
        call_ensures(
            Engine::<S, C, U>::init_vault,
            (e, passphrase, uuid, keyfile, params, sink),
            result,
        ),
        old(e).dependable(),
        old(e).state().store.audit.len() < i64::MAX,
    ensures
        ({
            let there = old(e).state().store.meta.dom().contains("vault.header_mac"@);
            let low_memory = params.m_kib < 262_144;
            let low_time = params.t_cost < 1;
            let astray = keyfile is Some && uuid is None;
            &&& there ==> result == Err::<(), EngineError>(EngineError::AlreadyInitialized)
            &&& !there && low_memory ==> result == Err::<(), EngineError>(
                EngineError::Argon2MemoryBelowFloor { m_kib: params.m_kib, floor: 262_144 },
            )
            &&& !there && !low_memory && low_time ==> result == Err::<(), EngineError>(
                EngineError::Argon2TimeBelowFloor { t_cost: params.t_cost, floor: 1 },
            )
            &&& !there && !low_memory && !low_time && astray ==> result == Err::<(), EngineError>(
                EngineError::UsbPartitionMissing,
            )
            &&& !there && params.m_kib >= 262_144 && params.t_cost >= 1 && !astray ==> {
                ||| result is Ok
                ||| result == Err::<(), EngineError>(EngineError::EntropyUnavailable) && no_entropy(
                    keyfile is Some,
                )
            }
        }),
        result is Err ==> final(e).state() == old(e).state() && final(sink)@ == old(sink)@,
{
    assert(old(e).reliable(StoreCall::GetMeta));
    assert(old(e).reliable(StoreCall::SaveKeyslot));
    assert(old(e).reliable(StoreCall::PutMeta));
    assert(old(e).reliable(StoreCall::AppendAudit));
    assert(old(e).reliable(StoreCall::LastAudit));
}

/// The default parameters are never refused: where the store holds no vault and a keyfile comes
/// with its partition, a vault is made with them, unless there are no random bytes to make it of.
pub proof fn law_default_parameters_are_taken<S: Store, C: Clock, U: UsbProbe>(
    e: &mut Engine<S, C, U>,
    passphrase: String,
    uuid: Option<String>,
    keyfile: Option<Vec<u8>>,
    params: Argon2Params,
    sink: &mut EventSink,
    result: Result<(), EngineError>,
)
    requires
        call_ensures(Argon2Params::default, (), params),
        call_ensures(
            Engine::<S, C, U>::init_vault,
            (e, passphrase, uuid, keyfile, params, sink),
            result,
        ),
        old(e).dependable(),
        old(e).state().store.audit.len() < i64::MAX,
        !old(e).state().store.meta.dom().contains("vault.header_mac"@),
        keyfile is Some ==> uuid is Some,
    ensures
        params.m_kib == 1_048_576 && params.t_cost == 4 && params.p_lanes == 4,
        result is Ok || no_entropy(keyfile is Some),
{
    law_vault_is_refused_for_a_reason(e, passphrase, uuid, keyfile, params, sink, result);
}

/// Whether a slot is a fresh copy of the data key for a passphrase.
pub open spec fn copy_for_passphrase(
    slot: SlotView,
    dek: Seq<u8>,
    passphrase: Seq<u8>,
    p: Argon2Params,
) -> bool {
    &&& slot.id == 1
    &&& slot.factor == Factor::Passphrase
    &&& slot.kdf == Kdf::Argon2id(p)
    &&& slot.label == "passphrase"@
    &&& slot.usb_partition_uuid is None
    &&& slot.dek_generation == 1
    &&& slot.enabled
    &&& slot.salt.len() == 16
    &&& slot.wrap_nonce.len() == 24
    &&& slot.wrapped_dek == primitives::xchacha_seal(
        primitives::argon2id_v13(passphrase, slot.salt, p.m_kib, p.t_cost, p.p_lanes),
        slot.wrap_nonce,
        keyslot::keyslot_aad_bytes(slot),
        dek,
    )
    &&& laws::keys::passphrase_fits(slot, passphrase, dek)
}

/// Whether a slot is a fresh copy of the data key for a keyfile on a partition.
pub open spec fn copy_for_keyfile(
    slot: SlotView,
    dek: Seq<u8>,
    uuid: Seq<char>,
    keyfile: Seq<u8>,
) -> bool {
    &&& slot.id == 2
    &&& slot.factor == Factor::Usb
    &&& slot.kdf == Kdf::HkdfSha256
    &&& slot.label == "usb"@
    &&& slot.usb_partition_uuid == Some(uuid)
    &&& slot.dek_generation == 1
    &&& slot.enabled
    &&& slot.salt.len() == 32
    &&& slot.wrap_nonce.len() == 24
    &&& slot.wrapped_dek == primitives::xchacha_seal(
        primitives::hkdf_sha256(slot.salt, keyfile, vstd::utf8::encode_utf8("env-ctl/v1/kek/usb"@)),
        slot.wrap_nonce,
        keyslot::keyslot_aad_bytes(slot),
        dek,
    )
    &&& laws::keys::keyfile_fits(slot, keyfile, dek)
}

/// Whether the slots of a new vault are those of a key and its factors, made of random bytes.
pub open spec fn copies(
    slots: Seq<SlotView>,
    dek: Seq<u8>,
    passphrase: Seq<u8>,
    uuid: Option<Seq<char>>,
    keyfile: Option<Seq<u8>>,
    p: Argon2Params,
) -> bool {
    &&& copy_for_passphrase(slots[0], dek, passphrase, p)
    &&& entropy::drawn(32, dek)
    &&& dek.len() == 32
    &&& match keyfile {
        None => {
            &&& slots.len() == 1
            &&& entropy::drawn(40, slots[0].salt + slots[0].wrap_nonce)
        },
        Some(k) => {
            &&& slots.len() == 2
            &&& uuid matches Some(u)
            &&& copy_for_keyfile(slots[1], dek, u, k)
            &&& entropy::drawn(
                96,
                slots[0].salt + slots[0].wrap_nonce + (slots[1].salt + slots[1].wrap_nonce),
            )
        },
    }
}

/// Whether a store with a new vault has its header, its generation and its anchor.
pub open spec fn headed(
    s: StoreView,
    t: StoreView,
    dek: Seq<u8>,
    slots: Seq<SlotView>,
    floor_ms: i64,
) -> bool {
    let mac = primitives::blake3_keyed_hash(
        primitives::blake3_derive_key("env-ctl/v1/header-mac/key"@, dek),
        keyslot::header_message(slots, floor_ms),
    );
    let row = t.audit.last();
    &&& laws::opening::header_is(t, mac, floor_ms)
    &&& laws::reading::generation_is(t, 1)
    &&& t.meta.dom().contains("vault.audit_head"@)
    &&& t.meta["vault.audit_head"@] == codec::hex_text(
        laws::logging::anchor_at(dek, row.seq, row.row_hash),
    )
    &&& forall|k: Seq<char>|
        k != "vault.header_mac"@ && k != "vault.issuance_floor_ms"@ && k
            != "vault.dek_generation"@ && k != "vault.audit_head"@ ==> (
        #[trigger] t.meta.dom().contains(k) <==> s.meta.dom().contains(k)) && (
        s.meta.dom().contains(k) ==> t.meta[k] == s.meta[k])
}

/// Whether a vault was made in an engine without one.
pub open spec fn made(
    s: EngineView,
    t: EngineView,
    dek: Seq<u8>,
    floor_ms: i64,
    passphrase: Seq<u8>,
    uuid: Option<Seq<char>>,
    keyfile: Option<Seq<u8>>,
    p: Argon2Params,
) -> bool {
    let n = s.store.audit.len() as int;
    let slots = t.store.slots;
    let row = t.store.audit[n];
    &&& copies(slots, dek, passphrase, uuid, keyfile, p)
    &&& headed(s.store, t.store, dek, slots, floor_ms)
    &&& t.store.audit.len() == n + 1
    &&& forall|i: int| 0 <= i < n ==> #[trigger] t.store.audit[i] == s.store.audit[i]
    &&& laws::logging::stands(t.store.audit, n)
    &&& row.actor_uid == Some(s.owner_uid)
    &&& row.event_type == "vault_init"@
    &&& row.subject is None
    &&& row.detail == (AuditDetail::Init { slots: slots.len() as u64, dek_generation: 1 })
    &&& row.outcome == AuditOutcome::Succeeded
    &&& t.store.secrets == s.store.secrets
    &&& t.store.next_row_id == s.store.next_row_id
    &&& t.dek == s.dek
    &&& t.relays == s.relays
    &&& t.owner_uid == s.owner_uid
}

proof fn lemma_new_slots_are_copies(
    m: MaterialView,
    passphrase: Seq<char>,
    uuid: Option<Seq<char>>,
    keyfile: Option<Seq<u8>>,
    p: Argon2Params,
)
    requires
        model::material_fits(m, keyfile is Some),
        model::material_drawn(m),
        keyfile is Some ==> uuid is Some,
        model::slots_open(
            model::new_slots(m, passphrase, uuid, keyfile, p),
            passphrase,
            keyfile,
            m.dek,
        ),
    ensures
        copies(
            model::new_slots(m, passphrase, uuid, keyfile, p),
            m.dek,
            vstd::utf8::encode_utf8(passphrase),
            uuid,
            keyfile,
            p,
        ),
{
    let slots = model::new_slots(m, passphrase, uuid, keyfile, p);
    let bytes = vstd::utf8::encode_utf8(passphrase);
    let bare = SlotView { wrap_nonce: Seq::empty(), wrapped_dek: Seq::empty(), ..slots[0] };
    assert(keyslot::keyslot_aad_bytes(slots[0]) == keyslot::keyslot_aad_bytes(bare));
    laws::keys::lemma_passphrase_fits(slots[0], bytes, m.dek);
    assert(copy_for_passphrase(slots[0], m.dek, bytes, p));
    match keyfile {
        Some(k) => {
            let usb = SlotView { wrap_nonce: Seq::empty(), wrapped_dek: Seq::empty(), ..slots[1] };
            assert(keyslot::keyslot_aad_bytes(slots[1]) == keyslot::keyslot_aad_bytes(usb));
            laws::keys::lemma_keyfile_fits(slots[1], k, m.dek);
            assert(copy_for_keyfile(slots[1], m.dek, uuid.unwrap(), k));
        },
        None => {
            assert(m.passphrase_salt + m.passphrase_nonce + Seq::<u8>::empty()
                =~= m.passphrase_salt + m.passphrase_nonce);
        },
    }
}

proof fn lemma_created_is_made(
    s: EngineView,
    before: Seq<crate::event::EventView>,
    t: EngineView,
    after: Seq<crate::event::EventView>,
    m: MaterialView,
    passphrase: Seq<char>,
    uuid: Option<Seq<char>>,
    keyfile: Option<Seq<u8>>,
    p: Argon2Params,
    floor_ms: i64,
)
    requires
        model::created(s, before, t, after, m, passphrase, uuid, keyfile, p, floor_ms),
        model::material_drawn(m),
        keyfile is Some ==> uuid is Some,
        s.store.slots.len() == 0,
    ensures
        made(
            s,
            t,
            m.dek,
            floor_ms,
            vstd::utf8::encode_utf8(passphrase),
            uuid,
            keyfile,
            p,
        ),
        laws::logging::told_then(before, after, t.store.audit.last(), Seq::empty()),
{
    let slots = model::new_slots(m, passphrase, uuid, keyfile, p);
    lemma_new_slots_are_copies(m, passphrase, uuid, keyfile, p);
    crate::engine::init::lemma_header_keeps_audit(s.store, m.dek, slots, floor_ms);
    crate::engine::init::lemma_slots_keep_audit(s.store, slots);
    laws::vault::lemma_new_slots_are_saved(s.store, slots);
    laws::vault::lemma_keys_differ();
    let mac = keyslot::header_mac_bytes(m.dek, slots, floor_ms);
    codec::law_hex_round_trip(mac);
    decimal::law_decimal_round_trip(floor_ms);
    decimal::law_decimal_round_trip(1);
    let entry = model::init_entry(slots.len());
    let headed_state = EngineView {
        store: model::with_header(s.store, m.dek, slots, floor_ms),
        ..s
    };
    let n = s.store.audit.len() as int;
    let row = t.store.audit.last();
    assert(t.store.audit[n] == row);
    laws::logging::lemma_anchor_at(m.dek, row.seq, row.row_hash);
    let mirror = model::mirrored(headed_state, entry, model::last_ts(t));
    assert(after =~= before.push(mirror));
    assert(after[before.len() as int] == mirror);
}

/// What is made is what was asked for: one slot for the passphrase and one for the keyfile, each
/// with the whole factor, the parameters and a copy of one random key; header, generation and
/// anchor for them; and one row that says so. The vault stays as locked as it was.
pub proof fn law_new_vault_is_the_one_asked_for<S: Store, C: Clock, U: UsbProbe>(
    e: &mut Engine<S, C, U>,
    passphrase: String,
    uuid: Option<String>,
    keyfile: Option<Vec<u8>>,
    params: Argon2Params,
    sink: &mut EventSink,
)
    requires
        call_ensures(
            Engine::<S, C, U>::init_vault,
            (e, passphrase, uuid, keyfile, params, sink),
            Ok::<(), EngineError>(()),
        ),
        old(e).state().store.slots.len() == 0,
    ensures
        exists|dek: Seq<u8>, floor_ms: i64| #[trigger]
            made(
                old(e).state(),
                final(e).state(),
                dek,
                floor_ms,
                vstd::utf8::encode_utf8(passphrase@),
                codec::text_view(uuid),
                codec::bytes_view(keyfile),
                params,
            ) && seam::timed(&old(e).clock_seam(), floor_ms),
        laws::logging::told_then(
            old(sink)@,
            final(sink)@,
            final(e).state().store.audit.last(),
            Seq::empty(),
        ),
{
    let (m, floor_ms) = choose|m: MaterialView, floor_ms: i64| #[trigger]
        model::created(
            old(e).state(),
            old(sink)@,
            final(e).state(),
            final(sink)@,
            m,
            passphrase@,
            codec::text_view(uuid),
            codec::bytes_view(keyfile),
            params,
            floor_ms,
        ) && model::material_drawn(m) && seam::timed(&old(e).clock_seam(), floor_ms);
    lemma_created_is_made(
        old(e).state(),
        old(sink)@,
        final(e).state(),
        final(sink)@,
        m,
        passphrase@,
        codec::text_view(uuid),
        codec::bytes_view(keyfile),
        params,
        floor_ms,
    );
}

/// A new vault is in order for the holder of its key.
proof fn lemma_made_is_authentic(
    s: EngineView,
    t: EngineView,
    dek: Seq<u8>,
    floor_ms: i64,
    passphrase: Seq<u8>,
    uuid: Option<Seq<char>>,
    keyfile: Option<Seq<u8>>,
    p: Argon2Params,
) -> (mac: Seq<u8>)
    requires
        made(s, t, dek, floor_ms, passphrase, uuid, keyfile, p),
        forall|i: int|
            0 <= i < s.store.audit.len() ==> #[trigger] laws::logging::stands(s.store.audit, i),
    ensures
        laws::opening::header_is(t.store, mac, floor_ms),
        laws::opening::authentic(t.store, dek, mac, floor_ms),
        laws::keys::first_fit(t.store.slots, passphrase, 0, dek),
{
    let mac = primitives::blake3_keyed_hash(
        primitives::blake3_derive_key("env-ctl/v1/header-mac/key"@, dek),
        keyslot::header_message(t.store.slots, floor_ms),
    );
    let slots = t.store.slots;
    assert(slots[0].dek_generation == 1);
    assert(laws::reading::generation_is(t.store, 1) && laws::opening::largest_generation(slots, 1));
    let n = s.store.audit.len() as int;
    let row = t.store.audit.last();
    assert(t.store.audit[n] == row);
    let anchor = laws::logging::anchor_at(dek, row.seq, row.row_hash);
    codec::law_hex_round_trip(anchor);
    assert forall|i: int| 0 <= i < t.store.audit.len() implies #[trigger] laws::logging::stands(
        t.store.audit,
        i,
    ) by {
        if i < n {
            assert(laws::logging::stands(s.store.audit, i));
            assert(t.store.audit[i] == s.store.audit[i]);
            if i > 0 {
                assert(t.store.audit[i - 1] == s.store.audit[i - 1]);
            }
        }
    }
    assert(laws::logging::log_sound(t.store, dek));
    mac
}

/// The passphrase that a vault was made with opens it, and under the key that was made with it.
pub proof fn law_passphrase_of_a_new_vault_opens_it<S: Store, C: Clock, U: UsbProbe>(
    e: &mut Engine<S, C, U>,
    passphrase: String,
    uuid: Option<String>,
    keyfile: Option<Vec<u8>>,
    params: Argon2Params,
    sink: &mut EventSink,
    later: &mut Engine<S, C, U>,
    again: String,
    later_sink: &mut EventSink,
    result: Result<VaultState, EngineError>,
)
    requires
        call_ensures(
            Engine::<S, C, U>::init_vault,
            (e, passphrase, uuid, keyfile, params, sink),
            Ok::<(), EngineError>(()),
        ),
        old(e).state().store.slots.len() == 0,
        forall|i: int|
            0 <= i < old(e).state().store.audit.len() ==> #[trigger] laws::logging::stands(
                old(e).state().store.audit,
                i,
            ),
        old(later).state().store == final(e).state().store,
        old(later).state().dek is None,
        old(later).dependable(),
        old(later).state().store.audit.len() < i64::MAX,
        old(later).state().store.audit.len() <= usize::MAX,
        again@ == passphrase@,
        call_ensures(
            Engine::<S, C, U>::unlock,
            (later, Unlock::Passphrase(again), later_sink),
            result,
        ),
    ensures
        result == Ok::<VaultState, EngineError>(VaultState::Unlocked),
        exists|floor_ms: i64| #[trigger]
            made(
                old(e).state(),
                final(e).state(),
                final(later).state().dek.unwrap(),
                floor_ms,
                vstd::utf8::encode_utf8(passphrase@),
                codec::text_view(uuid),
                codec::bytes_view(keyfile),
                params,
            ),
{
    law_new_vault_is_the_one_asked_for(e, passphrase, uuid, keyfile, params, sink);
    let bytes = vstd::utf8::encode_utf8(passphrase@);
    let (dek, floor_ms) = choose|dek: Seq<u8>, floor_ms: i64| #[trigger]
        made(
            old(e).state(),
            final(e).state(),
            dek,
            floor_ms,
            bytes,
            codec::text_view(uuid),
            codec::bytes_view(keyfile),
            params,
        ) && seam::timed(&old(e).clock_seam(), floor_ms);
    let mac = lemma_made_is_authentic(
        old(e).state(),
        final(e).state(),
        dek,
        floor_ms,
        bytes,
        codec::text_view(uuid),
        codec::bytes_view(keyfile),
        params,
    );
    laws::opening::law_passphrase_opens_what_it_fits(
        later,
        again,
        later_sink,
        result,
        mac,
        floor_ms,
    );
    let slots = old(later).state().store.slots;
    assert(laws::keys::first_fit(slots, bytes, 0, dek));
    if result is Ok {
        let i = choose|i: int| #[trigger]
            laws::keys::first_fit(slots, bytes, i, final(later).state().dek.unwrap());
        if i > 0 {
            assert(!laws::keys::passphrase_fits(slots[0], bytes, dek));
        }
    }
}

/// Whether two passphrases are told apart by nothing but a collision: Argon2id gives one key for
/// both, or the cipher opens the wrapped key under two different keys.
pub open spec fn passphrases_collide(
    slot: SlotView,
    p: Argon2Params,
    a: Seq<u8>,
    b: Seq<u8>,
) -> bool {
    let ka = primitives::argon2id_v13(a, slot.salt, p.m_kib, p.t_cost, p.p_lanes);
    let kb = primitives::argon2id_v13(b, slot.salt, p.m_kib, p.t_cost, p.p_lanes);
    &&& a != b
    &&& {
        ||| ka == kb
        ||| laws::keys::opens_twice(
            ka,
            kb,
            slot.wrap_nonce,
            keyslot::keyslot_aad_bytes(slot),
            slot.wrapped_dek,
        )
    }
}

/// Whether two keyfiles are told apart by nothing but a collision: HKDF gives one key for both, or
/// the cipher opens the wrapped key under two different keys.
pub open spec fn keyfiles_collide(slot: SlotView, a: Seq<u8>, b: Seq<u8>) -> bool {
    let info = vstd::utf8::encode_utf8("env-ctl/v1/kek/usb"@);
    let ka = primitives::hkdf_sha256(slot.salt, a, info);
    let kb = primitives::hkdf_sha256(slot.salt, b, info);
    &&& a != b
    &&& {
        ||| ka == kb
        ||| laws::keys::opens_twice(
            ka,
            kb,
            slot.wrap_nonce,
            keyslot::keyslot_aad_bytes(slot),
            slot.wrapped_dek,
        )
    }
}

/// A passphrase that recovers a key from the slots of a new vault is the one that the vault was
/// made with, all of it, or else the two collide.
pub proof fn law_other_passphrase_takes_a_collision<S: Store, C: Clock, U: UsbProbe>(
    e: &mut Engine<S, C, U>,
    passphrase: String,
    uuid: Option<String>,
    keyfile: Option<Vec<u8>>,
    params: Argon2Params,
    sink: &mut EventSink,
    slots: &[Keyslot],
    other: &[u8],
    dek: Option<Dek>,
)
    requires
        call_ensures(
            Engine::<S, C, U>::init_vault,
            (e, passphrase, uuid, keyfile, params, sink),
            Ok::<(), EngineError>(()),
        ),
        old(e).state().store.slots.len() == 0,
        keyslot::slot_views(slots@) == final(e).state().store.slots,
        call_ensures(keyslot::recover_by_passphrase, (slots, other), dek),
        dek is Some,
    ensures
        other@ == vstd::utf8::encode_utf8(passphrase@) || passphrases_collide(
            final(e).state().store.slots[0],
            params,
            vstd::utf8::encode_utf8(passphrase@),
            other@,
        ),
{
    law_new_vault_is_the_one_asked_for(e, passphrase, uuid, keyfile, params, sink);
    laws::keys::law_passphrase_recovers_the_first_fit(slots, other, dek);
}

/// A vault that opens to a passphrase right after it was made opens to the one that it was made
/// with, all of it, or else the two collide.
pub proof fn law_new_vault_opens_to_its_passphrase_alone<S: Store, C: Clock, U: UsbProbe>(
    e: &mut Engine<S, C, U>,
    passphrase: String,
    uuid: Option<String>,
    keyfile: Option<Vec<u8>>,
    params: Argon2Params,
    sink: &mut EventSink,
    later: &mut Engine<S, C, U>,
    other: String,
    later_sink: &mut EventSink,
    result: Result<VaultState, EngineError>,
)
    requires
        call_ensures(
            Engine::<S, C, U>::init_vault,
            (e, passphrase, uuid, keyfile, params, sink),
            Ok::<(), EngineError>(()),
        ),
        old(e).state().store.slots.len() == 0,
        old(later).state().store == final(e).state().store,
        old(later).state().dek is None,
        old(later).dependable(),
        old(later).state().store.audit.len() < i64::MAX,
        old(later).state().store.audit.len() <= usize::MAX,
        call_ensures(
            Engine::<S, C, U>::unlock,
            (later, Unlock::Passphrase(other), later_sink),
            result,
        ),
    ensures
        result is Ok ==> other@ == passphrase@ || passphrases_collide(
            final(e).state().store.slots[0],
            params,
            vstd::utf8::encode_utf8(passphrase@),
            vstd::utf8::encode_utf8(other@),
        ),
        result is Err ==> final(later).state().dek is None,
{
    law_new_vault_is_the_one_asked_for(e, passphrase, uuid, keyfile, params, sink);
    let (dek, floor_ms) = choose|dek: Seq<u8>, floor_ms: i64| #[trigger]
        made(
            old(e).state(),
            final(e).state(),
            dek,
            floor_ms,
            vstd::utf8::encode_utf8(passphrase@),
            codec::text_view(uuid),
            codec::bytes_view(keyfile),
            params,
        ) && seam::timed(&old(e).clock_seam(), floor_ms);
    let mac = primitives::blake3_keyed_hash(
        primitives::blake3_derive_key("env-ctl/v1/header-mac/key"@, dek),
        keyslot::header_message(final(e).state().store.slots, floor_ms),
    );
    laws::opening::law_passphrase_opens_what_it_fits(
        later,
        other,
        later_sink,
        result,
        mac,
        floor_ms,
    );
    vstd::utf8::encode_utf8_decode_utf8(passphrase@);
    vstd::utf8::encode_utf8_decode_utf8(other@);
}

/// A keyfile that opens a slot of a new vault is the one that the vault was made with, all of it,
/// or else the two collide.
pub proof fn law_other_keyfile_takes_a_collision<S: Store, C: Clock, U: UsbProbe>(
    e: &mut Engine<S, C, U>,
    passphrase: String,
    uuid: Option<String>,
    keyfile: Option<Vec<u8>>,
    params: Argon2Params,
    sink: &mut EventSink,
    slot: &Keyslot,
    i: int,
    other: &[u8],
    dek: Option<Dek>,
)
    requires
        call_ensures(
            Engine::<S, C, U>::init_vault,
            (e, passphrase, uuid, keyfile, params, sink),
            Ok::<(), EngineError>(()),
        ),
        old(e).state().store.slots.len() == 0,
        0 <= i < final(e).state().store.slots.len(),
        slot@ == final(e).state().store.slots[i],
        call_ensures(keyslot::try_keyfile, (slot, other), dek),
        dek is Some,
    ensures
        i == 1,
        keyfile matches Some(k) && (other@ == k@ || keyfiles_collide(slot@, k@, other@)),
{
    law_new_vault_is_the_one_asked_for(e, passphrase, uuid, keyfile, params, sink);
    laws::keys::law_trying_a_keyfile(slot, other, dek, dek.unwrap().0@);
}

} // verus!
