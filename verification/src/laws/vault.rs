//! What the vault operations guarantee together.
use vstd::prelude::*;
use crate::codec;
use crate::engine::model;
use crate::engine::unlock;
use crate::engine::model::{EngineView, Entry, MaterialView, MetaView, ReadVerdict, UnlockVerdict};
use crate::error::EngineError;
use crate::event::EventView;
use crate::keyslot;
use crate::keyslot::{Argon2Params, Factor, SlotView};
use crate::laws;
use crate::seam::UsbProbe;
use crate::vault::audit;
use crate::vault::store;
use crate::vault::store::{SecretView, StoreView};

verus! {

/// The metadata keys are four different keys.
pub proof fn lemma_keys_differ()
    ensures
        model::header_mac_key() != model::issuance_floor_key(),
        model::header_mac_key() != model::dek_generation_key(),
        model::header_mac_key() != model::audit_head_key(),
        model::issuance_floor_key() != model::dek_generation_key(),
        model::issuance_floor_key() != model::audit_head_key(),
        model::dek_generation_key() != model::audit_head_key(),
{
    reveal_strlit("vault.header_mac");
    reveal_strlit("vault.issuance_floor_ms");
    reveal_strlit("vault.dek_generation");
    reveal_strlit("vault.audit_head");
    assert("vault.header_mac"@[6] == 'h');
    assert("vault.issuance_floor_ms"@[6] == 'i');
    assert("vault.dek_generation"@[6] == 'd');
    assert("vault.audit_head"@[6] == 'a');
}

/// Whether the audit log is short enough to be read in one go, with room for another row.
pub open spec fn log_has_room(s: StoreView) -> bool {
    s.audit.len() < i64::MAX && s.audit.len() < usize::MAX
}

/// Writing an entry appends one row to the audit log, and leaves the rows before it, the secrets,
/// the keyslots and all metadata but the anchor as they were.
pub proof fn law_entries_only_append(
    s: EngineView,
    before: Seq<EventView>,
    t: EngineView,
    after: Seq<EventView>,
    entry: Entry,
    then: Seq<EventView>,
)
    requires
        model::recorded(s, before, t, after, entry, then),
    ensures
        t.store.audit.len() == s.store.audit.len() + 1,
        t.store.audit.drop_last() == s.store.audit,
        t.store.secrets == s.store.secrets,
        t.store.slots == s.store.slots,
        t.store.next_row_id == s.store.next_row_id,
        t.relays == s.relays,
        t.dek == s.dek,
        t.owner_uid == s.owner_uid,
        forall|key: Seq<char>|
            key != model::audit_head_key() ==> #[trigger] store::meta_value(t.store, key)
                == store::meta_value(s.store, key),
        s.dek is None ==> store::meta_value(t.store, model::audit_head_key()) == store::meta_value(
            s.store,
            model::audit_head_key(),
        ),
{
    assert(t.store.audit.drop_last() =~= s.store.audit);
}

/// Writing an entry keeps an intact chain intact. Under a live data key the anchor then stands at
/// the end of the chain, so that the audit log has no fault.
pub proof fn law_entries_keep_audit_sound(
    s: EngineView,
    before: Seq<EventView>,
    t: EngineView,
    after: Seq<EventView>,
    entry: Entry,
    then: Seq<EventView>,
)
    requires
        model::recorded(s, before, t, after, entry, then),
        audit::chain_intact(s.store.audit),
        log_has_room(s.store),
    ensures
        audit::chain_intact(t.store.audit),
        s.reads_tail ==> (s.dek matches Some(dek) ==> model::audit_fault(t.store, dek) is None),
{
    let row = model::entry_row(s.owner_uid, entry, model::last_ts(t));
    laws::audit::law_append_keeps_chain(s.store.audit, row);
    if s.dek is Some {
        laws::audit::law_current_anchor_holds(
            store::with_audit(s.store, row),
            s.dek.unwrap(),
        );
    }
}

/// An audit log without a fault for the holder of a key has none after any entry was written, with
/// the vault locked or unlocked under that key, and whether or not the anchor could follow.
pub proof fn law_entries_bring_no_fault(
    s: EngineView,
    before: Seq<EventView>,
    t: EngineView,
    after: Seq<EventView>,
    entry: Entry,
    then: Seq<EventView>,
    dek: Seq<u8>,
)
    requires
        model::recorded(s, before, t, after, entry, then),
        s.dek is None || s.dek == Some(dek),
        model::audit_fault(s.store, dek) is None,
        s.store.audit.len() > 0,
        log_has_room(s.store),
    ensures
        model::audit_fault(t.store, dek) is None,
{
    law_entries_only_append(s, before, t, after, entry, then);
    law_entries_keep_audit_sound(s, before, t, after, entry, then);
    let row = model::entry_row(s.owner_uid, entry, model::last_ts(t));
    laws::audit::law_current_anchor_holds(store::with_audit(s.store, row), dek);
    if s.dek is None || t == model::noted(s, entry, model::last_ts(t)) {
        laws::audit::lemma_anchor_rows(s.store);
        laws::audit::lemma_anchor_rows(t.store);
        let key = model::audit_head_key();
        if store::meta_value(s.store, key) is Some && codec::unhex(
            store::meta_value(s.store, key).unwrap(),
        ) is Some {
            let mac = codec::unhex(store::meta_value(s.store, key).unwrap()).unwrap();
            let i = choose|i: int|
                0 <= i < s.store.audit.len() && mac == audit::head_mac(
                    dek,
                    (#[trigger] s.store.audit[i]).seq,
                    s.store.audit[i].row_hash,
                );
            assert(t.store.audit[i] == s.store.audit[i]) by {
                assert(t.store.audit.drop_last()[i] == s.store.audit[i]);
            }
        }
    }
}

pub proof fn lemma_new_slots_are_saved(s: StoreView, slots: Seq<SlotView>)
    requires
        s.slots.len() == 0,
        1 <= slots.len() <= 2,
        slots.len() == 2 ==> slots[0].id != slots[1].id,
    ensures
        model::with_slots(s, slots).slots == slots,
{
    reveal_with_fuel(model::with_slots, 3);
    let none = Seq::<SlotView>::empty();
    assert(s.slots =~= none);
    if slots.len() == 1 {
        assert(slots.drop_last() =~= none);
        assert(!store::has_slot(none, slots[0].id));
        assert(model::with_slots(s, slots).slots =~= slots);
    } else {
        let first = slots.drop_last();
        assert(first.drop_last() =~= none);
        assert(!store::has_slot(none, slots[0].id));
        assert(model::with_slots(s, first).slots =~= seq![slots[0]]);
        assert(!store::has_slot(seq![slots[0]], slots[1].id));
        assert(model::with_slots(s, slots).slots =~= slots);
    }
}

/// A vault that was made in an empty store opens again under its data key: header, generation and
/// audit log are all in order.
pub proof fn law_new_vault_opens(
    s: EngineView,
    before: Seq<EventView>,
    t: EngineView,
    after: Seq<EventView>,
    m: MaterialView,
    passphrase: Seq<char>,
    uuid: Option<Seq<char>>,
    keyfile: Option<Seq<u8>>,
    params: Argon2Params,
    floor_ms: i64,
)
    requires
        model::created(s, before, t, after, m, passphrase, uuid, keyfile, params, floor_ms),
        s.store.slots.len() == 0,
        audit::chain_intact(s.store.audit),
        log_has_room(s.store),
    ensures
        t.store.slots == model::new_slots(m, passphrase, uuid, keyfile, params),
        model::stored_floor(t.store) == Some(floor_ms),
        model::stored_generation(t.store) == Ok::<i64, EngineError>(1),
        model::unlock_verdict(t.store, Some(m.dek)) == (UnlockVerdict::Opened { dek: m.dek }),
        t.dek == s.dek,
{
    let slots = model::new_slots(m, passphrase, uuid, keyfile, params);
    let headed = EngineView {
        store: model::with_header(s.store, m.dek, slots, floor_ms),
        ..s
    };
    let entry = model::init_entry(slots.len());
    let row = model::entry_row(s.owner_uid, entry, model::last_ts(t));
    let written = model::journaled(headed, entry, model::last_ts(t));
    crate::engine::init::lemma_header_keeps_audit(s.store, m.dek, slots, floor_ms);
    lemma_new_slots_are_saved(s.store, slots);
    lemma_keys_differ();
    laws::audit::law_append_keeps_chain(s.store.audit, row);
    laws::audit::law_current_anchor_holds(written.store, m.dek);
    let mac = keyslot::header_mac_bytes(m.dek, slots, floor_ms);
    codec::law_hex_round_trip(mac);
    crate::decimal::law_decimal_round_trip(floor_ms);
    crate::decimal::law_decimal_round_trip(1);
    assert(store::meta_value(t.store, model::header_mac_key()) == Some(codec::hex_text(mac)));
    assert(store::meta_value(t.store, model::issuance_floor_key()) == Some(
        crate::decimal::decimal_text(floor_ms as int),
    ));
    assert(store::meta_value(t.store, model::dek_generation_key()) == Some(
        crate::decimal::decimal_text(1),
    ));
    reveal_with_fuel(model::max_generation, 3);
    assert(model::max_generation(slots) == 1) by {
        if slots.len() == 2 {
            assert(slots.drop_last() =~= seq![slots[0]]);
        }
    }
}

/// Equal salts and nonces, taken together, are equal one by one.
proof fn lemma_seeds_are_parts(m1: MaterialView, m2: MaterialView, with_usb: bool)
    requires
        model::material_fits(m1, with_usb),
        model::material_fits(m2, with_usb),
        model::seed_bytes(m1) == model::seed_bytes(m2),
    ensures
        m1.passphrase_salt == m2.passphrase_salt,
        m1.passphrase_nonce == m2.passphrase_nonce,
        m1.usb == m2.usb,
{
    let seeds1 = model::seed_bytes(m1);
    let seeds2 = model::seed_bytes(m2);
    assert(m1.passphrase_salt =~= seeds1.subrange(0, 16));
    assert(m2.passphrase_salt =~= seeds2.subrange(0, 16));
    assert(m1.passphrase_nonce =~= seeds1.subrange(16, 40));
    assert(m2.passphrase_nonce =~= seeds2.subrange(16, 40));
    if with_usb {
        assert(m1.usb.unwrap().0 =~= seeds1.subrange(40, 72));
        assert(m2.usb.unwrap().0 =~= seeds2.subrange(40, 72));
        assert(m1.usb.unwrap().1 =~= seeds1.subrange(72, 96));
        assert(m2.usb.unwrap().1 =~= seeds2.subrange(72, 96));
    }
}

/// The slots of two vaults with the same salts and nonces differ in the wrapped keys alone.
proof fn lemma_slots_but_for_wraps(
    m1: MaterialView,
    passphrase1: Seq<char>,
    keyfile1: Option<Seq<u8>>,
    m2: MaterialView,
    passphrase2: Seq<char>,
    keyfile2: Option<Seq<u8>>,
    uuid: Option<Seq<char>>,
    params: Argon2Params,
)
    requires
        m1.passphrase_salt == m2.passphrase_salt,
        m1.passphrase_nonce == m2.passphrase_nonce,
        m1.usb == m2.usb,
        keyfile1 is Some == keyfile2 is Some,
        ({
            let slots1 = model::new_slots(m1, passphrase1, uuid, keyfile1, params);
            let slots2 = model::new_slots(m2, passphrase2, uuid, keyfile2, params);
            &&& slots1[0].wrapped_dek == slots2[0].wrapped_dek
            &&& slots1.len() == 2 ==> slots1[1].wrapped_dek == slots2[1].wrapped_dek
        }),
    ensures
        model::new_slots(m1, passphrase1, uuid, keyfile1, params) == model::new_slots(
            m2,
            passphrase2,
            uuid,
            keyfile2,
            params,
        ),
{
    let slots1 = model::new_slots(m1, passphrase1, uuid, keyfile1, params);
    let slots2 = model::new_slots(m2, passphrase2, uuid, keyfile2, params);
    assert(slots1[0] == slots2[0]);
    if slots1.len() == 2 {
        assert(slots1[1] == slots2[1]);
    }
    assert(slots1 =~= slots2);
}

/// Data key, passphrase and keyfile get into what a new vault persists and tells through the cipher
/// and the MACs alone: two vaults that are made alike but for them, and whose wrapped keys, header
/// MAC and anchor come out the same, are the same in every field of the store and in every event.
pub proof fn law_new_vault_keeps_factors_out(
    s: EngineView,
    before: Seq<EventView>,
    t1: EngineView,
    after1: Seq<EventView>,
    m1: MaterialView,
    passphrase1: Seq<char>,
    keyfile1: Option<Seq<u8>>,
    t2: EngineView,
    after2: Seq<EventView>,
    m2: MaterialView,
    passphrase2: Seq<char>,
    keyfile2: Option<Seq<u8>>,
    uuid: Option<Seq<char>>,
    params: Argon2Params,
    floor_ms: i64,
)
    requires
        model::created(s, before, t1, after1, m1, passphrase1, uuid, keyfile1, params, floor_ms),
        model::created(s, before, t2, after2, m2, passphrase2, uuid, keyfile2, params, floor_ms),
        model::seed_bytes(m1) == model::seed_bytes(m2),
        keyfile1 is Some == keyfile2 is Some,
        model::last_ts(t1) == model::last_ts(t2),
        ({
            let slots1 = model::new_slots(m1, passphrase1, uuid, keyfile1, params);
            let slots2 = model::new_slots(m2, passphrase2, uuid, keyfile2, params);
            &&& slots1[0].wrapped_dek == slots2[0].wrapped_dek
            &&& slots1.len() == 2 ==> slots1[1].wrapped_dek == slots2[1].wrapped_dek
            &&& keyslot::header_mac_bytes(m1.dek, slots1, floor_ms) == keyslot::header_mac_bytes(
                m2.dek,
                slots2,
                floor_ms,
            )
        }),
        audit::tail_mac(m1.dek, t1.store.audit) == audit::tail_mac(m2.dek, t2.store.audit),
    ensures
        t1 == t2,
        after1 == after2,
{
    let slots1 = model::new_slots(m1, passphrase1, uuid, keyfile1, params);
    let slots2 = model::new_slots(m2, passphrase2, uuid, keyfile2, params);
    assert(slots1 == slots2) by {
        lemma_seeds_are_parts(m1, m2, keyfile1 is Some);
        lemma_slots_but_for_wraps(
            m1,
            passphrase1,
            keyfile1,
            m2,
            passphrase2,
            keyfile2,
            uuid,
            params,
        );
    }
    assert(model::with_header(s.store, m1.dek, slots1, floor_ms) == model::with_header(
        s.store,
        m2.dek,
        slots2,
        floor_ms,
    ));
    let headed = EngineView {
        store: model::with_header(s.store, m1.dek, slots1, floor_ms),
        ..s
    };
    let written = model::noted(headed, model::init_entry(slots1.len()), model::last_ts(t1));
    assert(t1.store.audit == written.store.audit);
    assert(t2.store.audit == written.store.audit);
}

/// The passphrase that a vault was made with opens it.
pub proof fn law_init_then_passphrase_opens(
    s: EngineView,
    before: Seq<EventView>,
    t: EngineView,
    after: Seq<EventView>,
    m: MaterialView,
    passphrase: Seq<char>,
    uuid: Option<Seq<char>>,
    keyfile: Option<Seq<u8>>,
    params: Argon2Params,
    floor_ms: i64,
)
    requires
        model::created(s, before, t, after, m, passphrase, uuid, keyfile, params, floor_ms),
        s.store.slots.len() == 0,
        audit::chain_intact(s.store.audit),
        log_has_room(s.store),
    ensures
        model::unlock_verdict(
            t.store,
            keyslot::passphrase_recovers(t.store.slots, vstd::utf8::encode_utf8(passphrase)),
        ) == (UnlockVerdict::Opened { dek: m.dek }),
{
    law_new_vault_opens(
        s,
        before,
        t,
        after,
        m,
        passphrase,
        uuid,
        keyfile,
        params,
        floor_ms,
    );
}

/// A store that holds a vault is never made into another one.
pub proof fn law_vault_is_made_once(
    s: EngineView,
    before: Seq<EventView>,
    t: EngineView,
    after: Seq<EventView>,
    dek: Seq<u8>,
    slots: Seq<SlotView>,
    floor_ms: i64,
    params: Argon2Params,
    with_uuid: bool,
    with_keyfile: bool,
)
    requires
        model::init_effect(s, before, t, after, dek, slots, floor_ms),
    ensures
        model::init_refusal(t.store, params, with_uuid, with_keyfile) == Some(
            EngineError::AlreadyInitialized,
        ),
{
    assert(t.store.meta.dom().contains(model::header_mac_key()));
}

/// The keyfile that a vault was made with opens it, whatever the probe says of the passphrase slot.
pub proof fn law_init_then_keyfile_opens(
    s: EngineView,
    before: Seq<EventView>,
    t: EngineView,
    after: Seq<EventView>,
    m: MaterialView,
    passphrase: Seq<char>,
    uuid: Seq<char>,
    keyfile: Seq<u8>,
    params: Argon2Params,
    floor_ms: i64,
    answers: Seq<Option<Seq<u8>>>,
)
    requires
        model::created(
            s,
            before,
            t,
            after,
            m,
            passphrase,
            Some(uuid),
            Some(keyfile),
            params,
            floor_ms,
        ),
        s.store.slots.len() == 0,
        audit::chain_intact(s.store.audit),
        log_has_room(s.store),
        answers.len() == 2,
        answers[1] == Some(keyfile),
    ensures
        model::unlock_verdict(t.store, keyslot::keyfiles_recover(t.store.slots, answers)) == (
        UnlockVerdict::Opened { dek: m.dek }),
{
    law_new_vault_opens(
        s,
        before,
        t,
        after,
        m,
        passphrase,
        Some(uuid),
        Some(keyfile),
        params,
        floor_ms,
    );
    let slots = t.store.slots;
    assert(keyslot::keyfile_opens(slots[0], answers[0]) is None);
    reveal_with_fuel(keyslot::keyfiles_recover, 3);
    assert(slots.drop_first()[0] == slots[1]);
    assert(answers.drop_first()[0] == answers[1]);
}

proof fn lemma_probe_finds_keyfile<U: UsbProbe>(
    usb: &U,
    m: MaterialView,
    passphrase: Seq<char>,
    uuid: Seq<char>,
    keyfile: Seq<u8>,
    params: Argon2Params,
    answers: Seq<Option<Seq<u8>>>,
)
    requires
        model::material_fits(m, true),
        unlock::probed(
            usb,
            model::new_slots(m, passphrase, Some(uuid), Some(keyfile), params),
            answers,
        ),
        forall|answer: Option<Seq<u8>>| #[trigger]
            unlock::answered(usb, uuid, answer) ==> answer == Some(keyfile),
    ensures
        answers.len() == 2,
        answers[1] == Some(keyfile),
{
    let slots = model::new_slots(m, passphrase, Some(uuid), Some(keyfile), params);
    assert(slots.len() == 2);
    reveal_with_fuel(keyslot::keyfiles_recover, 3);
    if answers.len() > 0 {
        assert(keyslot::keyfile_opens(slots[0], answers[0]) is None);
    }
    assert(keyslot::usb_slot(slots[1]) == Some(uuid));
    assert(unlock::answered(usb, uuid, answers[1]));
}

/// The keyfile opens the vault that was made with it, for every probe that has it: one whose every
/// answer, when asked for the partition, is the keyfile.
pub proof fn law_keyfile_on_device_opens<U: UsbProbe>(
    usb: &U,
    s: EngineView,
    before: Seq<EventView>,
    t: EngineView,
    after: Seq<EventView>,
    m: MaterialView,
    passphrase: Seq<char>,
    uuid: Seq<char>,
    keyfile: Seq<u8>,
    params: Argon2Params,
    floor_ms: i64,
    answers: Seq<Option<Seq<u8>>>,
)
    requires
        model::created(
            s,
            before,
            t,
            after,
            m,
            passphrase,
            Some(uuid),
            Some(keyfile),
            params,
            floor_ms,
        ),
        s.store.slots.len() == 0,
        audit::chain_intact(s.store.audit),
        log_has_room(s.store),
        unlock::probed(usb, t.store.slots, answers),
        forall|answer: Option<Seq<u8>>| #[trigger]
            unlock::answered(usb, uuid, answer) ==> answer == Some(keyfile),
    ensures
        model::unlock_verdict(t.store, keyslot::keyfiles_recover(t.store.slots, answers)) == (
        UnlockVerdict::Opened { dek: m.dek }),
{
    assert(t.store.slots == model::new_slots(
        m,
        passphrase,
        Some(uuid),
        Some(keyfile),
        params,
    )) by {
        law_new_vault_opens(
            s,
            before,
            t,
            after,
            m,
            passphrase,
            Some(uuid),
            Some(keyfile),
            params,
            floor_ms,
        );
    }
    lemma_probe_finds_keyfile(usb, m, passphrase, uuid, keyfile, params, answers);
    law_init_then_keyfile_opens(
        s,
        before,
        t,
        after,
        m,
        passphrase,
        uuid,
        keyfile,
        params,
        floor_ms,
        answers,
    );
}

/// A probe that has no keyfile for any slot opens nothing: the attempt fails like any other.
pub proof fn law_absent_keyfile_never_opens<U: UsbProbe>(
    usb: &U,
    s: StoreView,
    answers: Seq<Option<Seq<u8>>>,
)
    requires
        unlock::probed(usb, s.slots, answers),
        forall|i: int, answer: Option<Seq<u8>>|
            0 <= i < s.slots.len() && keyslot::usb_slot(s.slots[i]) is Some
                && #[trigger] unlock::answered(
                usb,
                keyslot::usb_slot(#[trigger] s.slots[i]).unwrap(),
                answer,
            ) ==> answer is None,
    ensures
        keyslot::keyfiles_recover(s.slots, answers) is None,
        !(model::unlock_verdict(s, keyslot::keyfiles_recover(s.slots, answers)) is Opened),
{
    assert forall|i: int| 0 <= i < answers.len() implies keyslot::keyfile_opens(
        #[trigger] s.slots[i],
        answers[i],
    ) is None by {
        if keyslot::usb_slot(s.slots[i]) is Some {
            assert(unlock::answered(
                usb,
                keyslot::usb_slot(s.slots[i]).unwrap(),
                answers[i],
            ));
        }
    }
    unlock::lemma_pass_over(s.slots, answers, answers.len() as int);
}

/// A vault that opens under a key still does after any entry was written, with the vault locked or
/// unlocked under that key.
pub proof fn law_entries_keep_vault_openable(
    s: EngineView,
    before: Seq<EventView>,
    t: EngineView,
    after: Seq<EventView>,
    entry: Entry,
    then: Seq<EventView>,
    dek: Seq<u8>,
)
    requires
        model::recorded(s, before, t, after, entry, then),
        s.dek is None || s.dek == Some(dek),
        model::unlock_verdict(s.store, Some(dek)) == (UnlockVerdict::Opened { dek }),
        s.store.audit.len() > 0,
        log_has_room(s.store),
    ensures
        model::unlock_verdict(t.store, Some(dek)) == (UnlockVerdict::Opened { dek }),
{
    law_entries_only_append(s, before, t, after, entry, then);
    law_entries_bring_no_fault(s, before, t, after, entry, then, dek);
    lemma_keys_differ();
    assert(store::meta_value(t.store, model::header_mac_key()) == store::meta_value(
        s.store,
        model::header_mac_key(),
    ));
    assert(store::meta_value(t.store, model::issuance_floor_key()) == store::meta_value(
        s.store,
        model::issuance_floor_key(),
    ));
    assert(store::meta_value(t.store, model::dek_generation_key()) == store::meta_value(
        s.store,
        model::dek_generation_key(),
    ));
}

/// An attempt to unlock that fails leaves the vault locked.
pub proof fn law_failed_unlock_stays_locked(
    s: EngineView,
    before: Seq<EventView>,
    t: EngineView,
    after: Seq<EventView>,
    factor: Factor,
    recovered: Option<Seq<u8>>,
    error: EngineError,
)
    requires
        s.dek is None,
        model::unlock_effect(s, before, t, after, factor, recovered, Some(error)),
    ensures
        t.dek is None,
        t.store.secrets == s.store.secrets,
        t.store.slots == s.store.slots,
{
}

/// A vault that was just unlocked has an audit log without a fault.
pub proof fn law_unlocked_vault_has_sound_audit(
    s: EngineView,
    before: Seq<EventView>,
    t: EngineView,
    after: Seq<EventView>,
    factor: Factor,
    recovered: Option<Seq<u8>>,
)
    requires
        model::unlock_effect(s, before, t, after, factor, recovered, None),
        log_has_room(s.store),
        s.reads_tail || s.store.audit.len() > 0,
    ensures
        t.dek is Some,
        t.dek == recovered,
        audit::chain_intact(t.store.audit),
        model::audit_fault(t.store, t.dek.unwrap()) is None,
{
    law_entries_keep_audit_sound(
        EngineView { dek: recovered, ..s },
        before,
        t,
        after,
        model::unlocked_entry(factor),
        seq![EventView::VaultUnlocked { factor }],
    );
    if s.store.audit.len() > 0 {
        law_entries_bring_no_fault(
            EngineView { dek: recovered, ..s },
            before,
            t,
            after,
            model::unlocked_entry(factor),
            seq![EventView::VaultUnlocked { factor }],
            recovered.unwrap(),
        );
    }
}

/// Failed attempts look alike: whatever was presented, an attempt that opens no slot ends the same
/// way.
pub proof fn law_failed_attempts_look_alike(s: StoreView, a: Seq<char>, b: Seq<char>)
    requires
        keyslot::passphrase_recovers(s.slots, vstd::utf8::encode_utf8(a)) is None,
        keyslot::passphrase_recovers(s.slots, vstd::utf8::encode_utf8(b)) is None,
    ensures
        model::unlock_verdict(
            s,
            keyslot::passphrase_recovers(s.slots, vstd::utf8::encode_utf8(a)),
        ) == model::unlock_verdict(
            s,
            keyslot::passphrase_recovers(s.slots, vstd::utf8::encode_utf8(b)),
        ),
        model::unlock_verdict(
            s,
            keyslot::passphrase_recovers(s.slots, vstd::utf8::encode_utf8(a)),
        ) matches UnlockVerdict::Opened { .. } ==> false,
{
}

/// A vault opens only under a key that authenticates its keyslots and its issuance floor, for the
/// generation of its keyslots, and with an audit log without a fault.
pub proof fn law_opening_needs_authentic_header(
    s: StoreView,
    recovered: Option<Seq<u8>>,
    dek: Seq<u8>,
)
    requires
        model::unlock_verdict(s, recovered) == (UnlockVerdict::Opened { dek }),
    ensures
        recovered == Some(dek),
        model::stored_floor(s) is Some,
        model::stored_mac(s) == Some(
            keyslot::header_mac_bytes(dek, s.slots, model::stored_floor(s).unwrap()),
        ),
        model::stored_generation(s) == Ok::<i64, EngineError>(model::max_generation(s.slots)),
        model::audit_fault(s, dek) is None,
{
}

/// Two stores with the same header MAC that open under one key have the same issuance floor and the
/// same keyslots but for their labels, unless the messages under the MAC collide.
pub proof fn law_header_pins_keyslots(a: StoreView, b: StoreView, dek: Seq<u8>)
    requires
        model::unlock_verdict(a, Some(dek)) == (UnlockVerdict::Opened { dek }),
        model::unlock_verdict(b, Some(dek)) == (UnlockVerdict::Opened { dek }),
        model::stored_mac(a) == model::stored_mac(b),
        a.slots.len() <= u64::MAX,
        b.slots.len() <= u64::MAX,
        forall|i: int| 0 <= i < a.slots.len() ==> laws::keyslots::slot_fits(#[trigger] a.slots[i]),
        forall|i: int| 0 <= i < b.slots.len() ==> laws::keyslots::slot_fits(#[trigger] b.slots[i]),
    ensures
        ({
            let fa = model::stored_floor(a).unwrap();
            let fb = model::stored_floor(b).unwrap();
            ||| {
                &&& fa == fb
                &&& a.slots.len() == b.slots.len()
                &&& forall|i: int|
                    0 <= i < a.slots.len() ==> laws::keyslots::unlabelled(
                        #[trigger] keyslot::by_id(a.slots)[i],
                    ) == laws::keyslots::unlabelled(keyslot::by_id(b.slots)[i])
            }
            ||| {
                &&& keyslot::header_message(a.slots, fa) != keyslot::header_message(b.slots, fb)
                &&& keyslot::header_mac_bytes(dek, a.slots, fa) == keyslot::header_mac_bytes(
                    dek,
                    b.slots,
                    fb,
                )
            }
        }),
{
    let fa = model::stored_floor(a).unwrap();
    let fb = model::stored_floor(b).unwrap();
    if keyslot::header_message(a.slots, fa) == keyslot::header_message(b.slots, fb) {
        laws::keyslots::law_header_message_binds(a.slots, fa, b.slots, fb);
    }
}

/// What was written is what a read gives back: the body where a reveal is asked for and applied,
/// nothing where it is not, and never the body of a broker-only secret.
pub proof fn law_put_then_get(
    s: EngineView,
    before: Seq<EventView>,
    t: EngineView,
    after: Seq<EventView>,
    meta: MetaView,
    body: Seq<u8>,
    dek: Seq<u8>,
    reveal: bool,
    apply: bool,
)
    requires
        model::put_effect(s, before, t, after, meta, body),
        s.dek == Some(dek),
    ensures
        t.dek == Some(dek),
        ({
            let version = (store::latest_version(s.store.secrets, meta.name) + 1) as u32;
            model::read_verdict(t.store, dek, meta.name, reveal, apply) == (if !reveal {
                ReadVerdict::Consumed { version }
            } else if meta.broker_only {
                ReadVerdict::BrokerOnly
            } else if !apply {
                ReadVerdict::ApplyNotSet
            } else {
                ReadVerdict::Revealed { version, body }
            })
        }),
{
    let row = t.store.secrets.last();
    assert(store::latest(t.store.secrets, meta.name) == Some(row));
}

/// A write touches no other name, and keeps the older versions of its own.
pub proof fn law_put_leaves_others(
    s: EngineView,
    before: Seq<EventView>,
    t: EngineView,
    after: Seq<EventView>,
    meta: MetaView,
    body: Seq<u8>,
    other: Seq<char>,
    version: u32,
)
    requires
        model::put_effect(s, before, t, after, meta, body),
    ensures
        other != meta.name ==> store::latest(t.store.secrets, other) == store::latest(
            s.store.secrets,
            other,
        ),
        other != meta.name || version <= store::latest_version(s.store.secrets, meta.name)
            ==> store::at_version(t.store.secrets, other, version) == store::at_version(
            s.store.secrets,
            other,
            version,
        ),
{
    assert(t.store.secrets.drop_last() =~= s.store.secrets);
}

/// A broker-only secret is never given back: whatever a read is asked for, it gives no bytes of it.
pub proof fn law_broker_only_never_revealed(
    s: StoreView,
    dek: Seq<u8>,
    name: Seq<char>,
    reveal: bool,
    apply: bool,
    row: SecretView,
    result: Result<Vec<u8>, EngineError>,
)
    requires
        store::latest(s.secrets, name) == Some(row),
        row.broker_only,
        model::read_result(model::read_verdict(s, dek, name, reveal, apply), name, result),
    ensures
        result matches Ok(bytes) ==> bytes@.len() == 0,
{
}

/// No read gives bytes back without both reveal and apply.
pub proof fn law_reveal_needs_apply(
    s: StoreView,
    dek: Seq<u8>,
    name: Seq<char>,
    reveal: bool,
    apply: bool,
    result: Result<Vec<u8>, EngineError>,
)
    requires
        !(reveal && apply),
        model::read_result(model::read_verdict(s, dek, name, reveal, apply), name, result),
    ensures
        result matches Ok(bytes) ==> bytes@.len() == 0,
{
}

/// A secret survives the closing of the vault: after writing it, locking, and unlocking with the
/// passphrase that gave the live key, the vault is open under that key and reads as before.
pub proof fn law_secret_survives_relock(
    s: EngineView,
    t: EngineView,
    u: EngineView,
    w: EngineView,
    events: Seq<Seq<EventView>>,
    meta: MetaView,
    body: Seq<u8>,
    dek: Seq<u8>,
    passphrase: Seq<char>,
    error: Option<EngineError>,
    reveal: bool,
    apply: bool,
)
    requires
        events.len() == 4,
        s.dek == Some(dek),
        keyslot::passphrase_recovers(s.store.slots, vstd::utf8::encode_utf8(passphrase)) == Some(
            dek,
        ),
        model::unlock_verdict(s.store, Some(dek)) == (UnlockVerdict::Opened { dek }),
        0 < s.store.audit.len(),
        s.store.audit.len() + 2 < i64::MAX,
        s.store.audit.len() + 2 < usize::MAX,
        model::put_effect(s, events[0], t, events[1], meta, body),
        model::recorded(
            EngineView { dek: None, ..t },
            events[1],
            u,
            events[2],
            model::locked_entry(),
            seq![EventView::VaultLocked],
        ),
        model::unlock_effect(
            u,
            events[2],
            w,
            events[3],
            Factor::Passphrase,
            keyslot::passphrase_recovers(u.store.slots, vstd::utf8::encode_utf8(passphrase)),
            error,
        ),
    ensures
        error is None,
        w.dek == Some(dek),
        model::read_verdict(w.store, dek, meta.name, reveal, apply) == model::read_verdict(
            t.store,
            dek,
            meta.name,
            reveal,
            apply,
        ),
{
    let row = t.store.secrets.last();
    let put = EngineView {
        store: store::with_secret(store::with_row_id_taken(s.store), row),
        ..s
    };
    let entry = model::written_entry(meta.name, row.version);
    let told = seq![EventView::SecretWritten { name: meta.name, version: row.version }];
    lemma_verdict_ignores_secrets(s.store, put.store, dek);
    law_entries_only_append(put, events[0], t, events[1], entry, told);
    law_entries_keep_vault_openable(put, events[0], t, events[1], entry, told, dek);
    let closed = EngineView { dek: None, ..t };
    let locked = seq![EventView::VaultLocked];
    law_entries_only_append(closed, events[1], u, events[2], model::locked_entry(), locked);
    law_entries_keep_vault_openable(
        closed,
        events[1],
        u,
        events[2],
        model::locked_entry(),
        locked,
        dek,
    );
}

/// Whether a vault opens does not depend on its secrets.
pub proof fn lemma_verdict_ignores_secrets(a: StoreView, b: StoreView, dek: Seq<u8>)
    requires
        a.meta == b.meta,
        a.slots == b.slots,
        a.audit == b.audit,
    ensures
        model::unlock_verdict(a, Some(dek)) == model::unlock_verdict(b, Some(dek)),
{
    assert(store::meta_value(a, model::header_mac_key()) == store::meta_value(
        b,
        model::header_mac_key(),
    ));
    assert(model::audit_fault(a, dek) == model::audit_fault(b, dek)) by {
        assert(model::anchor_rows(a) == model::anchor_rows(b));
    }
}

/// Under one name later versions have larger numbers, so that the last one written is the largest.
pub proof fn law_latest_is_largest(s: StoreView, name: Seq<char>, i: int)
    requires
        store::store_ordered(s),
        0 <= i < s.secrets.len(),
        s.secrets[i].name == name,
    ensures
        s.secrets[i].version <= store::latest_version(s.secrets, name),
{
    store::lemma_latest_is_largest(s, name);
}

} // verus!
