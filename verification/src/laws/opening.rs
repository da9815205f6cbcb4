//! What opens a vault, and what does not.
use vstd::prelude::*;
use crate::codec;
use crate::decimal;
use crate::engine::model;
use crate::engine::model::{EngineView, UnlockVerdict};
use crate::engine::unlock;
use crate::engine::{Engine, Unlock};
use crate::error::{EngineError, VaultState};
use crate::event::{AuditDetail, AuditOutcome, EventSink, EventView, Reason};
use crate::keyslot;
use crate::keyslot::{Dek, Factor, Keyslot, SlotView};
use crate::laws;
use crate::primitives;
use crate::seam;
use crate::seam::{Clock, Timestamp, UsbProbe};
use crate::vault::store::{Store, StoreCall, StoreView};

verus! {

/// Whether a store holds this header MAC and this issuance floor.
pub open spec fn header_is(s: StoreView, mac: Seq<u8>, floor_ms: i64) -> bool {
    &&& s.meta.dom().contains("vault.header_mac"@)
    &&& codec::unhex(s.meta["vault.header_mac"@]) == Some(mac)
    &&& s.meta.dom().contains("vault.issuance_floor_ms"@)
    &&& decimal::parsed_i64(s.meta["vault.issuance_floor_ms"@]) == Some(floor_ms)
}

/// Whether a header MAC is that of a key over all the slots and the floor.
pub open spec fn mac_holds(
    mac: Seq<u8>,
    dek: Seq<u8>,
    slots: Seq<SlotView>,
    floor_ms: i64,
) -> bool {
    mac == primitives::blake3_keyed_hash(
        primitives::blake3_derive_key("env-ctl/v1/header-mac/key"@, dek),
        keyslot::header_message(slots, floor_ms),
    )
}

/// Whether a number is the largest generation among the slots, or one where there is none.
pub open spec fn largest_generation(slots: Seq<SlotView>, g: i64) -> bool {
    &&& forall|i: int| 0 <= i < slots.len() ==> (#[trigger] slots[i]).dek_generation <= g
    &&& slots.len() > 0 ==> exists|i: int|
        0 <= i < slots.len() && (#[trigger] slots[i]).dek_generation == g
    &&& slots.len() == 0 ==> g == 1
}

pub proof fn lemma_largest_generation(slots: Seq<SlotView>)
    ensures
        largest_generation(slots, model::max_generation(slots)),
        forall|g: i64| #[trigger]
            largest_generation(slots, g) ==> g == model::max_generation(slots),
    decreases slots.len(),
{
    let most = model::max_generation(slots);
    if slots.len() == 1 {
        assert(slots[0].dek_generation == most);
    } else if slots.len() > 1 {
        let rest = slots.drop_last();
        lemma_largest_generation(rest);
        let r = model::max_generation(rest);
        let k = choose|k: int| 0 <= k < rest.len() && (#[trigger] rest[k]).dek_generation == r;
        assert(slots[k].dek_generation == r);
        assert(slots[slots.len() - 1] == slots.last());
        assert forall|i: int| 0 <= i < slots.len() implies (#[trigger] slots[i]).dek_generation
            <= most by {
            if i < rest.len() {
                assert(rest[i].dek_generation <= r);
            }
        }
    }
    assert forall|g: i64| #[trigger] largest_generation(slots, g) implies g == most by {
        if slots.len() > 0 {
            let a = choose|a: int|
                0 <= a < slots.len() && (#[trigger] slots[a]).dek_generation == g;
            let b = choose|b: int|
                0 <= b < slots.len() && (#[trigger] slots[b]).dek_generation == most;
            assert(slots[a].dek_generation <= most);
            assert(slots[b].dek_generation <= g);
        }
    }
}

/// The generation of a set of slots is the largest among them.
pub proof fn law_generation_is_the_largest(slots: &[Keyslot], generation: i64)
    requires
        call_ensures(unlock::slot_generation, (slots,), generation),
    ensures
        largest_generation(keyslot::slot_views(slots@), generation),
{
    lemma_largest_generation(keyslot::slot_views(slots@));
}

/// The header MAC is a MAC over all slots and the floor, under a key that is derived from the data
/// key for this purpose alone; and it is checked as a whole.
pub proof fn law_header_mac_is_a_mac_of_the_slots(
    dek: &Dek,
    slots: &[Keyslot],
    floor_ms: i64,
    mac: Vec<u8>,
    presented: &[u8],
    accepted: bool,
)
    requires
        call_ensures(keyslot::header_mac, (dek, slots, floor_ms), mac),
        call_ensures(keyslot::verify_header_mac, (dek, slots, floor_ms, presented), accepted),
    ensures
        mac_holds(mac@, dek.0@, keyslot::slot_views(slots@), floor_ms),
        accepted <==> presented@ == mac@,
{
}

/// The state of a locked vault for the holder of a key: whether the header, the generation and the
/// log are the ones that the key authenticates.
pub open spec fn authentic(s: StoreView, dek: Seq<u8>, mac: Seq<u8>, floor_ms: i64) -> bool {
    &&& mac_holds(mac, dek, s.slots, floor_ms)
    &&& exists|g: i64| #[trigger]
        laws::reading::generation_is(s, g) && largest_generation(s.slots, g)
    &&& laws::logging::log_sound(s, dek)
}

pub proof fn lemma_opened_is_authentic(
    s: StoreView,
    recovered: Option<Seq<u8>>,
    mac: Seq<u8>,
    floor_ms: i64,
)
    requires
        header_is(s, mac, floor_ms),
        s.audit.len() <= usize::MAX,
    ensures
        match model::unlock_verdict(s, recovered) {
            UnlockVerdict::Opened { dek } => recovered == Some(dek) && authentic(
                s,
                dek,
                mac,
                floor_ms,
            ),
            UnlockVerdict::Refused { detail, error } => {
                ||| recovered is None && error == EngineError::UnlockFailed && detail
                    == AuditDetail::Empty
                ||| recovered matches Some(dek) && !mac_holds(mac, dek, s.slots, floor_ms) && error
                    == EngineError::HeaderMacMismatch && detail == (AuditDetail::Cause {
                    reason: Reason::HeaderMac,
                })
                ||| recovered matches Some(dek) && mac_holds(mac, dek, s.slots, floor_ms) && !(
                exists|g: i64| #[trigger]
                    laws::reading::generation_is(s, g) && largest_generation(s.slots, g)) && error
                    == EngineError::HeaderMacMismatch && detail == (AuditDetail::Cause {
                    reason: Reason::DekGeneration,
                })
                ||| recovered matches Some(dek) && mac_holds(mac, dek, s.slots, floor_ms)
                    && !laws::logging::log_sound(s, dek) && error is AuditChainBroken && detail == (
                AuditDetail::Cause { reason: Reason::AuditChain })
            },
            UnlockVerdict::Unreadable { error } => false,
        },
        recovered matches Some(dek) && authentic(s, dek, mac, floor_ms) ==> model::unlock_verdict(
            s,
            recovered,
        ) == (UnlockVerdict::Opened { dek: recovered.unwrap() }),
{
    lemma_largest_generation(s.slots);
    let most = model::max_generation(s.slots);
    if recovered is Some {
        laws::logging::lemma_no_fault_is_sound(s, recovered.unwrap());
    }
    if model::stored_generation(s) == Ok::<i64, EngineError>(most) {
        assert(laws::reading::generation_is(s, most) && largest_generation(s.slots, most));
    }
    if exists|g: i64| #[trigger]
        laws::reading::generation_is(s, g) && largest_generation(s.slots, g) {
        let g = choose|g: i64| #[trigger]
            laws::reading::generation_is(s, g) && largest_generation(s.slots, g);
        assert(g == most);
    }
}

/// Whether the row of a failed attempt says why it failed: nothing more where no key was found.
pub open spec fn says_why(err: EngineError, detail: AuditDetail) -> bool {
    match err {
        EngineError::UnlockFailed => detail == AuditDetail::Empty,
        EngineError::HeaderMacMismatch => detail == (AuditDetail::Cause {
            reason: Reason::HeaderMac,
        }) || detail == (AuditDetail::Cause { reason: Reason::DekGeneration }),
        EngineError::AuditChainBroken(_) => detail == (AuditDetail::Cause {
            reason: Reason::AuditChain,
        }),
        _ => false,
    }
}

/// Whether a passphrase fits no slot.
pub open spec fn fits_none(slots: Seq<SlotView>, passphrase: Seq<u8>) -> bool {
    forall|i: int, dek: Seq<u8>|
        0 <= i < slots.len() ==> !#[trigger] laws::keys::passphrase_fits(
            slots[i],
            passphrase,
            dek,
        )
}

/// A locked vault opens to a passphrase exactly where it fits a slot and the key of the first slot
/// that it fits authenticates header, generation and log. It is then open under that key. Any other
/// passphrase is told no more than that it failed, and the vault stays locked.
pub proof fn law_passphrase_opens_what_it_fits<S: Store, C: Clock, U: UsbProbe>(
    e: &mut Engine<S, C, U>,
    pp: String,
    sink: &mut EventSink,
    result: Result<VaultState, EngineError>,
    mac: Seq<u8>,
    floor_ms: i64,
)
    requires
        call_ensures(Engine::<S, C, U>::unlock, (e, Unlock::Passphrase(pp), sink), result),
        old(e).state().dek is None,
        old(e).dependable(),
        old(e).state().store.audit.len() < i64::MAX,
        old(e).state().store.audit.len() <= usize::MAX,
        header_is(old(e).state().store, mac, floor_ms),
    ensures
        ({
            let s = old(e).state();
            let t = final(e).state();
            let bytes = vstd::utf8::encode_utf8(pp@);
            match result {
                Ok(state) => {
                    &&& state == VaultState::Unlocked
                    &&& t.dek matches Some(dek)
                    &&& exists|i: int| #[trigger]
                        laws::keys::first_fit(s.store.slots, bytes, i, dek)
                    &&& authentic(s.store, dek, mac, floor_ms)
                    &&& laws::logging::one_row_more(
                        s.store,
                        t.store,
                        s.owner_uid,
                        "vault_unlocked"@,
                        None,
                        AuditDetail::Unlocked { factor: Factor::Passphrase },
                        AuditOutcome::Succeeded,
                    )
                    &&& laws::logging::told_then(
                        old(sink)@,
                        final(sink)@,
                        t.store.audit.last(),
                        seq![EventView::VaultUnlocked { factor: Factor::Passphrase }],
                    )
                },
                Err(err) => {
                    &&& t.dek is None
                    &&& t.store.audit.len() == s.store.audit.len() + 1
                    &&& t.store.audit.last().event_type == "vault_unlock"@
                    &&& t.store.audit.last().outcome == AuditOutcome::Failed
                    &&& t.store.audit.last().subject is None
                    &&& says_why(err, t.store.audit.last().detail)
                    &&& laws::logging::told_then(
                        old(sink)@,
                        final(sink)@,
                        t.store.audit.last(),
                        Seq::empty(),
                    )
                    &&& t.store.secrets == s.store.secrets
                    &&& t.store.slots == s.store.slots
                    &&& fits_none(s.store.slots, bytes) <==> err == EngineError::UnlockFailed
                    &&& forall|i: int, dek: Seq<u8>| #[trigger]
                        laws::keys::first_fit(s.store.slots, bytes, i, dek) ==> !authentic(
                            s.store,
                            dek,
                            mac,
                            floor_ms,
                        )
                },
            }
        }),
{
    let s = old(e).state();
    let t = final(e).state();
    let bytes = vstd::utf8::encode_utf8(pp@);
    assert(old(e).reliable(StoreCall::LoadKeyslots));
    assert(old(e).reliable(StoreCall::GetMeta));
    assert(old(e).reliable(StoreCall::VerifyAuditChain));
    assert(old(e).reliable(StoreCall::QueryAudit));
    assert(old(e).reliable(StoreCall::AppendAudit));
    assert(old(e).reliable(StoreCall::PutMeta));
    let recovered = keyslot::passphrase_recovers(s.store.slots, bytes);
    laws::keys::lemma_recovery_is_first_fit(s.store.slots, bytes);
    lemma_opened_is_authentic(s.store, recovered, mac, floor_ms);
    assert forall|i: int, dek: Seq<u8>| #[trigger]
        laws::keys::first_fit(s.store.slots, bytes, i, dek) implies recovered == Some(dek) by {
        lemma_first_fit_is_recovered(s.store.slots, bytes, i, dek);
    }
    match model::unlock_verdict(s.store, recovered) {
        UnlockVerdict::Opened { dek } => {
            laws::logging::law_entry_is_one_row_more(
                EngineView { dek: Some(dek), ..s },
                old(sink)@,
                t,
                final(sink)@,
                model::unlocked_entry(Factor::Passphrase),
                seq![EventView::VaultUnlocked { factor: Factor::Passphrase }],
            );
        },
        UnlockVerdict::Refused { detail, error } => {
            laws::logging::law_entry_is_one_row_more(
                s,
                old(sink)@,
                t,
                final(sink)@,
                model::unlock_failed_entry(detail),
                Seq::empty(),
            );
            if fits_none(s.store.slots, bytes) && recovered is Some {
                let i = choose|i: int| #[trigger]
                    laws::keys::first_fit(s.store.slots, bytes, i, recovered.unwrap());
                assert(!laws::keys::passphrase_fits(s.store.slots[i], bytes, recovered.unwrap()));
            }
        },
        UnlockVerdict::Unreadable { error } => {},
    }
}

proof fn lemma_first_fit_is_recovered(
    slots: Seq<SlotView>,
    passphrase: Seq<u8>,
    i: int,
    dek: Seq<u8>,
)
    requires
        laws::keys::first_fit(slots, passphrase, i, dek),
    ensures
        keyslot::passphrase_recovers(slots, passphrase) == Some(dek),
{
    laws::keys::lemma_recovery_is_first_fit(slots, passphrase);
    match keyslot::passphrase_recovers(slots, passphrase) {
        Some(other) => {
            let j = choose|j: int| #[trigger]
                laws::keys::first_fit(slots, passphrase, j, other);
            if j < i {
                assert(!laws::keys::passphrase_fits(slots[j], passphrase, other));
            }
            if i < j {
                assert(!laws::keys::passphrase_fits(slots[i], passphrase, dek));
            }
        },
        None => {
            assert(!laws::keys::passphrase_fits(slots[i], passphrase, dek));
        },
    }
}

/// A locked vault opens by the key device only with a keyfile that the probe gave for the partition
/// of a slot and that opens the slot, and under the key that it opens to, which authenticates
/// header, generation and log. Where no keyfile does, the attempt fails and the vault stays locked.
pub proof fn law_device_opens_what_its_keyfile_fits<S: Store, C: Clock, U: UsbProbe>(
    e: &mut Engine<S, C, U>,
    sink: &mut EventSink,
    result: Result<VaultState, EngineError>,
    mac: Seq<u8>,
    floor_ms: i64,
)
    requires
        call_ensures(Engine::<S, C, U>::unlock, (e, Unlock::Usb, sink), result),
        old(e).state().dek is None,
        old(e).dependable(),
        old(e).state().store.audit.len() < i64::MAX,
        old(e).state().store.audit.len() <= usize::MAX,
        header_is(old(e).state().store, mac, floor_ms),
    ensures
        ({
            let s = old(e).state();
            let t = final(e).state();
            match result {
                Ok(state) => {
                    &&& t.dek matches Some(dek)
                    &&& exists|i: int, keyfile: Seq<u8>| #[trigger]
                        laws::relaying::gave_fitting(
                            &old(e).usb_seam(),
                            s.store.slots,
                            i,
                            keyfile,
                            dek,
                        )
                    &&& authentic(s.store, dek, mac, floor_ms)
                    &&& laws::logging::one_row_more(
                        s.store,
                        t.store,
                        s.owner_uid,
                        "vault_unlocked"@,
                        None,
                        AuditDetail::Unlocked { factor: Factor::Usb },
                        AuditOutcome::Succeeded,
                    )
                },
                Err(err) => {
                    &&& t.dek is None
                    &&& t.store.audit.len() == s.store.audit.len() + 1
                    &&& t.store.audit.last().event_type == "vault_unlock"@
                    &&& t.store.audit.last().outcome == AuditOutcome::Failed
                    &&& t.store.audit.last().subject is None
                    &&& says_why(err, t.store.audit.last().detail)
                    &&& laws::logging::told_then(
                        old(sink)@,
                        final(sink)@,
                        t.store.audit.last(),
                        Seq::empty(),
                    )
                    &&& err == EngineError::UnlockFailed ==> forall|i: int|
                        0 <= i < s.store.slots.len() ==> laws::relaying::asked_in_vain(
                            &old(e).usb_seam(),
                            #[trigger] s.store.slots[i],
                        )
                    &&& err == EngineError::UnlockFailed || exists|
                        i: int,
                        keyfile: Seq<u8>,
                        dek: Seq<u8>,
                    | #[trigger]
                        laws::relaying::gave_fitting(
                            &old(e).usb_seam(),
                            s.store.slots,
                            i,
                            keyfile,
                            dek,
                        ) && !authentic(s.store, dek, mac, floor_ms)
                },
            }
        }),
{
    let s = old(e).state();
    let t = final(e).state();
    assert(old(e).reliable(StoreCall::LoadKeyslots));
    assert(old(e).reliable(StoreCall::GetMeta));
    assert(old(e).reliable(StoreCall::VerifyAuditChain));
    assert(old(e).reliable(StoreCall::QueryAudit));
    assert(old(e).reliable(StoreCall::AppendAudit));
    assert(old(e).reliable(StoreCall::PutMeta));
    let keyfiles = choose|keyfiles: Seq<Option<Seq<u8>>>| #[trigger]
        old(e).probe_gave(keyfiles) && Engine::<S, C, U>::unlock_outcome(
            *old(e),
            old(sink)@,
            *final(e),
            final(sink)@,
            Factor::Usb,
            keyslot::keyfiles_recover(s.store.slots, keyfiles),
            result,
        );
    let recovered = keyslot::keyfiles_recover(s.store.slots, keyfiles);
    lemma_opened_is_authentic(s.store, recovered, mac, floor_ms);
    if recovered is Some {
        let dek = recovered.unwrap();
        let i = laws::relaying::lemma_recovered_somewhere(s.store.slots, keyfiles, dek);
        let keyfile = keyfiles[i].unwrap();
        laws::keys::lemma_keyfile_fits(s.store.slots[i], keyfile, dek);
        assert(keyslot::usb_slot(s.store.slots[i]) is Some);
        assert(laws::relaying::gave_fitting(
            &old(e).usb_seam(),
            s.store.slots,
            i,
            keyfile,
            dek,
        ));
    }
    if recovered is None {
        laws::relaying::lemma_all_asked_in_vain(&old(e).usb_seam(), s.store.slots, keyfiles);
    }
    match model::unlock_verdict(s.store, recovered) {
        UnlockVerdict::Opened { dek } => {
            laws::logging::law_entry_is_one_row_more(
                EngineView { dek: Some(dek), ..s },
                old(sink)@,
                t,
                final(sink)@,
                model::unlocked_entry(Factor::Usb),
                seq![EventView::VaultUnlocked { factor: Factor::Usb }],
            );
        },
        UnlockVerdict::Refused { detail, error } => {
            laws::logging::law_entry_is_one_row_more(
                s,
                old(sink)@,
                t,
                final(sink)@,
                model::unlock_failed_entry(detail),
                Seq::empty(),
            );
        },
        UnlockVerdict::Unreadable { error } => {},
    }
}

/// An open vault stays as it is, whatever is presented to it.
pub proof fn law_open_vault_stays_open<S: Store, C: Clock, U: UsbProbe>(
    e: &mut Engine<S, C, U>,
    u: Unlock,
    sink: &mut EventSink,
    result: Result<VaultState, EngineError>,
)
    requires
        call_ensures(Engine::<S, C, U>::unlock, (e, u, sink), result),
        old(e).state().dek is Some,
    ensures
        result == Ok::<VaultState, EngineError>(VaultState::Unlocked),
        final(e).state() == old(e).state(),
        final(sink)@ == old(sink)@,
{
}

/// A vault without a header that can be read does not open, and nothing is written.
pub proof fn law_no_header_no_vault<S: Store, C: Clock, U: UsbProbe>(
    e: &mut Engine<S, C, U>,
    u: Unlock,
    sink: &mut EventSink,
    result: Result<VaultState, EngineError>,
)
    requires
        call_ensures(Engine::<S, C, U>::unlock, (e, u, sink), result),
        old(e).state().dek is None,
        old(e).dependable(),
        old(e).state().store.audit.len() < i64::MAX,
        forall|mac: Seq<u8>, floor_ms: i64|
            !#[trigger] header_is(old(e).state().store, mac, floor_ms),
    ensures
        result == Err::<VaultState, EngineError>(EngineError::UnlockFailed),
        final(e).state() == old(e).state(),
        final(sink)@ == old(sink)@,
{
    let s = old(e).state().store;
    assert(old(e).reliable(StoreCall::LoadKeyslots));
    assert(old(e).reliable(StoreCall::GetMeta));
    assert(old(e).reliable(StoreCall::VerifyAuditChain));
    assert(old(e).reliable(StoreCall::QueryAudit));
    assert(old(e).reliable(StoreCall::AppendAudit));
    assert(old(e).reliable(StoreCall::PutMeta));
    if model::stored_mac(s) is Some && model::stored_floor(s) is Some {
        assert(header_is(s, model::stored_mac(s).unwrap(), model::stored_floor(s).unwrap()));
    }
}

/// Locking leaves no live key, whatever the store does; where the row can be written it is, dated
/// by the clock, and the lock is told.
pub proof fn law_lock_leaves_no_key<S: Store, C: Clock, U: UsbProbe>(
    e: &mut Engine<S, C, U>,
    sink: &mut EventSink,
    result: Result<(), EngineError>,
)
    requires
        call_ensures(Engine::<S, C, U>::lock, (e, sink), result),
    ensures
        final(e).state().dek is None,
        final(e).state().relays == old(e).state().relays,
        final(e).state().store.secrets == old(e).state().store.secrets,
        final(e).state().store.slots == old(e).state().store.slots,
        final(e).state().store.meta == old(e).state().store.meta,
        old(e).reliable(StoreCall::AppendAudit) && old(e).state().store.audit.len() < i64::MAX
            ==> result is Ok,
        result is Err ==> final(sink)@ == old(sink)@,
        result is Ok ==> {
            &&& laws::logging::one_row_more(
                old(e).state().store,
                final(e).state().store,
                old(e).state().owner_uid,
                "vault_locked"@,
                None,
                AuditDetail::Empty,
                AuditOutcome::Succeeded,
            )
            &&& laws::logging::told_then(
                old(sink)@,
                final(sink)@,
                final(e).state().store.audit.last(),
                seq![EventView::VaultLocked],
            )
            &&& exists|now: Timestamp| #[trigger]
                call_ensures(C::now, (&old(e).clock_seam(),), now) && now.rfc3339@
                    == final(e).state().store.audit.last().ts
        },
{
    if result is Ok {
        laws::logging::law_entry_is_one_row_more(
            EngineView { dek: None, ..old(e).state() },
            old(sink)@,
            final(e).state(),
            final(sink)@,
            model::locked_entry(),
            seq![EventView::VaultLocked],
        );
        let ts = final(e).state().store.audit.last().ts;
        let now = choose|now: Timestamp| #[trigger]
            seam::told(&old(e).clock_seam(), now) && now.rfc3339@ == ts;
        assert(call_ensures(C::now, (&old(e).clock_seam(),), now));
    }
}

} // verus!
