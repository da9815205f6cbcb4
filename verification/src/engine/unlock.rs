//! Opening and closing the vault.
use vstd::prelude::*;
use crate::codec;
use crate::engine::journal::verify_audit_anchor_with;
use crate::engine::model;
use crate::engine::model::EngineView;
use crate::engine::{Engine, Unlock};
use crate::error::{EngineError, VaultState};
use crate::event::{AuditDetail, EventSink, EventView, Reason, SecretEvent};
use crate::keyslot::{
    recover_by_passphrase, try_keyfile, verify_header_mac, Dek, Factor, Keyslot, SlotView,
};
use crate::primitives::{wipe_bytes, wipe_text};
use crate::seam::{Clock, UsbProbe};
use crate::vault::store::{Store, StoreCall};
use crate::vault::Vault;

verus! {

/// What the store says of the vault before any key is known: the keyslots, the MAC over them and
/// the issuance floor.
pub struct Header {
    pub slots: Vec<Keyslot>,
    pub mac: Vec<u8>,
    pub issuance_floor_ms: i64,
}

impl Header {
    /// Whether this is the header that a store holds.
    pub open spec fn is_of(&self, store: crate::vault::store::StoreView) -> bool {
        &&& crate::keyslot::slot_views(self.slots@) == store.slots
        &&& model::stored_mac(store) == Some(self.mac@)
        &&& model::stored_floor(store) == Some(self.issuance_floor_ms)
    }
}

/// The error of a result.
pub open spec fn error_of<T>(result: Result<T, EngineError>) -> Option<EngineError> {
    match result {
        Ok(_) => None,
        Err(e) => Some(e),
    }
}

/// Slots that their keyfiles do not open can be passed over.
pub proof fn lemma_pass_over(
    slots: Seq<SlotView>,
    keyfiles: Seq<Option<Seq<u8>>>,
    n: int,
)
    requires
        0 <= n <= slots.len(),
        n <= keyfiles.len(),
        forall|i: int|
            0 <= i < n ==> crate::keyslot::keyfile_opens(
                #[trigger] slots[i],
                keyfiles[i],
            ) is None,
    ensures
        crate::keyslot::keyfiles_recover(slots, keyfiles) == crate::keyslot::keyfiles_recover(
            slots.skip(n),
            keyfiles.skip(n),
        ),
    decreases n,
{
    if n == 0 {
        assert(slots.skip(0) =~= slots);
        assert(keyfiles.skip(0) =~= keyfiles);
    } else {
        assert(crate::keyslot::keyfile_opens(slots[0], keyfiles[0]) is None);
        let s = slots.drop_first();
        let k = keyfiles.drop_first();
        assert forall|i: int| 0 <= i < n - 1 implies crate::keyslot::keyfile_opens(
            #[trigger] s[i],
            k[i],
        ) is None by {
            assert(s[i] == slots[i + 1]);
        }
        lemma_pass_over(s, k, n - 1);
        assert(s.skip(n - 1) =~= slots.skip(n));
        assert(k.skip(n - 1) =~= keyfiles.skip(n));
    }
}

/// The largest key generation among the slots; one if there is no slot.
pub fn slot_generation(slots: &[Keyslot]) -> (generation: i64)
    ensures
        generation == model::max_generation(crate::keyslot::slot_views(slots@)),
{
    let ghost views = crate::keyslot::slot_views(slots@);
    if slots.len() == 0 {
        return 1;
    }
    let mut best: i64 = slots[0].dek_generation;
    let mut i: usize = 1;
    assert(views.take(1)[0] == slots@[0]@);
    while i < slots.len()
        invariant
            1 <= i <= slots@.len(),
            views == crate::keyslot::slot_views(slots@),
            best == model::max_generation(views.take(i as int)),
        decreases slots@.len() - i,
    {
        proof {
            assert(views.take(i + 1).drop_last() =~= views.take(i as int));
            assert(views.take(i + 1).last() == slots@[i as int]@);
        }
        if slots[i].dek_generation > best {
            best = slots[i].dek_generation;
        }
        i = i + 1;
    }
    assert(views.take(i as int) =~= views);
    best
}

/// The header MAC that the store holds.
pub fn load_header_mac<S: Store>(store: &S) -> (mac: Result<Vec<u8>, EngineError>)
    ensures
        match mac {
            Ok(m) => model::stored_mac(store.state()) == Some(m@),
            Err(EngineError::UnlockFailed) => model::stored_mac(store.state()) is None,
            Err(e) => e is Store && !store.reliable(StoreCall::GetMeta),
        },
{
    match store.get_meta("vault.header_mac") {
        Ok(Some(text)) => match codec::hex_decode(text.as_str()) {
            Some(mac) => Ok(mac),
            None => Err(EngineError::UnlockFailed),
        },
        Ok(None) => Err(EngineError::UnlockFailed),
        Err(e) => Err(EngineError::Store(e)),
    }
}

/// The issuance floor that the store holds.
pub fn load_issuance_floor<S: Store>(store: &S) -> (floor: Result<i64, EngineError>)
    ensures
        match floor {
            Ok(ms) => model::stored_floor(store.state()) == Some(ms),
            Err(EngineError::UnlockFailed) => model::stored_floor(store.state()) is None,
            Err(e) => e is Store && !store.reliable(StoreCall::GetMeta),
        },
{
    match store.get_meta("vault.issuance_floor_ms") {
        Ok(Some(text)) => match crate::decimal::parse_i64(text.as_str()) {
            Some(ms) => Ok(ms),
            None => Err(EngineError::UnlockFailed),
        },
        Ok(None) => Err(EngineError::UnlockFailed),
        Err(e) => Err(EngineError::Store(e)),
    }
}

/// The generation of the data key that the store holds. Records are sealed for it, so there is no
/// default for one that is missing or garbled.
pub fn load_dek_generation<S: Store>(store: &S) -> (generation: Result<i64, EngineError>)
    ensures
        match generation {
            Ok(g) => model::stored_generation(store.state()) == Ok::<i64, EngineError>(g),
            Err(EngineError::Store(_)) => !store.reliable(StoreCall::GetMeta),
            Err(e) => model::stored_generation(store.state()) == Err::<i64, EngineError>(e),
        },
{
    match store.get_meta("vault.dek_generation") {
        Ok(Some(text)) => match crate::decimal::parse_i64(text.as_str()) {
            Some(g) => Ok(g),
            None => Err(EngineError::DekGenerationInvalid),
        },
        Ok(None) => Err(EngineError::DekGenerationMissing),
        Err(e) => Err(EngineError::Store(e)),
    }
}

/// The header that the store holds.
pub fn load_header<S: Store>(store: &S) -> (header: Result<Header, EngineError>)
    ensures
        match header {
            Ok(h) => h.is_of(store.state()),
            Err(EngineError::UnlockFailed) => model::stored_mac(store.state()) is None
                || model::stored_floor(store.state()) is None,
            Err(e) => e is Store && !(store.reliable(StoreCall::LoadKeyslots) && store.reliable(
                StoreCall::GetMeta,
            )),
        },
{
    let slots: Vec<Keyslot> = match store.load_keyslots() {
        Ok(slots) => slots,
        Err(e) => {
            return Err(EngineError::Store(e));
        },
    };
    let mac: Vec<u8> = match load_header_mac(store) {
        Ok(mac) => mac,
        Err(e) => {
            return Err(e);
        },
    };
    let issuance_floor_ms: i64 = match load_issuance_floor(store) {
        Ok(ms) => ms,
        Err(e) => {
            return Err(e);
        },
    };
    Ok(Header { slots, mac, issuance_floor_ms })
}

/// Whether the probe, asked for the keyfile on a partition, gave this answer.
pub open spec fn answered<U: UsbProbe>(
    usb: &U,
    uuid: Seq<char>,
    answer: Option<Seq<u8>>,
) -> bool {
    exists|text: &str, reply: Option<Vec<u8>>| #[trigger]
        call_ensures(U::keyfile_for, (usb, text), reply) && text@ == uuid && codec::bytes_view(
            reply,
        ) == answer
}

/// Whether `keyfiles` are the answers of the probe for one slot after the other, up to the first
/// slot that its keyfile opens. Only enabled USB slots that name a partition are asked for.
pub open spec fn probed<U: UsbProbe>(
    usb: &U,
    slots: Seq<SlotView>,
    keyfiles: Seq<Option<Seq<u8>>>,
) -> bool {
    &&& keyfiles.len() <= slots.len()
    &&& forall|i: int|
        0 <= i < keyfiles.len() ==> match crate::keyslot::usb_slot(#[trigger] slots[i]) {
            Some(uuid) => answered(usb, uuid, keyfiles[i]),
            None => keyfiles[i] is None,
        }
    &&& forall|i: int|
        0 <= i < keyfiles.len() - 1 ==> crate::keyslot::keyfile_opens(
            #[trigger] slots[i],
            keyfiles[i],
        ) is None
    &&& keyfiles.len() < slots.len() ==> crate::keyslot::keyfiles_recover(
        slots,
        keyfiles,
    ) is Some
}

/// Recovers the data key from the first USB slot that its keyfile opens. The probe is asked for
/// one enabled USB slot after the other, and no longer than it takes.
pub fn recover_by_usb<U: UsbProbe>(usb: &U, slots: &[Keyslot]) -> (dek: Option<Dek>)
    ensures
        exists|keyfiles: Seq<Option<Seq<u8>>>| #[trigger]
            probed(usb, crate::keyslot::slot_views(slots@), keyfiles) && crate::keyslot::dek_view(
                dek,
            ) == crate::keyslot::keyfiles_recover(crate::keyslot::slot_views(slots@), keyfiles),
{
    let ghost views = crate::keyslot::slot_views(slots@);
    let ghost mut keyfiles: Seq<Option<Seq<u8>>> = Seq::empty();
    let mut i: usize = 0;
    while i < slots.len()
        invariant
            i <= slots@.len(),
            views == crate::keyslot::slot_views(slots@),
            keyfiles.len() == i,
            forall|j: int|
                0 <= j < i ==> crate::keyslot::keyfile_opens(
                    #[trigger] views[j],
                    keyfiles[j],
                ) is None,
            forall|j: int|
                0 <= j < i ==> match crate::keyslot::usb_slot(#[trigger] views[j]) {
                    Some(uuid) => answered(usb, uuid, keyfiles[j]),
                    None => keyfiles[j] is None,
                },
        decreases slots@.len() - i,
    {
        assert(views[i as int] == slots@[i as int]@);
        let slot: &Keyslot = &slots[i];
        let answer: Option<Vec<u8>> = if slot.enabled && slot.factor == Factor::Usb {
            match &slot.usb_partition_uuid {
                Some(uuid) => usb.keyfile_for(uuid.as_str()),
                None => None,
            }
        } else {
            None
        };
        proof {
            keyfiles = keyfiles.push(codec::bytes_view(answer));
        }
        match answer {
            Some(keyfile) => {
                let mut keyfile = keyfile;
                let dek: Option<Dek> = try_keyfile(slot, keyfile.as_slice());
                wipe_bytes(&mut keyfile);
                if dek.is_some() {
                    proof {
                        lemma_pass_over(views, keyfiles, i as int);
                        assert(views.skip(i as int)[0] == views[i as int]);
                        assert(keyfiles.skip(i as int)[0] == keyfiles[i as int]);
                        assert(probed(usb, views, keyfiles));
                    }
                    return dek;
                }
            },
            None => {},
        }
        i = i + 1;
    }
    proof {
        lemma_pass_over(views, keyfiles, i as int);
        assert(probed(usb, views, keyfiles));
    }
    None
}

/// Whether the keyslot set is the one that a recovered key authenticates, so that the generation of
/// the key is looked up next.
pub open spec fn header_holds(
    store: crate::vault::store::StoreView,
    recovered: Option<Seq<u8>>,
) -> bool {
    &&& recovered matches Some(dek)
    &&& model::stored_floor(store) matches Some(floor_ms)
    &&& model::stored_mac(store) == Some(
        crate::keyslot::header_mac_bytes(dek, store.slots, floor_ms),
    )
}

/// Whether header and generation are the ones that a recovered key authenticates, so that the audit
/// log is checked next.
pub open spec fn generation_holds(
    store: crate::vault::store::StoreView,
    recovered: Option<Seq<u8>>,
) -> bool {
    &&& header_holds(store, recovered)
    &&& model::stored_generation(store) == Ok::<i64, EngineError>(
        model::max_generation(store.slots),
    )
}

/// The entry for an audit log that is broken or cannot be checked.
pub open spec fn log_unsound_entry() -> model::Entry {
    model::unlock_failed_entry(AuditDetail::Cause { reason: Reason::AuditChain })
}

/// What is left where a vault would have opened and the anchor could not be set: the row of the
/// unlock is there and told, and the vault is open.
pub open spec fn opened_unanchored(
    s: EngineView,
    before: Seq<EventView>,
    t: EngineView,
    after: Seq<EventView>,
    factor: Factor,
    dek: Seq<u8>,
) -> bool {
    let opened = EngineView { dek: Some(dek), ..s };
    let entry = model::unlocked_entry(factor);
    &&& model::has_room(s)
    &&& t == model::noted(opened, entry, model::last_ts(t)) || t == model::journaled(
        opened,
        entry,
        model::last_ts(t),
    )
    &&& after == before.push(model::mirrored(s, entry, model::last_ts(t)))
}

impl<S: Store, C: Clock, U: UsbProbe> Engine<S, C, U> {
    /// Whether nothing but a full audit log makes an attempt to unlock fail by the store.
    pub open spec fn unlocks_surely(&self) -> bool {
        &&& self.reliable(StoreCall::LoadKeyslots)
        &&& self.reliable(StoreCall::GetMeta)
        &&& self.reliable(StoreCall::VerifyAuditChain)
        &&& self.reliable(StoreCall::QueryAudit)
        &&& self.reliable(StoreCall::AppendAudit)
        &&& self.reliable(StoreCall::PutMeta)
    }

    /// Whether the store never fails to tell what the check of the audit log asks for.
    pub open spec fn checks_surely(&self) -> bool {
        &&& self.reliable(StoreCall::VerifyAuditChain)
        &&& self.reliable(StoreCall::GetMeta)
        &&& self.reliable(StoreCall::QueryAudit)
    }

    /// What is left where the store failed while a locked vault was to be opened, for which the
    /// keyslots gave `recovered`.
    pub open spec fn unlock_unfinished(
        before: Self,
        events_before: Seq<EventView>,
        after: Self,
        events_after: Seq<EventView>,
        factor: Factor,
        recovered: Option<Seq<u8>>,
    ) -> bool {
        let s = before.state();
        let t = after.state();
        let verdict = model::unlock_verdict(s.store, recovered);
        let unsound = generation_holds(s.store, recovered) && !before.checks_surely();
        let logs = before.reliable(StoreCall::AppendAudit) && model::has_room(s);
        // The generation could not be read.
        ||| {
            &&& header_holds(s.store, recovered)
            &&& !before.reliable(StoreCall::GetMeta)
            &&& t == s
            &&& events_after == events_before
        }
        // The audit log could not be checked, and the row says so.
        ||| {
            &&& unsound
            &&& model::recorded(
                s,
                events_before,
                t,
                events_after,
                log_unsound_entry(),
                Seq::empty(),
            )
        }
        // The row of a failed attempt could not be written.
        ||| {
            &&& !logs
            &&& verdict matches model::UnlockVerdict::Refused { detail, .. }
            &&& model::unfinished(
                s,
                events_before,
                t,
                events_after,
                model::unlock_failed_entry(detail),
            )
        }
        ||| {
            &&& !logs
            &&& unsound
            &&& model::unfinished(s, events_before, t, events_after, log_unsound_entry())
        }
        // The row of the unlock could not be written.
        ||| {
            &&& !logs
            &&& verdict is Opened
            &&& model::unfinished(
                s,
                events_before,
                t,
                events_after,
                model::unlocked_entry(factor),
            )
        }
        // The row of the unlock was written, and the anchor could not be set.
        ||| {
            &&& !before.reliable(StoreCall::PutMeta)
            &&& verdict matches model::UnlockVerdict::Opened { dek }
            &&& opened_unanchored(s, events_before, t, events_after, factor, dek)
        }
    }

    /// What an attempt to open a locked vault gives and leaves, for which the keyslots gave
    /// `recovered`.
    pub open spec fn unlock_outcome(
        before: Self,
        events_before: Seq<EventView>,
        after: Self,
        events_after: Seq<EventView>,
        factor: Factor,
        recovered: Option<Seq<u8>>,
        result: Result<VaultState, EngineError>,
    ) -> bool {
        match result {
            Err(EngineError::Store(_)) => Self::unlock_unfinished(
                before,
                events_before,
                after,
                events_after,
                factor,
                recovered,
            ),
            _ => model::unlock_effect(
                before.state(),
                events_before,
                after.state(),
                events_after,
                factor,
                recovered,
                error_of(result),
            ),
        }
    }

    /// Opens a locked vault with what the keyslots gave. The keyslot set, the key generation and
    /// the audit log have to be the ones that the key authenticates. The vault opens only after
    /// the audit row was written.
    pub fn complete_unlock(
        &mut self,
        factor: Factor,
        header: &Header,
        recovered: Option<Dek>,
        sink: &mut EventSink,
    ) -> (result: Result<VaultState, EngineError>)
        requires
            old(self).state().dek is None,
            header.is_of(old(self).state().store),
        ensures
            result matches Ok(state) ==> state == VaultState::Unlocked,
            Self::unlock_outcome(
                *old(self),
                old(sink)@,
                *final(self),
                final(sink)@,
                factor,
                crate::keyslot::dek_view(recovered),
                result,
            ),
            result is Err && old(self).reliable(StoreCall::PutMeta)
                ==> final(self).state().dek is None,
            final(self).continues(*old(self)),
    {
        let dek: Dek = match recovered {
            Some(dek) => dek,
            None => {
                return self.fail_unlock(AuditDetail::Empty, EngineError::UnlockFailed, sink);
            },
        };
        if !verify_header_mac(
            &dek,
            header.slots.as_slice(),
            header.issuance_floor_ms,
            header.mac.as_slice(),
        ) {
            let detail: AuditDetail = AuditDetail::Cause { reason: Reason::HeaderMac };
            return self.fail_unlock(detail, EngineError::HeaderMacMismatch, sink);
        }
        let same_generation: bool = match load_dek_generation(&self.store) {
            Ok(g) => g == slot_generation(header.slots.as_slice()),
            Err(EngineError::Store(e)) => {
                return Err(EngineError::Store(e));
            },
            Err(_) => false,
        };
        if !same_generation {
            let detail: AuditDetail = AuditDetail::Cause { reason: Reason::DekGeneration };
            return self.fail_unlock(detail, EngineError::HeaderMacMismatch, sink);
        }
        match verify_audit_anchor_with(&self.store, &dek) {
            Ok(_) => {},
            Err(fault) => {
                let detail: AuditDetail = AuditDetail::Cause { reason: Reason::AuditChain };
                return self.fail_unlock(detail, fault, sink);
            },
        }
        self.open_with(dek, factor, sink)
    }

    /// Audits a failed attempt to unlock, and gives its error.
    fn fail_unlock(&mut self, detail: AuditDetail, error: EngineError, sink: &mut EventSink) -> (
    result: Result<VaultState, EngineError>)
        requires
            old(self).state().dek is None,
        ensures
            ({
                let entry = model::unlock_failed_entry(detail);
                ||| {
                    &&& result == Err::<VaultState, EngineError>(error)
                    &&& model::recorded(
                        old(self).state(),
                        old(sink)@,
                        final(self).state(),
                        final(sink)@,
                        entry,
                        Seq::empty(),
                    )
                }
                ||| {
                    &&& result matches Err(EngineError::Store(_))
                    &&& !(old(self).reliable(StoreCall::AppendAudit) && model::has_room(
                        old(self).state(),
                    ))
                    &&& model::unfinished(
                        old(self).state(),
                        old(sink)@,
                        final(self).state(),
                        final(sink)@,
                        entry,
                    )
                }
            }),
            final(self).state().dek is None,
            final(self).continues(*old(self)),
    {
        let noted: Result<(), EngineError> = self.audit_failed(sink, "vault_unlock", None, detail);
        match noted {
            Ok(_) => Err(error),
            Err(e) => Err(e),
        }
    }

    /// Opens a locked vault under a key that was found right: first the audit row, then the key,
    /// then the anchor.
    fn open_with(&mut self, dek: Dek, factor: Factor, sink: &mut EventSink) -> (result: Result<
        VaultState,
        EngineError,
    >)
        requires
            old(self).state().dek is None,
        ensures
            match result {
                Ok(state) => state == VaultState::Unlocked && model::recorded(
                    EngineView { dek: Some(dek@), ..old(self).state() },
                    old(sink)@,
                    final(self).state(),
                    final(sink)@,
                    model::unlocked_entry(factor),
                    seq![EventView::VaultUnlocked { factor }],
                ),
                Err(e) => {
                    &&& e is Store
                    &&& {
                        ||| {
                            &&& !(old(self).reliable(StoreCall::AppendAudit) && model::has_room(
                                old(self).state(),
                            ))
                            &&& model::unfinished(
                                old(self).state(),
                                old(sink)@,
                                final(self).state(),
                                final(sink)@,
                                model::unlocked_entry(factor),
                            )
                        }
                        ||| {
                            &&& !old(self).reliable(StoreCall::PutMeta)
                            &&& opened_unanchored(
                                old(self).state(),
                                old(sink)@,
                                final(self).state(),
                                final(sink)@,
                                factor,
                                dek@,
                            )
                        }
                    }
                },
            },
            final(self).continues(*old(self)),
    {
        match self.audit_ok(sink, "vault_unlocked", None, AuditDetail::Unlocked { factor }) {
            Ok(_) => {},
            Err(e) => {
                return Err(e);
            },
        }
        let ghost told = sink@;
        let ghost entry = model::unlocked_entry(factor);
        assert(told =~= old(sink)@.push(
            model::mirrored(old(self).state(), entry, model::last_ts(self.state())),
        ));
        self.vault = Vault::Unlocked { dek };
        match self.advance_audit_anchor_if_unlocked() {
            Ok(_) => {},
            Err(e) => {
                return Err(e);
            },
        }
        sink.emit(SecretEvent::VaultUnlocked { factor });
        proof {
            let opened = EngineView { dek: self.state().dek, ..old(self).state() };
            let mirror = model::mirrored(opened, entry, model::last_ts(self.state()));
            let event = EventView::VaultUnlocked { factor };
            assert(told =~= old(sink)@.push(mirror));
            assert(sink@ =~= old(sink)@.push(mirror) + seq![event]);
        }
        Ok(VaultState::Unlocked)
    }

    /// Opens the vault with a passphrase or with the key device. An open vault stays as it is,
    /// whatever is presented. A failed attempt says no more than that it failed.
    pub fn unlock(&mut self, u: Unlock, sink: &mut EventSink) -> (result: Result<
        VaultState,
        EngineError,
    >)
        ensures
            result matches Ok(state) ==> state == VaultState::Unlocked,
            old(self).state().dek is Some ==> {
                &&& result is Ok
                &&& final(self).state() == old(self).state()
                &&& final(sink)@ == old(sink)@
            },
            old(self).state().dek is None ==> {
                ||| {
                    &&& result matches Err(EngineError::Store(_))
                    &&& !(old(self).reliable(StoreCall::LoadKeyslots) && old(self).reliable(
                        StoreCall::GetMeta,
                    ))
                    &&& final(self).state() == old(self).state()
                    &&& final(sink)@ == old(sink)@
                }
                ||| match u {
                    Unlock::Passphrase(pp) => Self::unlock_outcome(
                        *old(self),
                        old(sink)@,
                        *final(self),
                        final(sink)@,
                        Factor::Passphrase,
                        crate::keyslot::passphrase_recovers(
                            old(self).state().store.slots,
                            vstd::utf8::encode_utf8(pp@),
                        ),
                        result,
                    ),
                    Unlock::Usb => if model::stored_mac(old(self).state().store) is None
                        || model::stored_floor(old(self).state().store) is None {
                        Self::unlock_outcome(
                            *old(self),
                            old(sink)@,
                            *final(self),
                            final(sink)@,
                            Factor::Usb,
                            None,
                            result,
                        )
                    } else {
                        exists|keyfiles: Seq<Option<Seq<u8>>>| #[trigger]
                            old(self).probe_gave(keyfiles) && Self::unlock_outcome(
                                *old(self),
                                old(sink)@,
                                *final(self),
                                final(sink)@,
                                Factor::Usb,
                                crate::keyslot::keyfiles_recover(
                                    old(self).state().store.slots,
                                    keyfiles,
                                ),
                                result,
                            )
                    },
                }
            },
            result is Err && old(self).reliable(StoreCall::PutMeta)
                ==> final(self).state().dek is None,
            old(self).unlocks_surely() && model::has_room(old(self).state()) ==> !(
            result matches Err(EngineError::Store(_))),
            final(self).continues(*old(self)),
    {
        match u {
            Unlock::Passphrase(pp) => {
                let mut pp = pp;
                if self.vault.is_unlocked() {
                    wipe_text(&mut pp);
                    return Ok(VaultState::Unlocked);
                }
                let header: Header = match load_header(&self.store) {
                    Ok(header) => header,
                    Err(e) => {
                        wipe_text(&mut pp);
                        return Err(e);
                    },
                };
                let recovered: Option<Dek> = recover_by_passphrase(
                    header.slots.as_slice(),
                    pp.as_str().as_bytes(),
                );
                wipe_text(&mut pp);
                self.complete_unlock(Factor::Passphrase, &header, recovered, sink)
            },
            Unlock::Usb => {
                if self.vault.is_unlocked() {
                    return Ok(VaultState::Unlocked);
                }
                let header: Header = match load_header(&self.store) {
                    Ok(header) => header,
                    Err(e) => {
                        return Err(e);
                    },
                };
                let recovered: Option<Dek> = recover_by_usb(&self.usb, header.slots.as_slice());
                let ghost gave = choose|keyfiles: Seq<Option<Seq<u8>>>| #[trigger]
                    probed(
                        &self.usb,
                        crate::keyslot::slot_views(header.slots@),
                        keyfiles,
                    ) && crate::keyslot::dek_view(recovered) == crate::keyslot::keyfiles_recover(
                        crate::keyslot::slot_views(header.slots@),
                        keyfiles,
                    );
                assert(old(self).probe_gave(gave));
                self.complete_unlock(Factor::Usb, &header, recovered, sink)
            },
        }
    }

    /// Wipes the data key and closes the vault, whatever the store does. A closed vault stays
    /// closed.
    pub fn lock(&mut self, sink: &mut EventSink) -> (result: Result<(), EngineError>)
        ensures
            final(self).state().dek is None,
            match result {
                Ok(_) => model::recorded(
                    EngineView { dek: None, ..old(self).state() },
                    old(sink)@,
                    final(self).state(),
                    final(sink)@,
                    model::locked_entry(),
                    seq![EventView::VaultLocked],
                ),
                Err(e) => {
                    &&& e is Store
                    &&& !(old(self).reliable(StoreCall::AppendAudit) && model::has_room(
                        old(self).state(),
                    ))
                    &&& model::unfinished(
                        EngineView { dek: None, ..old(self).state() },
                        old(sink)@,
                        final(self).state(),
                        final(sink)@,
                        model::locked_entry(),
                    )
                },
            },
            final(self).continues(*old(self)),
    {
        self.vault.lock();
        let ghost closed = self.state();
        match self.audit_ok(sink, "vault_locked", None, AuditDetail::Empty) {
            Ok(_) => {},
            Err(e) => {
                return Err(e);
            },
        }
        let ghost told = sink@;
        sink.emit(SecretEvent::VaultLocked);
        proof {
            assert(closed == (EngineView { dek: None, ..old(self).state() }));
            let mirror = model::mirrored(
                closed,
                model::locked_entry(),
                model::last_ts(self.state()),
            );
            assert(told =~= old(sink)@.push(mirror));
            assert(sink@ =~= old(sink)@.push(mirror) + seq![EventView::VaultLocked]);
        }
        Ok(())
    }
}

} // verus!
