//! Making a new vault.
use vstd::prelude::*;
use vstd::slice::slice_subrange;
use crate::codec;
use crate::engine::journal::anchor_tail;
use crate::engine::model;
use crate::engine::model::{EngineView, MaterialView};
use crate::engine::Engine;
use crate::entropy::random_bytes;
use crate::error::EngineError;
use crate::event::{AuditDetail, EventSink, EventView};
use crate::keyslot::{
    header_mac, kek_from_passphrase, kek_from_usb, keyslot_aad, wrap_dek_with, Argon2Params, Dek,
    Factor, Kdf, Kek, Keyslot, SlotView, ARGON2_M_KIB_FLOOR, ARGON2_T_COST_FLOOR,
};
use crate::primitives::{to_array32, wipe_bytes, wipe_text, ARGON2_MAX_INPUT_LEN, NONCE_LEN};
use crate::seam::{Clock, Timestamp, UsbProbe};
use crate::vault::store::{Store, StoreCall};

verus! {

/// The random bytes that a new vault is made of.
pub struct Material {
    pub dek: Dek,
    pub passphrase_salt: Vec<u8>,
    pub passphrase_nonce: Vec<u8>,
    /// Salt and nonce of the USB slot.
    pub usb: Option<(Vec<u8>, Vec<u8>)>,
}

impl View for Material {
    type V = MaterialView;

    open spec fn view(&self) -> MaterialView {
        MaterialView {
            dek: self.dek@,
            passphrase_salt: self.passphrase_salt@,
            passphrase_nonce: self.passphrase_nonce@,
            usb: match self.usb {
                Some((salt, nonce)) => Some((salt@, nonce@)),
                None => None,
            },
        }
    }
}

/// A fresh data key: 32 random bytes, as the operating system gave them.
fn mint_dek() -> (dek: Result<Dek, EngineError>)
    ensures
        match dek {
            Ok(d) => crate::entropy::drawn(32, d@),
            Err(e) => e == EngineError::EntropyUnavailable && crate::entropy::none_drawn(32),
        },
{
    match random_bytes(32) {
        Ok(bytes) => {
            let mut bytes = bytes;
            let dek: Dek = Dek(to_array32(bytes.as_slice()));
            wipe_bytes(&mut bytes);
            Ok(dek)
        },
        Err(e) => Err(e),
    }
}

/// Draws what a new vault is made of: its salts and nonces at once, each at a place of its own, and
/// its data key.
pub fn draw_material(with_usb: bool) -> (material: Result<Material, EngineError>)
    ensures
        match material {
            Ok(m) => model::material_fits(m@, with_usb) && model::material_drawn(m@),
            Err(e) => e == EngineError::EntropyUnavailable && model::material_missing(with_usb),
        },
{
    let seeds: Vec<u8> = match random_bytes(
        if with_usb {
            96
        } else {
            40
        },
    ) {
        Ok(bytes) => bytes,
        Err(e) => {
            return Err(e);
        },
    };
    let passphrase_salt: Vec<u8> = codec::copy_bytes(slice_subrange(seeds.as_slice(), 0, 16));
    let passphrase_nonce: Vec<u8> = codec::copy_bytes(slice_subrange(seeds.as_slice(), 16, 40));
    let usb: Option<(Vec<u8>, Vec<u8>)> = if with_usb {
        let salt: Vec<u8> = codec::copy_bytes(slice_subrange(seeds.as_slice(), 40, 72));
        let nonce: Vec<u8> = codec::copy_bytes(slice_subrange(seeds.as_slice(), 72, 96));
        assert(passphrase_salt@ + passphrase_nonce@ + (salt@ + nonce@) =~= seeds@);
        Some((salt, nonce))
    } else {
        assert(passphrase_salt@ + passphrase_nonce@ + Seq::<u8>::empty() =~= seeds@);
        None
    };
    match mint_dek() {
        Ok(dek) => Ok(Material { dek, passphrase_salt, passphrase_nonce, usb }),
        Err(e) => Err(e),
    }
}

/// The passphrase slot of a new vault.
fn enroll_passphrase(material: &Material, passphrase: &str, params: Argon2Params) -> (slot: Keyslot)
    requires
        material@.passphrase_salt.len() == 16,
        material@.passphrase_nonce.len() == NONCE_LEN,
        crate::keyslot::argon2_admissible(params),
        vstd::utf8::encode_utf8(passphrase@).len() <= ARGON2_MAX_INPUT_LEN,
    ensures
        slot@ == model::new_passphrase_slot(material@, passphrase@, params),
        crate::keyslot::argon2_at_floor(params) ==> crate::keyslot::passphrase_opens(
            slot@,
            vstd::utf8::encode_utf8(passphrase@),
        ) == Some(material@.dek),
{
    let mut slot = Keyslot {
        id: 1,
        factor: Factor::Passphrase,
        label: "passphrase".to_owned(),
        kdf: Kdf::Argon2id(params),
        salt: codec::copy_bytes(material.passphrase_salt.as_slice()),
        usb_partition_uuid: None,
        wrap_nonce: Vec::new(),
        wrapped_dek: Vec::new(),
        dek_generation: 1,
        enabled: true,
    };
    let ghost bare = slot@;
    assert(bare.wrap_nonce =~= Seq::<u8>::empty());
    assert(bare.wrapped_dek =~= Seq::<u8>::empty());
    let aad: Vec<u8> = keyslot_aad(&slot);
    let kek: Kek = kek_from_passphrase(passphrase.as_bytes(), slot.salt.as_slice(), params);
    slot.wrapped_dek = wrap_dek_with(
        kek,
        &material.dek,
        material.passphrase_nonce.as_slice(),
        aad.as_slice(),
    );
    slot.wrap_nonce = codec::copy_bytes(material.passphrase_nonce.as_slice());
    proof {
        assert(crate::keyslot::keyslot_aad_bytes(slot@) == crate::keyslot::keyslot_aad_bytes(bare));
    }
    slot
}

/// The USB slot of a new vault. The keyfile is not kept.
fn enroll_usb(dek: &Dek, salt: &[u8], nonce: &[u8], uuid: &str, keyfile: &[u8]) -> (slot: Keyslot)
    requires
        nonce@.len() == NONCE_LEN,
    ensures
        slot@ == model::new_usb_slot(dek@, salt@, nonce@, uuid@, keyfile@),
        crate::keyslot::keyfile_opens(slot@, Some(keyfile@)) == Some(dek@),
{
    let mut slot = Keyslot {
        id: 2,
        factor: Factor::Usb,
        label: "usb".to_owned(),
        kdf: Kdf::HkdfSha256,
        salt: codec::copy_bytes(salt),
        usb_partition_uuid: Some(uuid.to_owned()),
        wrap_nonce: Vec::new(),
        wrapped_dek: Vec::new(),
        dek_generation: 1,
        enabled: true,
    };
    let ghost bare = slot@;
    assert(bare.wrap_nonce =~= Seq::<u8>::empty());
    assert(bare.wrapped_dek =~= Seq::<u8>::empty());
    let aad: Vec<u8> = keyslot_aad(&slot);
    let kek: Kek = kek_from_usb(keyfile, slot.salt.as_slice());
    slot.wrapped_dek = wrap_dek_with(kek, dek, nonce, aad.as_slice());
    slot.wrap_nonce = codec::copy_bytes(nonce);
    proof {
        assert(crate::keyslot::keyslot_aad_bytes(slot@) == crate::keyslot::keyslot_aad_bytes(bare));
    }
    slot
}

/// Wraps a new data key for each factor.
pub fn enroll(
    material: &Material,
    passphrase: &str,
    usb_partition_uuid: &Option<String>,
    usb_keyfile: &Option<Vec<u8>>,
    params: Argon2Params,
) -> (slots: Vec<Keyslot>)
    requires
        model::material_fits(material@, usb_keyfile is Some),
        usb_keyfile is Some ==> usb_partition_uuid is Some,
        crate::keyslot::argon2_admissible(params),
        vstd::utf8::encode_utf8(passphrase@).len() <= ARGON2_MAX_INPUT_LEN,
    ensures
        crate::keyslot::slot_views(slots@) == model::new_slots(
            material@,
            passphrase@,
            codec::text_view(*usb_partition_uuid),
            codec::bytes_view(*usb_keyfile),
            params,
        ),
        crate::keyslot::argon2_at_floor(params) ==> model::slots_open(
            crate::keyslot::slot_views(slots@),
            passphrase@,
            codec::bytes_view(*usb_keyfile),
            material@.dek,
        ),
{
    let mut slots: Vec<Keyslot> = Vec::new();
    slots.push(enroll_passphrase(material, passphrase, params));
    match (&material.usb, usb_partition_uuid, usb_keyfile) {
        (Some((salt, nonce)), Some(uuid), Some(keyfile)) => {
            slots.push(
                enroll_usb(
                    &material.dek,
                    salt.as_slice(),
                    nonce.as_slice(),
                    uuid.as_str(),
                    keyfile.as_slice(),
                ),
            );
        },
        _ => {},
    }
    assert(crate::keyslot::slot_views(slots@) =~= model::new_slots(
        material@,
        passphrase@,
        codec::text_view(*usb_partition_uuid),
        codec::bytes_view(*usb_keyfile),
        params,
    ));
    slots
}

impl<S: Store, C: Clock, U: UsbProbe> Engine<S, C, U> {
    /// Whether nothing but a full audit log keeps a new vault from being written.
    pub open spec fn inits_surely(&self) -> bool {
        &&& self.reliable(StoreCall::GetMeta)
        &&& self.reliable(StoreCall::SaveKeyslot)
        &&& self.reliable(StoreCall::PutMeta)
        &&& self.reliable(StoreCall::AppendAudit)
        &&& self.reliable(StoreCall::LastAudit)
    }

    /// What is left where the store failed while a new vault was written.
    pub open spec fn init_unfinished(
        before: Self,
        events_before: Seq<EventView>,
        after: Self,
        events_after: Seq<EventView>,
        dek: Seq<u8>,
        slots: Seq<SlotView>,
        floor_ms: i64,
    ) -> bool {
        let s = before.state();
        let t = after.state();
        let headed = EngineView {
            store: model::with_header(s.store, dek, slots, floor_ms),
            ..s
        };
        // A slot or a part of the header could not be written.
        ||| {
            &&& !(before.reliable(StoreCall::SaveKeyslot) && before.reliable(StoreCall::PutMeta))
            &&& model::header_unfinished(
                s,
                events_before,
                t,
                events_after,
                dek,
                slots,
                floor_ms,
            )
        }
        // The audit row could not be written.
        ||| {
            &&& !(before.logs_surely() && model::has_room(s))
            &&& model::unfinished(
                headed,
                events_before,
                t,
                events_after,
                model::init_entry(slots.len()),
            )
        }
        // The anchor over the row could not be set.
        ||| {
            &&& !(before.reliable(StoreCall::LastAudit) && before.reliable(StoreCall::PutMeta))
            &&& model::anchor_unfinished(
                s,
                events_before,
                t,
                events_after,
                dek,
                slots,
                floor_ms,
            )
        }
    }

    /// What making a new vault gives and leaves. The random bytes are what the operating system
    /// gave, and the issuance floor is the time that the clock told.
    pub open spec fn init_outcome(
        before: Self,
        events_before: Seq<EventView>,
        after: Self,
        events_after: Seq<EventView>,
        passphrase: Seq<char>,
        uuid: Option<Seq<char>>,
        keyfile: Option<Seq<u8>>,
        params: Argon2Params,
        result: Result<(), EngineError>,
    ) -> bool {
        &&& match model::init_refusal(
            before.state().store,
            params,
            uuid is Some,
            keyfile is Some,
        ) {
            Some(refusal) => {
                &&& after.state() == before.state()
                &&& events_after == events_before
                &&& result matches Err(e) && (e == refusal || e is Store && !before.reliable(
                    StoreCall::GetMeta,
                ))
            },
            None => match result {
                Ok(_) => exists|m: MaterialView, floor_ms: i64| #[trigger]
                    model::created(
                        before.state(),
                        events_before,
                        after.state(),
                        events_after,
                        m,
                        passphrase,
                        uuid,
                        keyfile,
                        params,
                        floor_ms,
                    ) && model::material_drawn(m) && crate::seam::timed(
                        &before.clock_seam(),
                        floor_ms,
                    ),
                Err(EngineError::EntropyUnavailable) => {
                    &&& after.state() == before.state()
                    &&& events_after == events_before
                    &&& model::material_missing(keyfile is Some)
                },
                Err(e) => {
                    &&& e is Store
                    &&& {
                        ||| {
                            &&& after.state() == before.state()
                            &&& events_after == events_before
                            &&& !before.reliable(StoreCall::GetMeta)
                        }
                        ||| exists|m: MaterialView, floor_ms: i64| #[trigger]
                            Self::init_unfinished(
                                before,
                                events_before,
                                after,
                                events_after,
                                m.dek,
                                model::new_slots(m, passphrase, uuid, keyfile, params),
                                floor_ms,
                            ) && model::material_drawn(m) && crate::seam::timed(
                                &before.clock_seam(),
                                floor_ms,
                            )
                    }
                },
            },
        }
        &&& after.state().dek == before.state().dek
        &&& after.state().relays == before.state().relays
        &&& after.continues(before)
    }

    /// Writes the slots and the header of a new vault.
    fn write_header(&mut self, dek: &Dek, slots: &[Keyslot], floor_ms: i64) -> (done: Result<
        (),
        EngineError,
    >)
        ensures
            done is Ok ==> final(self).state() == (EngineView {
                store: model::with_header(
                    old(self).state().store,
                    dek@,
                    crate::keyslot::slot_views(slots@),
                    floor_ms,
                ),
                ..old(self).state()
            }),
            done matches Err(e) ==> {
                &&& e is Store
                &&& !(old(self).reliable(StoreCall::SaveKeyslot) && old(self).reliable(
                    StoreCall::PutMeta,
                ))
                &&& exists|n: int|
                    0 <= n <= slots@.len() + 3 && final(self).state().store
                        == #[trigger] model::with_header_part(
                        old(self).state().store,
                        dek@,
                        crate::keyslot::slot_views(slots@),
                        floor_ms,
                        n,
                    )
            },
            final(self).state().store.audit == old(self).state().store.audit,
            final(self).state().store.secrets == old(self).state().store.secrets,
            final(self).state().store.next_row_id == old(self).state().store.next_row_id,
            final(self).state().dek == old(self).state().dek,
            final(self).state().relays == old(self).state().relays,
            final(self).continues(*old(self)),
    {
        let ghost views = crate::keyslot::slot_views(slots@);
        let ghost before = self.store.state();
        let mut i: usize = 0;
        assert(views.take(0) =~= Seq::<SlotView>::empty());
        while i < slots.len()
            invariant
                i <= slots@.len(),
                views == crate::keyslot::slot_views(slots@),
                before == old(self).store.state(),
                self.vault == old(self).vault,
                self.owner_uid == old(self).owner_uid,
                self.broker == old(self).broker,
                self.clock == old(self).clock,
                self.usb == old(self).usb,
                self.store.state() == model::with_slots(before, views.take(i as int)),
                self.store.state().audit == before.audit,
                self.store.state().secrets == before.secrets,
                self.store.state().next_row_id == before.next_row_id,
                forall|c: StoreCall| #[trigger]
                    self.store.reliable(c) == old(self).store.reliable(c),
            decreases slots@.len() - i,
        {
            proof {
                assert(views.take(i + 1).drop_last() =~= views.take(i as int));
                assert(views.take(i + 1).last() == slots@[i as int]@);
            }
            match self.store.save_keyslot(&slots[i]) {
                Ok(_) => {},
                Err(e) => {
                    proof {
                        let n = i as int;
                        let kept = model::with_header_part(before, dek@, views, floor_ms, n);
                        let saved = model::with_header_part(before, dek@, views, floor_ms, n + 1);
                        assert(self.store.state() == kept || self.store.state() == saved);
                    }
                    return Err(EngineError::Store(e));
                },
            }
            i = i + 1;
        }
        assert(views.take(i as int) =~= views);
        let ghost n = i as int;
        let ghost whole = model::with_header_part(before, dek@, views, floor_ms, n);
        let ghost keyed = model::with_header_part(before, dek@, views, floor_ms, n + 1);
        let ghost floored = model::with_header_part(before, dek@, views, floor_ms, n + 2);
        let ghost done = model::with_header_part(before, dek@, views, floor_ms, n + 3);
        let mac: Vec<u8> = header_mac(dek, slots, floor_ms);
        match self.store.put_meta("vault.header_mac", codec::hex_encode(mac.as_slice()).as_str()) {
            Ok(_) => {},
            Err(e) => {
                return Err(EngineError::Store(e));
            },
        }
        match self.store.put_meta(
            "vault.issuance_floor_ms",
            crate::decimal::decimal_i64(floor_ms).as_str(),
        ) {
            Ok(_) => {},
            Err(e) => {
                return Err(EngineError::Store(e));
            },
        }
        match self.store.put_meta(
            "vault.dek_generation",
            crate::decimal::decimal_i64(1).as_str(),
        ) {
            Ok(_) => Ok(()),
            Err(e) => Err(EngineError::Store(e)),
        }
    }

    /// Writes a new vault with the given key, slots and issuance floor, its audit row, and the
    /// anchor over that row. The key is not kept.
    pub fn commit_vault(
        &mut self,
        dek: &Dek,
        slots: &[Keyslot],
        floor_ms: i64,
        sink: &mut EventSink,
    ) -> (done: Result<(), EngineError>)
        ensures
            match done {
                Ok(_) => model::init_effect(
                    old(self).state(),
                    old(sink)@,
                    final(self).state(),
                    final(sink)@,
                    dek@,
                    crate::keyslot::slot_views(slots@),
                    floor_ms,
                ),
                Err(e) => {
                    &&& e is Store
                    &&& Self::init_unfinished(
                        *old(self),
                        old(sink)@,
                        *final(self),
                        final(sink)@,
                        dek@,
                        crate::keyslot::slot_views(slots@),
                        floor_ms,
                    )
                },
            },
            final(self).state().dek == old(self).state().dek,
            final(self).state().relays == old(self).state().relays,
            final(self).continues(*old(self)),
    {
        match self.write_header(dek, slots, floor_ms) {
            Ok(_) => {},
            Err(e) => {
                return Err(e);
            },
        }
        let ghost headed = self.state();
        let n: usize = slots.len();
        let detail: AuditDetail = AuditDetail::Init { slots: n as u64, dek_generation: 1 };
        let ghost entry = model::init_entry(slots@.len());
        match self.audit_ok(sink, "vault_init", None, detail) {
            Ok(_) => {},
            Err(e) => {
                return Err(e);
            },
        }
        let ghost told = sink@;
        let ghost logged = self.state();
        match anchor_tail(&mut self.store, dek) {
            Ok(_) => {},
            Err(e) => {
                proof {
                    lemma_anchor_unfinished(
                        old(self).state(),
                        old(sink)@,
                        logged,
                        self.state(),
                        sink@,
                        dek@,
                        crate::keyslot::slot_views(slots@),
                        floor_ms,
                    );
                }
                return Err(e);
            },
        }
        proof {
            let mirror = model::mirrored(headed, entry, model::last_ts(self.state()));
            assert(told =~= old(sink)@.push(mirror));
            let written = model::noted(headed, entry, model::last_ts(self.state()));
            let key = model::audit_head_key();
            let text = codec::hex_text(
                crate::vault::audit::tail_mac(dek@, written.store.audit),
            );
            assert(logged.store.meta.insert(key, text) =~= written.store.meta.insert(key, text));
        }
        Ok(())
    }

    /// Makes a new vault: draws a data key, wraps it for the passphrase and, where a keyfile is
    /// given, for the key device, and writes slots, header and audit row. The vault stays as locked
    /// as it was. A store that already holds a vault is not touched, and neither is any store if
    /// the parameters are below the floors or the keyfile comes without its partition.
    pub fn init_vault(
        &mut self,
        passphrase: String,
        usb_partition_uuid: Option<String>,
        usb_keyfile: Option<Vec<u8>>,
        params: Argon2Params,
        sink: &mut EventSink,
    ) -> (result: Result<(), EngineError>)
        requires
            model::init_refusal(
                old(self).state().store,
                params,
                usb_partition_uuid is Some,
                usb_keyfile is Some,
            ) is None ==> crate::keyslot::argon2_admissible(params) && vstd::utf8::encode_utf8(
                passphrase@,
            ).len() <= ARGON2_MAX_INPUT_LEN,
        ensures
            Self::init_outcome(
                *old(self),
                old(sink)@,
                *final(self),
                final(sink)@,
                passphrase@,
                codec::text_view(usb_partition_uuid),
                codec::bytes_view(usb_keyfile),
                params,
                result,
            ),
            old(self).inits_surely() && model::has_room(old(self).state()) ==> !(
            result matches Err(EngineError::Store(_))),
    {
        let mut passphrase = passphrase;
        let mut usb_keyfile = usb_keyfile;
        let result: Result<(), EngineError> = self.build_vault(
            passphrase.as_str(),
            &usb_partition_uuid,
            &usb_keyfile,
            params,
            sink,
        );
        wipe_text(&mut passphrase);
        match &mut usb_keyfile {
            Some(keyfile) => {
                wipe_bytes(keyfile);
            },
            None => {},
        }
        result
    }

    fn build_vault(
        &mut self,
        passphrase: &str,
        usb_partition_uuid: &Option<String>,
        usb_keyfile: &Option<Vec<u8>>,
        params: Argon2Params,
        sink: &mut EventSink,
    ) -> (result: Result<(), EngineError>)
        requires
            model::init_refusal(
                old(self).state().store,
                params,
                usb_partition_uuid is Some,
                usb_keyfile is Some,
            ) is None ==> crate::keyslot::argon2_admissible(params) && vstd::utf8::encode_utf8(
                passphrase@,
            ).len() <= ARGON2_MAX_INPUT_LEN,
        ensures
            Self::init_outcome(
                *old(self),
                old(sink)@,
                *final(self),
                final(sink)@,
                passphrase@,
                codec::text_view(*usb_partition_uuid),
                codec::bytes_view(*usb_keyfile),
                params,
                result,
            ),
    {
        match self.store.get_meta("vault.header_mac") {
            Ok(Some(_)) => {
                return Err(EngineError::AlreadyInitialized);
            },
            Ok(None) => {},
            Err(e) => {
                return Err(EngineError::Store(e));
            },
        }
        if params.m_kib < ARGON2_M_KIB_FLOOR {
            return Err(
                EngineError::Argon2MemoryBelowFloor {
                    m_kib: params.m_kib,
                    floor: ARGON2_M_KIB_FLOOR,
                },
            );
        }
        if params.t_cost < ARGON2_T_COST_FLOOR {
            return Err(
                EngineError::Argon2TimeBelowFloor {
                    t_cost: params.t_cost,
                    floor: ARGON2_T_COST_FLOOR,
                },
            );
        }
        if usb_keyfile.is_some() && usb_partition_uuid.is_none() {
            return Err(EngineError::UsbPartitionMissing);
        }
        let now: Timestamp = self.clock.now();
        let floor_ms: i64 = now.ms;
        assert(crate::seam::told(&self.clock, now));
        let material: Material = match draw_material(usb_keyfile.is_some()) {
            Ok(material) => material,
            Err(e) => {
                return Err(e);
            },
        };
        let ghost m = material@;
        let slots: Vec<Keyslot> = enroll(
            &material,
            passphrase,
            usb_partition_uuid,
            usb_keyfile,
            params,
        );
        let done: Result<(), EngineError> = self.commit_vault(
            &material.dek,
            slots.as_slice(),
            floor_ms,
            sink,
        );
        proof {
            assert(crate::seam::timed(&old(self).clock_seam(), floor_ms));
            if done is Ok {
                assert(model::created(
                    old(self).state(),
                    old(sink)@,
                    self.state(),
                    sink@,
                    m,
                    passphrase@,
                    codec::text_view(*usb_partition_uuid),
                    codec::bytes_view(*usb_keyfile),
                    params,
                    floor_ms,
                ));
            }
        }
        done
    }
}

/// A new vault whose anchor failed is unfinished.
proof fn lemma_anchor_unfinished(
    s: EngineView,
    before: Seq<EventView>,
    logged: EngineView,
    t: EngineView,
    after: Seq<EventView>,
    dek: Seq<u8>,
    slots: Seq<SlotView>,
    floor_ms: i64,
)
    requires
        model::recorded(
            EngineView { store: model::with_header(s.store, dek, slots, floor_ms), ..s },
            before,
            logged,
            after,
            model::init_entry(slots.len()),
            Seq::empty(),
        ),
        t == logged || t == (EngineView {
            store: model::anchored(logged.store, Some(dek)),
            ..logged
        }),
    ensures
        model::anchor_unfinished(s, before, t, after, dek, slots, floor_ms),
{
    lemma_header_keeps_audit(s.store, dek, slots, floor_ms);
    let headed = EngineView { store: model::with_header(s.store, dek, slots, floor_ms), ..s };
    let entry = model::init_entry(slots.len());
    let written = model::noted(headed, entry, model::last_ts(t));
    let mirror = model::mirrored(headed, entry, model::last_ts(t));
    assert(after =~= before.push(mirror));
    if t != logged {
        let key = model::audit_head_key();
        let text = codec::hex_text(crate::vault::audit::tail_mac(dek, written.store.audit));
        assert(logged.store.meta.insert(key, text) =~= written.store.meta.insert(key, text));
        assert(t.store == model::anchored(written.store, Some(dek)));
    }
}

/// Slots and header leave secrets, row ids and the audit log alone.
pub proof fn lemma_slots_keep_audit(store: crate::vault::store::StoreView, slots: Seq<SlotView>)
    ensures
        model::with_slots(store, slots).audit == store.audit,
        model::with_slots(store, slots).secrets == store.secrets,
        model::with_slots(store, slots).next_row_id == store.next_row_id,
        model::with_slots(store, slots).meta == store.meta,
    decreases slots.len(),
{
    if slots.len() > 0 {
        lemma_slots_keep_audit(store, slots.drop_last());
    }
}

/// Slots and header leave secrets, row ids and the audit log alone.
pub proof fn lemma_header_keeps_audit(
    store: crate::vault::store::StoreView,
    dek: Seq<u8>,
    slots: Seq<SlotView>,
    floor_ms: i64,
)
    ensures
        model::with_header(store, dek, slots, floor_ms).audit == store.audit,
        model::with_header(store, dek, slots, floor_ms).secrets == store.secrets,
        model::with_header(store, dek, slots, floor_ms).next_row_id == store.next_row_id,
        model::with_header(store, dek, slots, floor_ms).slots == model::with_slots(
            store,
            slots,
        ).slots,
{
    lemma_slots_keep_audit(store, slots);
}

} // verus!
