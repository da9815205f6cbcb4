//! Dual-KEK keyslots: the data key is wrapped under a USB-keyfile key and under a passphrase key,
//! so the one vault opens with either factor. Keys are wiped from memory when they are dropped, and
//! never serialized.
use vstd::prelude::*;
use crate::codec::{
    push_be32, push_be64, push_be_i64, push_optional_text, push_prefixed,
};
use crate::entropy::random_bytes;
use crate::error::EngineError;
use crate::primitives::{
    argon2id, ct_eq, derive_key, hkdf, keyed_hash, to_array32, wipe_bytes, wipe_key,
    ARGON2_MAX_INPUT_LEN, ARGON2_MAX_LANES, ARGON2_MIN_SALT_LEN, NONCE_LEN,
};
use crate::vault::crypto::{open_with, seal_with};

verus! {

/// Data-encryption key, the root of the at-rest envelope. Wiped when dropped.
pub struct Dek(pub [u8; 32]);

/// Key-encryption key derived from one unlock factor. Wrapping and unwrapping consume it. Wiped
/// when dropped.
pub struct Kek(pub [u8; 32]);

impl View for Dek {
    type V = Seq<u8>;

    open spec fn view(&self) -> Seq<u8> {
        self.0@
    }
}

impl View for Kek {
    type V = Seq<u8>;

    open spec fn view(&self) -> Seq<u8> {
        self.0@
    }
}

impl Dek {
    /// Overwrites the key with zeros.
    pub fn wipe(&mut self)
        ensures
            final(self)@ == Seq::new(32, |i: int| 0u8),
        opens_invariants none
        no_unwind
    {
        wipe_key(&mut self.0);
    }
}

impl Drop for Dek {
    /// A key that goes out of scope is overwritten first.
    fn drop(&mut self)
        opens_invariants none
        no_unwind
    {
        self.wipe();
    }
}

impl Kek {
    /// Overwrites the key with zeros.
    pub fn wipe(&mut self)
        ensures
            final(self)@ == Seq::new(32, |i: int| 0u8),
        opens_invariants none
        no_unwind
    {
        wipe_key(&mut self.0);
    }
}

impl Drop for Kek {
    /// A key that goes out of scope is overwritten first.
    fn drop(&mut self)
        opens_invariants none
        no_unwind
    {
        self.wipe();
    }
}

/// What unlocks a keyslot.
#[derive(Clone, Copy, Debug, PartialEq, Eq, Structural)]
pub enum Factor {
    Usb,
    Passphrase,
    /// Both factors are needed to unwrap the data key.
    RequireBoth,
}

/// Cost parameters of Argon2id.
#[derive(Clone, Copy, Debug, PartialEq, Eq, Structural)]
pub struct Argon2Params {
    pub m_kib: u32,
    pub t_cost: u32,
    pub p_lanes: u32,
}

impl Default for Argon2Params {
    fn default() -> (params: Self)
        ensures
            params == (Argon2Params { m_kib: 1_048_576, t_cost: 4, p_lanes: 4 }),
    {
        Argon2Params { m_kib: 1_048_576, t_cost: 4, p_lanes: 4 }
    }
}

/// How the key-encryption key of a slot is derived.
#[derive(Clone, Copy, Debug, PartialEq, Eq, Structural)]
pub enum Kdf {
    Argon2id(Argon2Params),
    HkdfSha256,
}

/// Memory floor of 256 MiB: a slot whose parameters fall below is refused.
pub const ARGON2_M_KIB_FLOOR: u32 = 262_144;

/// Iteration floor: a slot whose parameters fall below is refused.
pub const ARGON2_T_COST_FLOOR: u32 = 1;

/// One wrapped copy of the data key.
#[derive(Clone, Debug)]
pub struct Keyslot {
    pub id: i64,
    pub factor: Factor,
    pub label: String,
    pub kdf: Kdf,
    pub salt: Vec<u8>,
    /// Partition of the key device, for a USB slot.
    pub usb_partition_uuid: Option<String>,
    pub wrap_nonce: Vec<u8>,
    pub wrapped_dek: Vec<u8>,
    pub dek_generation: i64,
    pub enabled: bool,
}

/// What a keyslot holds.
#[verifier::ext_equal]
pub struct SlotView {
    pub id: i64,
    pub factor: Factor,
    pub label: Seq<char>,
    pub kdf: Kdf,
    pub salt: Seq<u8>,
    pub usb_partition_uuid: Option<Seq<char>>,
    pub wrap_nonce: Seq<u8>,
    pub wrapped_dek: Seq<u8>,
    pub dek_generation: i64,
    pub enabled: bool,
}

impl View for Keyslot {
    type V = SlotView;

    open spec fn view(&self) -> SlotView {
        SlotView {
            id: self.id,
            factor: self.factor,
            label: self.label@,
            kdf: self.kdf,
            salt: self.salt@,
            usb_partition_uuid: crate::codec::text_view(self.usb_partition_uuid),
            wrap_nonce: self.wrap_nonce@,
            wrapped_dek: self.wrapped_dek@,
            dek_generation: self.dek_generation,
            enabled: self.enabled,
        }
    }
}

impl Keyslot {
    /// Another keyslot with the same contents.
    pub fn duplicate(&self) -> (copy: Keyslot)
        ensures
            copy@ == self@,
    {
        Keyslot {
            id: self.id,
            factor: self.factor,
            label: self.label.clone(),
            kdf: self.kdf,
            salt: crate::codec::copy_bytes(self.salt.as_slice()),
            usb_partition_uuid: crate::codec::copy_optional_text(&self.usb_partition_uuid),
            wrap_nonce: crate::codec::copy_bytes(self.wrap_nonce.as_slice()),
            wrapped_dek: crate::codec::copy_bytes(self.wrapped_dek.as_slice()),
            dek_generation: self.dek_generation,
            enabled: self.enabled,
        }
    }
}

/// What each of a list of keyslots holds.
pub open spec fn slot_views(slots: Seq<Keyslot>) -> Seq<SlotView> {
    slots.map_values(|s: Keyslot| s@)
}

/// The number that stands for a factor.
pub open spec fn factor_code(factor: Factor) -> u8 {
    match factor {
        Factor::Usb => 1,
        Factor::Passphrase => 2,
        Factor::RequireBoth => 3,
    }
}

/// A derivation and its parameters in thirteen bytes.
pub open spec fn kdf_bytes(kdf: Kdf) -> Seq<u8> {
    match kdf {
        Kdf::Argon2id(p) => seq![1u8] + (crate::codec::be32(p.m_kib) + (crate::codec::be32(p.t_cost)
            + crate::codec::be32(p.p_lanes))),
        Kdf::HkdfSha256 => seq![2u8] + (crate::codec::be32(0) + (crate::codec::be32(0)
            + crate::codec::be32(0))),
    }
}

/// Canonical bytes of the fields that determine the derivation and the identity of a slot.
pub open spec fn keyslot_aad_bytes(slot: SlotView) -> Seq<u8> {
    crate::codec::be_i64(slot.id) + (seq![factor_code(slot.factor)] + (kdf_bytes(slot.kdf) + (
    crate::codec::prefixed(slot.salt) + (crate::codec::optional_text(slot.usb_partition_uuid)
        + crate::codec::be_i64(slot.dek_generation)))))
}

fn push_kdf(out: &mut Vec<u8>, kdf: Kdf)
    ensures
        final(out)@ == old(out)@ + kdf_bytes(kdf),
{
    match kdf {
        Kdf::Argon2id(p) => {
            out.push(1u8);
            push_be32(out, p.m_kib);
            push_be32(out, p.t_cost);
            push_be32(out, p.p_lanes);
        },
        Kdf::HkdfSha256 => {
            out.push(2u8);
            push_be32(out, 0);
            push_be32(out, 0);
            push_be32(out, 0);
        },
    }
    assert(out@ =~= old(out)@ + kdf_bytes(kdf));
}

/// Appends the number that stands for a factor.
pub fn push_factor(out: &mut Vec<u8>, factor: Factor)
    ensures
        final(out)@ == old(out)@ + seq![factor_code(factor)],
{
    match factor {
        Factor::Usb => {
            out.push(1u8);
        },
        Factor::Passphrase => {
            out.push(2u8);
        },
        Factor::RequireBoth => {
            out.push(3u8);
        },
    }
    assert(out@ =~= old(out)@ + seq![factor_code(factor)]);
}

/// Binds all fields of a slot that determine the derivation of its key and its identity.
pub fn keyslot_aad(slot: &Keyslot) -> (aad: Vec<u8>)
    ensures
        aad@ == keyslot_aad_bytes(slot@),
{
    let mut aad: Vec<u8> = Vec::new();
    push_be_i64(&mut aad, slot.id);
    push_factor(&mut aad, slot.factor);
    push_kdf(&mut aad, slot.kdf);
    push_prefixed(&mut aad, slot.salt.as_slice());
    push_optional_text(&mut aad, &slot.usb_partition_uuid);
    push_be_i64(&mut aad, slot.dek_generation);
    proof {
        let id = crate::codec::be_i64(slot.id);
        let factor = seq![factor_code(slot.factor)];
        let kdf = kdf_bytes(slot.kdf);
        let salt = crate::codec::prefixed(slot.salt@);
        let uuid = crate::codec::optional_text(slot@.usb_partition_uuid);
        let generation = crate::codec::be_i64(slot.dek_generation);
        assert(Seq::<u8>::empty() + id =~= id);
        crate::codec::lemma_assoc(id + factor + kdf + salt, uuid, generation);
        crate::codec::lemma_assoc(id + factor + kdf, salt, uuid + generation);
        crate::codec::lemma_assoc(id + factor, kdf, salt + (uuid + generation));
        crate::codec::lemma_assoc(id, factor, kdf + (salt + (uuid + generation)));
    }
    aad
}

/// Whether Argon2 takes the parameters at all.
pub open spec fn argon2_admissible(p: Argon2Params) -> bool {
    &&& 1 <= p.t_cost
    &&& 1 <= p.p_lanes <= ARGON2_MAX_LANES
    &&& 8 * p.p_lanes <= p.m_kib
}

/// Whether the parameters reach both floors.
pub open spec fn argon2_at_floor(p: Argon2Params) -> bool {
    &&& p.m_kib >= ARGON2_M_KIB_FLOOR
    &&& p.t_cost >= ARGON2_T_COST_FLOOR
}

/// Whether Argon2 takes a salt of this length.
pub open spec fn argon2_salt(salt: Seq<u8>) -> bool {
    ARGON2_MIN_SALT_LEN <= salt.len() <= ARGON2_MAX_INPUT_LEN
}

/// The context that separates the USB key derivation from every other use of HKDF.
pub open spec fn usb_kek_info() -> Seq<u8> {
    vstd::utf8::encode_utf8("env-ctl/v1/kek/usb"@)
}

/// The key that a keyfile gives for a salt.
pub open spec fn usb_kek(keyfile: Seq<u8>, salt: Seq<u8>) -> Seq<u8> {
    crate::primitives::hkdf_sha256(salt, keyfile, usb_kek_info())
}

/// The key that a passphrase gives for a salt.
pub open spec fn passphrase_kek(passphrase: Seq<u8>, salt: Seq<u8>, p: Argon2Params) -> Seq<u8> {
    crate::primitives::argon2id_v13(passphrase, salt, p.m_kib, p.t_cost, p.p_lanes)
}

/// HKDF-SHA256 of the keyfile.
pub fn kek_from_usb(keyfile: &[u8], salt: &[u8]) -> (kek: Kek)
    ensures
        kek@ == usb_kek(keyfile@, salt@),
{
    Kek(hkdf(salt, keyfile, "env-ctl/v1/kek/usb".as_bytes()))
}

/// Argon2id, version 0x13, of the passphrase.
pub fn kek_from_passphrase(passphrase: &[u8], salt: &[u8], p: Argon2Params) -> (kek: Kek)
    requires
        argon2_admissible(p),
        argon2_salt(salt@),
        passphrase@.len() <= ARGON2_MAX_INPUT_LEN,
    ensures
        kek@ == passphrase_kek(passphrase@, salt@, p),
{
    Kek(argon2id(passphrase, salt, p.m_kib, p.t_cost, p.p_lanes))
}

/// Wraps the data key under a key-encryption key and a given nonce.
pub fn wrap_dek_with(kek: Kek, dek: &Dek, nonce: &[u8], aad: &[u8]) -> (wrapped: Vec<u8>)
    requires
        nonce@.len() == NONCE_LEN,
    ensures
        crate::vault::crypto::is_sealed(kek@, nonce@, aad@, dek@, wrapped@),
{
    seal_with(&kek.0, nonce, aad, dek.0.as_slice())
}

/// Wraps the data key under a key-encryption key, which is consumed; gives the fresh nonce and the
/// ciphertext with its tag. The tag is what tells a right key from a wrong one. It fails only where
/// the operating system gives no nonce.
pub fn wrap_dek(kek: Kek, dek: &Dek, aad: &[u8]) -> (wrapped: Result<
    (Vec<u8>, Vec<u8>),
    EngineError,
>)
    ensures
        match wrapped {
            Ok((nonce, ct_tag)) => {
                &&& crate::vault::crypto::is_sealed(kek@, nonce@, aad@, dek@, ct_tag@)
                &&& crate::entropy::drawn(NONCE_LEN, nonce@)
            },
            Err(e) => e == EngineError::EntropyUnavailable && crate::entropy::none_drawn(NONCE_LEN),
        },
{
    match random_bytes(NONCE_LEN) {
        Ok(nonce) => {
            let ct_tag: Vec<u8> = wrap_dek_with(kek, dek, nonce.as_slice(), aad);
            Ok((nonce, ct_tag))
        },
        Err(e) => Err(e),
    }
}

/// The data key that a wrapped copy holds for a key-encryption key.
pub open spec fn unwrapped(
    kek: Seq<u8>,
    nonce: Seq<u8>,
    aad: Seq<u8>,
    wrapped: Seq<u8>,
) -> Option<Seq<u8>> {
    match crate::vault::crypto::opened(kek, nonce, aad, wrapped) {
        Some(key) => if key.len() == 32 {
            Some(key)
        } else {
            None
        },
        None => None,
    }
}

/// What an optional data key holds.
pub open spec fn dek_view(dek: Option<Dek>) -> Option<Seq<u8>> {
    match dek {
        Some(d) => Some(d@),
        None => None,
    }
}

/// Unwraps the data key and consumes the key-encryption key. `None` where the tag does not match:
/// the presented factor is wrong.
pub fn unwrap_dek(kek: Kek, nonce: &[u8], wrapped: &[u8], aad: &[u8]) -> (dek: Option<Dek>)
    ensures
        dek_view(dek) == unwrapped(kek@, nonce@, aad@, wrapped@),
{
    let opened: Option<Vec<u8>> = open_with(&kek.0, aad, nonce, wrapped);
    match opened {
        Some(bytes) => {
            let mut bytes = bytes;
            let dek: Option<Dek> = if bytes.len() == 32 {
                Some(Dek(to_array32(bytes.as_slice())))
            } else {
                None
            };
            wipe_bytes(&mut bytes);
            dek
        },
        None => None,
    }
}

/// The parameters under which a passphrase may be tried on a slot: the slot is enabled and of that
/// factor, and its derivation is Argon2id at or above the floors with admissible parameters.
pub open spec fn passphrase_slot(slot: SlotView) -> Option<Argon2Params> {
    match slot.kdf {
        Kdf::Argon2id(p) => if slot.enabled && slot.factor == Factor::Passphrase
            && argon2_at_floor(p) && argon2_admissible(p) && argon2_salt(slot.salt) {
            Some(p)
        } else {
            None
        },
        Kdf::HkdfSha256 => None,
    }
}

/// The data key that a passphrase recovers from one slot.
pub open spec fn passphrase_opens(slot: SlotView, passphrase: Seq<u8>) -> Option<Seq<u8>> {
    match passphrase_slot(slot) {
        Some(p) => if passphrase.len() <= ARGON2_MAX_INPUT_LEN {
            unwrapped(
                passphrase_kek(passphrase, slot.salt, p),
                slot.wrap_nonce,
                keyslot_aad_bytes(slot),
                slot.wrapped_dek,
            )
        } else {
            None
        },
        None => None,
    }
}

/// The partition on which the keyfile of a slot has to be found, if the slot is an enabled USB
/// slot that names one.
pub open spec fn usb_slot(slot: SlotView) -> Option<Seq<char>> {
    if slot.enabled && slot.factor == Factor::Usb {
        slot.usb_partition_uuid
    } else {
        None
    }
}

/// The data key that a keyfile recovers from one slot. Naming the partition is not possession:
/// without the keyfile there is no key.
pub open spec fn keyfile_opens(slot: SlotView, keyfile: Option<Seq<u8>>) -> Option<Seq<u8>> {
    match (usb_slot(slot), keyfile) {
        (Some(_), Some(k)) => unwrapped(
            usb_kek(k, slot.salt),
            slot.wrap_nonce,
            keyslot_aad_bytes(slot),
            slot.wrapped_dek,
        ),
        _ => None,
    }
}

/// The data key from the first slot that the passphrase opens.
pub open spec fn passphrase_recovers(slots: Seq<SlotView>, passphrase: Seq<u8>) -> Option<Seq<u8>>
    decreases slots.len(),
{
    if slots.len() == 0 {
        None
    } else {
        match passphrase_opens(slots[0], passphrase) {
            Some(dek) => Some(dek),
            None => passphrase_recovers(slots.drop_first(), passphrase),
        }
    }
}

/// The data key from the first slot that its keyfile opens; `keyfiles[i]` is what the probe had
/// for slot `i`.
pub open spec fn keyfiles_recover(
    slots: Seq<SlotView>,
    keyfiles: Seq<Option<Seq<u8>>>,
) -> Option<Seq<u8>>
    decreases slots.len(),
{
    if slots.len() == 0 || keyfiles.len() == 0 {
        None
    } else {
        match keyfile_opens(slots[0], keyfiles[0]) {
            Some(dek) => Some(dek),
            None => keyfiles_recover(slots.drop_first(), keyfiles.drop_first()),
        }
    }
}

/// Tries a passphrase on one slot. A slot with foreign, too weak or impossible parameters is
/// passed over.
pub fn try_passphrase(slot: &Keyslot, passphrase: &[u8]) -> (dek: Option<Dek>)
    ensures
        dek_view(dek) == passphrase_opens(slot@, passphrase@),
{
    if !slot.enabled || slot.factor != Factor::Passphrase {
        return None;
    }
    let p: Argon2Params = match slot.kdf {
        Kdf::Argon2id(p) => p,
        Kdf::HkdfSha256 => {
            return None;
        },
    };
    if p.m_kib < ARGON2_M_KIB_FLOOR || p.t_cost < ARGON2_T_COST_FLOOR || p.p_lanes < 1 || p.p_lanes
        > ARGON2_MAX_LANES || p.m_kib < 8 * p.p_lanes {
        return None;
    }
    let salt_len: usize = slot.salt.len();
    let passphrase_len: usize = passphrase.len();
    if salt_len < ARGON2_MIN_SALT_LEN || salt_len as u64 > ARGON2_MAX_INPUT_LEN
        || passphrase_len as u64 > ARGON2_MAX_INPUT_LEN {
        return None;
    }
    let kek: Kek = kek_from_passphrase(passphrase, slot.salt.as_slice(), p);
    let aad: Vec<u8> = keyslot_aad(slot);
    unwrap_dek(kek, slot.wrap_nonce.as_slice(), slot.wrapped_dek.as_slice(), aad.as_slice())
}

/// Tries a keyfile on one slot.
pub fn try_keyfile(slot: &Keyslot, keyfile: &[u8]) -> (dek: Option<Dek>)
    ensures
        dek_view(dek) == keyfile_opens(slot@, Some(keyfile@)),
{
    if !slot.enabled || slot.factor != Factor::Usb || slot.usb_partition_uuid.is_none() {
        return None;
    }
    let kek: Kek = kek_from_usb(keyfile, slot.salt.as_slice());
    let aad: Vec<u8> = keyslot_aad(slot);
    unwrap_dek(kek, slot.wrap_nonce.as_slice(), slot.wrapped_dek.as_slice(), aad.as_slice())
}

/// Recovers the data key with a passphrase from the first slot that it opens.
pub fn recover_by_passphrase(slots: &[Keyslot], passphrase: &[u8]) -> (dek: Option<Dek>)
    ensures
        dek_view(dek) == passphrase_recovers(slot_views(slots@), passphrase@),
{
    let ghost views = slot_views(slots@);
    let mut i: usize = 0;
    assert(views.skip(0) =~= views);
    while i < slots.len()
        invariant
            i <= slots@.len(),
            views == slot_views(slots@),
            passphrase_recovers(views, passphrase@) == passphrase_recovers(
                views.skip(i as int),
                passphrase@,
            ),
        decreases slots@.len() - i,
    {
        assert(views.skip(i as int)[0] == slots@[i as int]@);
        assert(views.skip(i as int).drop_first() =~= views.skip(i + 1));
        let dek: Option<Dek> = try_passphrase(&slots[i], passphrase);
        if dek.is_some() {
            return dek;
        }
        i = i + 1;
    }
    None
}

/// The place of a slot among slots ordered by id: behind every slot with an id that is not larger.
pub open spec fn insert_by_id(sorted: Seq<SlotView>, slot: SlotView) -> Seq<SlotView>
    decreases sorted.len(),
{
    if sorted.len() == 0 || sorted.last().id <= slot.id {
        sorted.push(slot)
    } else {
        insert_by_id(sorted.drop_last(), slot).push(sorted.last())
    }
}

/// The slots ordered by id.
pub open spec fn by_id(slots: Seq<SlotView>) -> Seq<SlotView>
    decreases slots.len(),
{
    if slots.len() == 0 {
        slots
    } else {
        insert_by_id(by_id(slots.drop_last()), slots.last())
    }
}

/// What the header MAC covers of one slot.
pub open spec fn slot_entry(slot: SlotView) -> Seq<u8> {
    crate::codec::prefixed(keyslot_aad_bytes(slot)) + (seq![
        if slot.enabled {
            1u8
        } else {
            0u8
        },
    ] + (crate::codec::prefixed(slot.wrap_nonce) + crate::codec::prefixed(slot.wrapped_dek)))
}

/// What the header MAC covers of a list of slots.
pub open spec fn slot_entries(slots: Seq<SlotView>) -> Seq<u8>
    decreases slots.len(),
{
    if slots.len() == 0 {
        Seq::<u8>::empty()
    } else {
        slot_entries(slots.drop_last()) + slot_entry(slots.last())
    }
}

/// The message under the header MAC: a domain prefix, the issuance floor, the number of slots, and
/// the slots ordered by id.
pub open spec fn header_message(slots: Seq<SlotView>, issuance_floor_ms: i64) -> Seq<u8> {
    vstd::utf8::encode_utf8("env-ctl/v1/header-mac"@) + (crate::codec::be_i64(issuance_floor_ms) + (
    crate::codec::be64(slots.len() as u64) + slot_entries(by_id(slots))))
}

/// The MAC over the keyslot set and the issuance floor, under a key derived from the data key.
pub open spec fn header_mac_bytes(
    dek: Seq<u8>,
    slots: Seq<SlotView>,
    issuance_floor_ms: i64,
) -> Seq<u8> {
    crate::primitives::blake3_keyed_hash(
        crate::primitives::blake3_derive_key("env-ctl/v1/header-mac/key"@, dek),
        header_message(slots, issuance_floor_ms),
    )
}

proof fn lemma_insert_position(sorted: Seq<SlotView>, slot: SlotView, at: int)
    requires
        0 <= at <= sorted.len(),
        at == 0 || sorted[at - 1].id <= slot.id,
        forall|i: int| at <= i < sorted.len() ==> (#[trigger] sorted[i]).id > slot.id,
    ensures
        insert_by_id(sorted, slot) == sorted.insert(at, slot),
    decreases sorted.len(),
{
    if at == sorted.len() {
        assert(sorted.insert(at, slot) =~= sorted.push(slot));
    } else {
        let shorter = sorted.drop_last();
        assert(sorted.last().id > slot.id);
        lemma_insert_position(shorter, slot, at);
        assert(sorted.insert(at, slot) =~= shorter.insert(at, slot).push(sorted.last()));
    }
}

fn push_slot_entry(out: &mut Vec<u8>, slot: &Keyslot)
    ensures
        final(out)@ == old(out)@ + slot_entry(slot@),
{
    let aad: Vec<u8> = keyslot_aad(slot);
    push_prefixed(out, aad.as_slice());
    out.push(
        if slot.enabled {
            1u8
        } else {
            0u8
        },
    );
    push_prefixed(out, slot.wrap_nonce.as_slice());
    push_prefixed(out, slot.wrapped_dek.as_slice());
    assert(out@ =~= old(out)@ + slot_entry(slot@));
}

/// The slots that a list of indices picks.
pub open spec fn picked(slots: Seq<Keyslot>, order: Seq<usize>) -> Seq<SlotView> {
    Seq::new(order.len(), |i: int| slots[order[i] as int]@)
}

/// The indices of the slots in the order of their ids.
fn order_by_id(slots: &[Keyslot]) -> (order: Vec<usize>)
    ensures
        order@.len() == slots@.len(),
        forall|i: int| 0 <= i < order@.len() ==> #[trigger] order@[i] < slots@.len(),
        picked(slots@, order@) == by_id(slot_views(slots@)),
{
    let ghost views = slot_views(slots@);
    let mut order: Vec<usize> = Vec::new();
    let mut k: usize = 0;
    proof {
        assert(views.take(0) =~= Seq::<SlotView>::empty());
        assert(picked(slots@, order@) =~= by_id(views.take(0)));
    }
    while k < slots.len()
        invariant
            k <= slots@.len(),
            views == slot_views(slots@),
            order@.len() == k,
            forall|i: int| 0 <= i < order@.len() ==> #[trigger] order@[i] < slots@.len(),
            picked(slots@, order@) == by_id(views.take(k as int)),
        decreases slots@.len() - k,
    {
        let ghost sorted = picked(slots@, order@);
        let id: i64 = slots[k].id;
        let mut at: usize = k;
        while at > 0 && slots[order[at - 1]].id > id
            invariant
                at <= k,
                k < slots@.len(),
                order@.len() == k,
                id == slots@[k as int].id,
                sorted == picked(slots@, order@),
                forall|i: int| 0 <= i < order@.len() ==> #[trigger] order@[i] < slots@.len(),
                forall|i: int| at <= i < k ==> (#[trigger] sorted[i]).id > id,
            decreases at,
        {
            assert(sorted[at - 1] == slots@[order@[at - 1] as int]@);
            at = at - 1;
        }
        proof {
            let slot = views[k as int];
            if at > 0 {
                assert(sorted[at - 1] == slots@[order@[at - 1] as int]@);
            }
            lemma_insert_position(sorted, slot, at as int);
            assert(views.take(k + 1).drop_last() =~= views.take(k as int));
            assert(views.take(k + 1).last() == slot);
        }
        let ghost before = order@;
        order.insert(at, k);
        proof {
            assert(picked(slots@, order@) =~= sorted.insert(at as int, views[k as int]));
            assert forall|i: int| 0 <= i < order@.len() implies #[trigger] order@[i]
                < slots@.len() by {
                if i < at {
                    assert(order@[i] == before[i]);
                } else if i > at {
                    assert(order@[i] == before[i - 1]);
                }
            }
        }
        k = k + 1;
    }
    assert(views.take(k as int) =~= views);
    order
}

/// Vault header MAC over the keyslot set and the issuance floor.
pub fn header_mac(dek: &Dek, slots: &[Keyslot], issuance_floor_ms: i64) -> (mac: Vec<u8>)
    ensures
        mac@ == header_mac_bytes(dek@, slot_views(slots@), issuance_floor_ms),
        mac@.len() == 32,
{
    let mut msg: Vec<u8> = Vec::new();
    crate::codec::push_bytes(&mut msg, "env-ctl/v1/header-mac".as_bytes());
    push_be_i64(&mut msg, issuance_floor_ms);
    let n: usize = slots.len();
    push_be64(&mut msg, n as u64);
    let order: Vec<usize> = order_by_id(slots);
    let ghost sorted = picked(slots@, order@);
    let ghost head = msg@;
    let mut i: usize = 0;
    proof {
        assert(sorted.take(0) =~= Seq::<SlotView>::empty());
        assert(msg@ =~= head + slot_entries(sorted.take(0)));
    }
    while i < order.len()
        invariant
            i <= order@.len(),
            sorted == picked(slots@, order@),
            forall|j: int| 0 <= j < order@.len() ==> #[trigger] order@[j] < slots@.len(),
            msg@ == head + slot_entries(sorted.take(i as int)),
        decreases order@.len() - i,
    {
        push_slot_entry(&mut msg, &slots[order[i]]);
        proof {
            assert(sorted.take(i + 1).drop_last() =~= sorted.take(i as int));
            assert(sorted.take(i + 1).last() == slots@[order@[i as int] as int]@);
            assert(msg@ =~= head + slot_entries(sorted.take(i + 1)));
        }
        i = i + 1;
    }
    proof {
        assert(sorted.take(i as int) =~= sorted);
        assert(msg@ =~= header_message(slot_views(slots@), issuance_floor_ms));
    }
    let mut key: [u8; 32] = derive_key("env-ctl/v1/header-mac/key", dek.0.as_slice());
    let mac: [u8; 32] = keyed_hash(&key, msg.as_slice());
    wipe_key(&mut key);
    crate::codec::copy_bytes(mac.as_slice())
}

/// Whether a stored MAC is the one over these slots and this floor, compared in constant time.
pub fn verify_header_mac(
    dek: &Dek,
    slots: &[Keyslot],
    issuance_floor_ms: i64,
    stored: &[u8],
) -> (ok: bool)
    ensures
        ok == (stored@ == header_mac_bytes(dek@, slot_views(slots@), issuance_floor_ms)),
{
    let mac: Vec<u8> = header_mac(dek, slots, issuance_floor_ms);
    ct_eq(mac.as_slice(), stored)
}

} // verus!
