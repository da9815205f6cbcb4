//! Which keys there are, what they come from, and what they open.
use vstd::prelude::*;
use crate::codec;
use crate::error::EngineError;
use crate::keyslot;
use crate::keyslot::{Argon2Params, Dek, Factor, Kdf, Kek, Keyslot, SlotView};
use crate::laws;
use crate::primitives;
use crate::vault::crypto;

verus! {

/// The longest ciphertext that is opened, with its tag.
pub open spec fn longest() -> int {
    0x3F_FFFF_FF10int
}

/// The key that a passphrase gives is Argon2id of all of its bytes, with the salt and parameters as
/// they were given.
pub proof fn law_passphrase_key_is_argon2id(
    passphrase: &[u8],
    salt: &[u8],
    p: Argon2Params,
    kek: Kek,
)
    requires
        call_ensures(keyslot::kek_from_passphrase, (passphrase, salt, p), kek),
    ensures
        kek.0@ == primitives::argon2id_v13(passphrase@, salt@, p.m_kib, p.t_cost, p.p_lanes),
{
}

/// The key that a keyfile gives is HKDF-SHA256 of all of its bytes, with the salt as it was given
/// and the purpose as the info.
pub proof fn law_keyfile_key_is_hkdf(keyfile: &[u8], salt: &[u8], kek: Kek)
    requires
        call_ensures(keyslot::kek_from_usb, (keyfile, salt), kek),
    ensures
        kek.0@ == primitives::hkdf_sha256(
            salt@,
            keyfile@,
            vstd::utf8::encode_utf8("env-ctl/v1/kek/usb"@),
        ),
{
}

/// A record is sealed as a whole under the key, the nonce and the associated data that go with it,
/// and opens again to all of it.
pub proof fn law_seal_is_the_cipher(
    dek: &Dek,
    aad: &[u8],
    plaintext: &[u8],
    nonce: Vec<u8>,
    ct_tag: Vec<u8>,
    opening_nonce: &[u8],
    opening: &[u8],
    back: Option<Vec<u8>>,
)
    requires
        call_ensures(
            crypto::seal,
            (dek, aad, plaintext),
            Ok::<(Vec<u8>, Vec<u8>), EngineError>((nonce, ct_tag)),
        ),
        opening_nonce@ == nonce@,
        opening@ == ct_tag@,
        call_ensures(crypto::open, (dek, aad, opening_nonce, opening), back),
    ensures
        nonce@.len() == 24,
        ct_tag@ == primitives::xchacha_seal(dek.0@, nonce@, aad@, plaintext@),
        ct_tag@.len() == plaintext@.len() + 16,
        back matches Some(b) && b@ == plaintext@,
{
}

/// What opens is what the cipher opens under the key, the nonce and the associated data that were
/// given, for every nonce of 24 bytes; and what it opens to is the plaintext as a whole.
pub proof fn law_open_is_the_cipher(
    dek: &Dek,
    aad: &[u8],
    nonce: &[u8],
    ct_tag: &[u8],
    plaintext: Option<Vec<u8>>,
)
    requires
        call_ensures(crypto::open, (dek, aad, nonce, ct_tag), plaintext),
    ensures
        plaintext matches Some(p) ==> primitives::xchacha_open(dek.0@, nonce@, aad@, ct_tag@)
            == Some(p@) && ct_tag@ == primitives::xchacha_seal(dek.0@, nonce@, aad@, p@),
        nonce@.len() == 24 && ct_tag@.len() <= longest() ==> (plaintext is Some
            <==> primitives::xchacha_open(dek.0@, nonce@, aad@, ct_tag@) is Some),
        nonce@.len() != 24 ==> plaintext is None,
{
}

/// A data key that was wrapped comes back whole, to whoever has the same key-encryption key and the
/// same associated data.
pub proof fn law_wrapped_key_comes_back(
    kek: Kek,
    dek: &Dek,
    aad: &[u8],
    nonce: Vec<u8>,
    ct_tag: Vec<u8>,
    again: Kek,
    opening_nonce: &[u8],
    opening: &[u8],
    back: Option<Dek>,
)
    requires
        call_ensures(
            keyslot::wrap_dek,
            (kek, dek, aad),
            Ok::<(Vec<u8>, Vec<u8>), EngineError>((nonce, ct_tag)),
        ),
        again.0@ == kek.0@,
        opening_nonce@ == nonce@,
        opening@ == ct_tag@,
        call_ensures(keyslot::unwrap_dek, (again, opening_nonce, opening, aad), back),
    ensures
        nonce@.len() == 24,
        ct_tag@ == primitives::xchacha_seal(kek.0@, nonce@, aad@, dek.0@),
        back matches Some(d) && d.0@ == dek.0@,
{
    assert(dek.0@.len() == 32);
}

/// Only what the cipher opens to 32 bytes is a data key, and all of it is.
pub proof fn law_unwrapping_is_the_cipher(
    kek: Kek,
    nonce: &[u8],
    wrapped: &[u8],
    aad: &[u8],
    dek: Option<Dek>,
)
    requires
        call_ensures(keyslot::unwrap_dek, (kek, nonce, wrapped, aad), dek),
    ensures
        dek matches Some(d) ==> primitives::xchacha_open(kek.0@, nonce@, aad@, wrapped@)
            == Some(d.0@),
        nonce@.len() == 24 && wrapped@.len() <= longest() ==> (dek is Some <==> (
        primitives::xchacha_open(kek.0@, nonce@, aad@, wrapped@) matches Some(key) && key.len()
            == 32)),
{
}

/// Whether a passphrase opens a slot to a key: the slot is an enabled passphrase slot, Argon2id
/// with its own salt and parameters, none of them below the floors, gives a key under which the
/// wrapped copy opens.
pub open spec fn passphrase_fits(slot: SlotView, passphrase: Seq<u8>, dek: Seq<u8>) -> bool {
    &&& slot.enabled
    &&& slot.factor == Factor::Passphrase
    &&& slot.kdf matches Kdf::Argon2id(p)
    &&& p.m_kib >= 262_144
    &&& p.t_cost >= 1
    &&& 1 <= p.p_lanes <= 0xFF_FFFF
    &&& p.m_kib >= 8 * p.p_lanes
    &&& 8 <= slot.salt.len() <= 0xFFFF_FFFF
    &&& passphrase.len() <= 0xFFFF_FFFF
    &&& slot.wrap_nonce.len() == 24
    &&& slot.wrapped_dek.len() <= longest()
    &&& dek.len() == 32
    &&& primitives::xchacha_open(
        primitives::argon2id_v13(passphrase, slot.salt, p.m_kib, p.t_cost, p.p_lanes),
        slot.wrap_nonce,
        keyslot::keyslot_aad_bytes(slot),
        slot.wrapped_dek,
    ) == Some(dek)
}

/// Whether a keyfile opens a slot to a key: the slot is an enabled USB slot with a partition, and
/// HKDF-SHA256 with its own salt gives a key under which the wrapped copy opens.
pub open spec fn keyfile_fits(slot: SlotView, keyfile: Seq<u8>, dek: Seq<u8>) -> bool {
    &&& slot.enabled
    &&& slot.factor == Factor::Usb
    &&& slot.usb_partition_uuid is Some
    &&& slot.wrap_nonce.len() == 24
    &&& slot.wrapped_dek.len() <= longest()
    &&& dek.len() == 32
    &&& primitives::xchacha_open(
        primitives::hkdf_sha256(slot.salt, keyfile, vstd::utf8::encode_utf8("env-ctl/v1/kek/usb"@)),
        slot.wrap_nonce,
        keyslot::keyslot_aad_bytes(slot),
        slot.wrapped_dek,
    ) == Some(dek)
}

pub proof fn lemma_passphrase_fits(slot: SlotView, passphrase: Seq<u8>, dek: Seq<u8>)
    ensures
        keyslot::passphrase_opens(slot, passphrase) == Some(dek) <==> passphrase_fits(
            slot,
            passphrase,
            dek,
        ),
{
}

pub proof fn lemma_keyfile_fits(slot: SlotView, keyfile: Seq<u8>, dek: Seq<u8>)
    ensures
        keyslot::keyfile_opens(slot, Some(keyfile)) == Some(dek) <==> keyfile_fits(
            slot,
            keyfile,
            dek,
        ),
{
}

/// A passphrase is tried on a slot with all of its bytes, and gives a key exactly where it fits.
pub proof fn law_trying_a_passphrase(
    slot: &Keyslot,
    passphrase: &[u8],
    dek: Option<Dek>,
    key: Seq<u8>,
)
    requires
        call_ensures(keyslot::try_passphrase, (slot, passphrase), dek),
    ensures
        (dek matches Some(d) && d.0@ == key) <==> passphrase_fits(slot@, passphrase@, key),
{
    lemma_passphrase_fits(slot@, passphrase@, key);
}

/// A keyfile is tried on a slot with all of its bytes, and gives a key exactly where it fits.
pub proof fn law_trying_a_keyfile(slot: &Keyslot, keyfile: &[u8], dek: Option<Dek>, key: Seq<u8>)
    requires
        call_ensures(keyslot::try_keyfile, (slot, keyfile), dek),
    ensures
        (dek matches Some(d) && d.0@ == key) <==> keyfile_fits(slot@, keyfile@, key),
{
    lemma_keyfile_fits(slot@, keyfile@, key);
}

/// Whether a slot is the first one that a passphrase fits.
pub open spec fn first_fit(
    slots: Seq<SlotView>,
    passphrase: Seq<u8>,
    i: int,
    dek: Seq<u8>,
) -> bool {
    &&& 0 <= i < slots.len()
    &&& passphrase_fits(slots[i], passphrase, dek)
    &&& forall|j: int, other: Seq<u8>|
        0 <= j < i ==> !#[trigger] passphrase_fits(slots[j], passphrase, other)
}

pub proof fn lemma_recovery_is_first_fit(slots: Seq<SlotView>, passphrase: Seq<u8>)
    ensures
        match keyslot::passphrase_recovers(slots, passphrase) {
            Some(dek) => exists|i: int| #[trigger] first_fit(slots, passphrase, i, dek),
            None => forall|i: int, dek: Seq<u8>|
                0 <= i < slots.len() ==> !#[trigger] passphrase_fits(slots[i], passphrase, dek),
        },
    decreases slots.len(),
{
    if slots.len() > 0 {
        let rest = slots.drop_first();
        assert forall|dek: Seq<u8>|
            keyslot::passphrase_opens(slots[0], passphrase) == Some(dek)
                <==> #[trigger] passphrase_fits(slots[0], passphrase, dek) by {
            lemma_passphrase_fits(slots[0], passphrase, dek);
        }
        match keyslot::passphrase_opens(slots[0], passphrase) {
            Some(dek) => {
                assert(first_fit(slots, passphrase, 0, dek));
            },
            None => {
                lemma_recovery_is_first_fit(rest, passphrase);
                match keyslot::passphrase_recovers(rest, passphrase) {
                    Some(dek) => {
                        let i = choose|i: int| #[trigger] first_fit(rest, passphrase, i, dek);
                        assert forall|j: int, other: Seq<u8>| 0 <= j < i + 1 implies
                            !#[trigger] passphrase_fits(slots[j], passphrase, other) by {
                            if j > 0 {
                                assert(slots[j] == rest[j - 1]);
                                assert(!passphrase_fits(rest[j - 1], passphrase, other));
                            }
                        }
                        assert(slots[i + 1] == rest[i]);
                        assert(first_fit(slots, passphrase, i + 1, dek));
                    },
                    None => {
                        assert forall|i: int, dek: Seq<u8>| 0 <= i < slots.len() implies
                            !#[trigger] passphrase_fits(slots[i], passphrase, dek) by {
                            if i > 0 {
                                assert(slots[i] == rest[i - 1]);
                                assert(!passphrase_fits(rest[i - 1], passphrase, dek));
                            }
                        }
                    },
                }
            },
        }
    }
}

/// A passphrase recovers the key of the first slot that it fits, and none where it fits no slot.
pub proof fn law_passphrase_recovers_the_first_fit(
    slots: &[Keyslot],
    passphrase: &[u8],
    dek: Option<Dek>,
)
    requires
        call_ensures(keyslot::recover_by_passphrase, (slots, passphrase), dek),
    ensures
        match dek {
            Some(d) => exists|i: int| #[trigger]
                first_fit(keyslot::slot_views(slots@), passphrase@, i, d.0@),
            None => forall|i: int, key: Seq<u8>|
                0 <= i < slots@.len() ==> !#[trigger] passphrase_fits(
                    keyslot::slot_views(slots@)[i],
                    passphrase@,
                    key,
                ),
        },
{
    lemma_recovery_is_first_fit(keyslot::slot_views(slots@), passphrase@);
}

/// Two slots have the same associated data exactly where they agree in id, factor, derivation,
/// salt, partition and generation. Where the wrapped key lies does not matter.
pub proof fn law_slot_aad_binds_identity(
    a: &Keyslot,
    b: &Keyslot,
    aad_a: Vec<u8>,
    aad_b: Vec<u8>,
)
    requires
        call_ensures(keyslot::keyslot_aad, (a,), aad_a),
        call_ensures(keyslot::keyslot_aad, (b,), aad_b),
        laws::keyslots::slot_fits(a@),
        laws::keyslots::slot_fits(b@),
    ensures
        aad_a@ == aad_b@ <==> {
            &&& a.id == b.id
            &&& a.factor == b.factor
            &&& a.kdf == b.kdf
            &&& a.salt@ == b.salt@
            &&& codec::text_view(a.usb_partition_uuid) == codec::text_view(b.usb_partition_uuid)
            &&& a.dek_generation == b.dek_generation
        },
{
    if aad_a@ == aad_b@ {
        laws::keyslots::law_keyslot_aad_binds(a@, b@);
    }
}

/// Whether two different keys open one text.
pub open spec fn opens_twice(
    k1: Seq<u8>,
    k2: Seq<u8>,
    nonce: Seq<u8>,
    aad: Seq<u8>,
    sealed: Seq<u8>,
) -> bool {
    &&& k1 != k2
    &&& primitives::xchacha_open(k1, nonce, aad, sealed) is Some
    &&& primitives::xchacha_open(k2, nonce, aad, sealed) is Some
}

/// Two passphrases that both open one slot are the same, or Argon2id gives one key for both, or the
/// cipher opens the wrapped key under two different keys.
pub proof fn law_one_slot_one_passphrase(
    slot: SlotView,
    p: Argon2Params,
    a: Seq<u8>,
    b: Seq<u8>,
)
    requires
        slot.kdf == Kdf::Argon2id(p),
        keyslot::passphrase_opens(slot, a) is Some,
        keyslot::passphrase_opens(slot, b) is Some,
    ensures
        ({
            let ka = primitives::argon2id_v13(a, slot.salt, p.m_kib, p.t_cost, p.p_lanes);
            let kb = primitives::argon2id_v13(b, slot.salt, p.m_kib, p.t_cost, p.p_lanes);
            ||| a == b
            ||| a != b && ka == kb
            ||| opens_twice(
                ka,
                kb,
                slot.wrap_nonce,
                keyslot::keyslot_aad_bytes(slot),
                slot.wrapped_dek,
            )
        }),
{
    lemma_passphrase_fits(slot, a, keyslot::passphrase_opens(slot, a).unwrap());
    lemma_passphrase_fits(slot, b, keyslot::passphrase_opens(slot, b).unwrap());
}

/// Two keyfiles that both open one slot are the same, or HKDF gives one key for both, or the cipher
/// opens the wrapped key under two different keys.
pub proof fn law_one_slot_one_keyfile(slot: SlotView, a: Seq<u8>, b: Seq<u8>)
    requires
        keyslot::keyfile_opens(slot, Some(a)) is Some,
        keyslot::keyfile_opens(slot, Some(b)) is Some,
    ensures
        ({
            let info = vstd::utf8::encode_utf8("env-ctl/v1/kek/usb"@);
            let ka = primitives::hkdf_sha256(slot.salt, a, info);
            let kb = primitives::hkdf_sha256(slot.salt, b, info);
            ||| a == b
            ||| a != b && ka == kb
            ||| opens_twice(
                ka,
                kb,
                slot.wrap_nonce,
                keyslot::keyslot_aad_bytes(slot),
                slot.wrapped_dek,
            )
        }),
{
    lemma_keyfile_fits(slot, a, keyslot::keyfile_opens(slot, Some(a)).unwrap());
    lemma_keyfile_fits(slot, b, keyslot::keyfile_opens(slot, Some(b)).unwrap());
}

} // verus!
