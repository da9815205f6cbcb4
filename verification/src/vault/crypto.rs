//! Sealing and opening of one record with XChaCha20-Poly1305, a random nonce of 24 bytes and
//! associated data.
use vstd::prelude::*;
use crate::entropy::random_bytes;
use crate::error::EngineError;
use crate::keyslot::Dek;
use crate::primitives::{aead_open, aead_seal, MAX_PLAINTEXT_LEN, NONCE_LEN, TAG_LEN};

verus! {

/// What opening gives: nothing for a nonce or a ciphertext of impossible length, else what the
/// cipher says.
pub open spec fn opened(key: Seq<u8>, nonce: Seq<u8>, aad: Seq<u8>, sealed: Seq<u8>) -> Option<
    Seq<u8>,
> {
    if nonce.len() == NONCE_LEN && sealed.len() <= MAX_PLAINTEXT_LEN + TAG_LEN {
        crate::primitives::xchacha_open(key, nonce, aad, sealed)
    } else {
        None
    }
}

/// Whether `sealed` is the plaintext sealed under the key, nonce and associated data, and opens
/// to it again.
pub open spec fn is_sealed(
    key: Seq<u8>,
    nonce: Seq<u8>,
    aad: Seq<u8>,
    plaintext: Seq<u8>,
    sealed: Seq<u8>,
) -> bool {
    &&& nonce.len() == NONCE_LEN
    &&& sealed == crate::primitives::xchacha_seal(key, nonce, aad, plaintext)
    &&& sealed.len() == plaintext.len() + TAG_LEN
    &&& opened(key, nonce, aad, sealed) == Some(plaintext)
}

/// Seals `plaintext` under a given nonce.
pub fn seal_with(key: &[u8; 32], nonce: &[u8], aad: &[u8], plaintext: &[u8]) -> (sealed: Vec<u8>)
    requires
        nonce@.len() == NONCE_LEN,
        plaintext@.len() <= MAX_PLAINTEXT_LEN,
    ensures
        is_sealed(key@, nonce@, aad@, plaintext@, sealed@),
{
    aead_seal(key, nonce, aad, plaintext)
}

/// Seals `plaintext` under the data key with the given associated data, and gives the fresh nonce
/// and the ciphertext with its tag. It fails only where the operating system gives no nonce.
pub fn seal(dek: &Dek, aad: &[u8], plaintext: &[u8]) -> (sealed: Result<
    (Vec<u8>, Vec<u8>),
    EngineError,
>)
    requires
        plaintext@.len() <= MAX_PLAINTEXT_LEN,
    ensures
        match sealed {
            Ok((nonce, ct_tag)) => {
                &&& is_sealed(dek@, nonce@, aad@, plaintext@, ct_tag@)
                &&& crate::entropy::drawn(NONCE_LEN, nonce@)
            },
            Err(e) => e == EngineError::EntropyUnavailable && crate::entropy::none_drawn(NONCE_LEN),
        },
{
    let nonce: Vec<u8> = match random_bytes(NONCE_LEN) {
        Ok(nonce) => nonce,
        Err(e) => {
            return Err(e);
        },
    };
    let ct_tag: Vec<u8> = seal_with(&dek.0, nonce.as_slice(), aad, plaintext);
    Ok((nonce, ct_tag))
}

/// Opens a sealed record. `None` where the tag does not match: the record was tampered with, or
/// the key or the associated data is another.
pub fn open(dek: &Dek, aad: &[u8], nonce: &[u8], ct_tag: &[u8]) -> (plaintext: Option<Vec<u8>>)
    ensures
        crate::codec::bytes_view(plaintext) == opened(dek@, nonce@, aad@, ct_tag@),
        plaintext matches Some(p) ==> is_sealed(dek@, nonce@, aad@, p@, ct_tag@),
{
    open_with(&dek.0, aad, nonce, ct_tag)
}

/// Opens what was sealed under a raw key.
pub fn open_with(key: &[u8; 32], aad: &[u8], nonce: &[u8], sealed: &[u8]) -> (plaintext: Option<
    Vec<u8>,
>)
    ensures
        crate::codec::bytes_view(plaintext) == opened(key@, nonce@, aad@, sealed@),
        plaintext matches Some(p) ==> is_sealed(key@, nonce@, aad@, p@, sealed@),
{
    let n: usize = sealed.len();
    if nonce.len() != NONCE_LEN || n as u64 > MAX_PLAINTEXT_LEN + TAG_LEN {
        return None;
    }
    aead_open(key, nonce, aad, sealed)
}

/// A sealed record opens to what was sealed, and to nothing else.
pub proof fn law_open_inverts_seal(
    key: Seq<u8>,
    nonce: Seq<u8>,
    aad: Seq<u8>,
    plaintext: Seq<u8>,
    sealed: Seq<u8>,
)
    requires
        is_sealed(key, nonce, aad, plaintext, sealed),
    ensures
        opened(key, nonce, aad, sealed) == Some(plaintext),
        forall|other: Seq<u8>|
            is_sealed(key, nonce, aad, other, sealed) ==> other == plaintext,
{
}

} // verus!
