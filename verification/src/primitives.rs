//! The cryptographic and system primitives that the vault is built on. Every function here hands
//! its arguments to another crate; what is claimed of the result is taken on trust.
use vstd::prelude::*;

verus! {

/// The longest plaintext that the record cipher is asked to seal.
pub const MAX_PLAINTEXT_LEN: u64 = 0x3F_FFFF_FF00;

/// Bytes that sealing adds to a plaintext: the authentication tag.
pub const TAG_LEN: u64 = 16;

/// Bytes of a nonce of the record cipher.
pub const NONCE_LEN: usize = 24;

/// The most random bytes that are asked for at once.
pub const MAX_DRAW: usize = 1024;

/// Shortest salt that Argon2 takes.
pub const ARGON2_MIN_SALT_LEN: usize = 8;

/// Longest password or salt that Argon2 takes.
pub const ARGON2_MAX_INPUT_LEN: u64 = 0xFFFF_FFFF;

/// Largest number of lanes that Argon2 takes.
pub const ARGON2_MAX_LANES: u32 = 0xFF_FFFF;

/// The BLAKE3 hash of a byte string.
pub uninterp spec fn blake3_hash(input: Seq<u8>) -> Seq<u8>;

/// The BLAKE3 keyed hash of a byte string.
pub uninterp spec fn blake3_keyed_hash(key: Seq<u8>, input: Seq<u8>) -> Seq<u8>;

/// The BLAKE3 subkey for a context string and key material.
pub uninterp spec fn blake3_derive_key(context: Seq<char>, key_material: Seq<u8>) -> Seq<u8>;

/// The 32 bytes that Argon2id, version 0x13, derives.
pub uninterp spec fn argon2id_v13(
    password: Seq<u8>,
    salt: Seq<u8>,
    m_kib: u32,
    t_cost: u32,
    p_lanes: u32,
) -> Seq<u8>;

/// The first 32 bytes of HKDF-SHA256 output.
pub uninterp spec fn hkdf_sha256(salt: Seq<u8>, ikm: Seq<u8>, info: Seq<u8>) -> Seq<u8>;

/// The ciphertext and tag of XChaCha20-Poly1305.
pub uninterp spec fn xchacha_seal(
    key: Seq<u8>,
    nonce: Seq<u8>,
    aad: Seq<u8>,
    plaintext: Seq<u8>,
) -> Seq<u8>;

/// The plaintext that XChaCha20-Poly1305 recovers; `None` where the tag does not match.
pub uninterp spec fn xchacha_open(
    key: Seq<u8>,
    nonce: Seq<u8>,
    aad: Seq<u8>,
    sealed: Seq<u8>,
) -> Option<Seq<u8>>;

/// Calls `blake3::hash`. Claimed: the digest depends on the input alone.
#[verifier::external_body]
pub(crate) fn hash(input: &[u8]) -> (digest: [u8; 32])
    ensures
        digest@ == blake3_hash(input@),
{
    *blake3::hash(input).as_bytes()
}

/// Calls `blake3::keyed_hash`. Claimed: the digest depends on the key and the input alone.
#[verifier::external_body]
pub(crate) fn keyed_hash(key: &[u8; 32], input: &[u8]) -> (digest: [u8; 32])
    ensures
        digest@ == blake3_keyed_hash(key@, input@),
{
    *blake3::keyed_hash(key, input).as_bytes()
}

/// Calls `blake3::derive_key`. Claimed: the subkey depends on the context and the key material
/// alone.
#[verifier::external_body]
pub(crate) fn derive_key(context: &str, key_material: &[u8]) -> (key: [u8; 32])
    ensures
        key@ == blake3_derive_key(context@, key_material@),
{
    blake3::derive_key(context, key_material)
}

/// Calls `argon2::Argon2::hash_password_into` for Argon2id, version 0x13, and 32 bytes of output.
/// Claimed: for parameters in the range that `argon2::Params::new` takes, and a password and salt
/// of admissible length, the derivation succeeds and depends on the arguments alone.
#[verifier::external_body]
pub(crate) fn argon2id(
    password: &[u8],
    salt: &[u8],
    m_kib: u32,
    t_cost: u32,
    p_lanes: u32,
) -> (key: [u8; 32])
    requires
        password@.len() <= ARGON2_MAX_INPUT_LEN,
        ARGON2_MIN_SALT_LEN <= salt@.len() <= ARGON2_MAX_INPUT_LEN,
        1 <= t_cost,
        1 <= p_lanes <= ARGON2_MAX_LANES,
        8 * p_lanes <= m_kib,
    ensures
        key@ == argon2id_v13(password@, salt@, m_kib, t_cost, p_lanes),
{
    let params = argon2::Params::new(m_kib, t_cost, p_lanes, Some(32)).expect("checked params");
    let context =
        argon2::Argon2::new(argon2::Algorithm::Argon2id, argon2::Version::V0x13, params);
    let mut key = [0u8; 32];
    context.hash_password_into(password, salt, &mut key).expect("checked lengths");
    key
}

/// Calls `hkdf::Hkdf::<sha2::Sha256>::expand` after `new`, for 32 bytes of output. Claimed: the
/// output, which is of a length that always succeeds, depends on the arguments alone.
#[verifier::external_body]
pub(crate) fn hkdf(salt: &[u8], ikm: &[u8], info: &[u8]) -> (key: [u8; 32])
    ensures
        key@ == hkdf_sha256(salt@, ikm@, info@),
{
    let mut key = [0u8; 32];
    hkdf::Hkdf::<sha2::Sha256>::new(Some(salt), ikm)
        .expand(info, &mut key)
        .expect("32 bytes is an admissible length");
    key
}

/// Calls `chacha20poly1305::XChaCha20Poly1305` to encrypt. Claimed: below the length limit the
/// call succeeds, adds a tag of 16 bytes, depends on the arguments alone, and decryption under the
/// same key, nonce and associated data gives the plaintext back.
#[verifier::external_body]
pub(crate) fn aead_seal(key: &[u8; 32], nonce: &[u8], aad: &[u8], plaintext: &[u8]) -> (sealed: Vec<
    u8,
>)
    requires
        nonce@.len() == NONCE_LEN,
        plaintext@.len() <= MAX_PLAINTEXT_LEN,
    ensures
        sealed@ == xchacha_seal(key@, nonce@, aad@, plaintext@),
        sealed@.len() == plaintext@.len() + TAG_LEN,
        xchacha_open(key@, nonce@, aad@, sealed@) == Some(plaintext@),
{
    let cipher: chacha20poly1305::XChaCha20Poly1305 = chacha20poly1305::KeyInit::new(key.into());
    let payload = chacha20poly1305::aead::Payload { msg: plaintext, aad };
    chacha20poly1305::aead::Aead::encrypt(&cipher, nonce.into(), payload).expect("bounded length")
}

/// Calls `chacha20poly1305::XChaCha20Poly1305` to decrypt. Claimed: the answer depends on the
/// arguments alone, and a plaintext comes back only from what sealing that very plaintext under
/// the same key, nonce and associated data gives. That no other ciphertext, key or associated data
/// opens is a matter of probability, and is not claimed.
#[verifier::external_body]
pub(crate) fn aead_open(key: &[u8; 32], nonce: &[u8], aad: &[u8], sealed: &[u8]) -> (plaintext:
    Option<Vec<u8>>)
    requires
        nonce@.len() == NONCE_LEN,
        sealed@.len() <= MAX_PLAINTEXT_LEN + TAG_LEN,
    ensures
        match plaintext {
            Some(p) => {
                &&& xchacha_open(key@, nonce@, aad@, sealed@) == Some(p@)
                &&& xchacha_seal(key@, nonce@, aad@, p@) == sealed@
                &&& sealed@.len() == p@.len() + TAG_LEN
            },
            None => xchacha_open(key@, nonce@, aad@, sealed@) is None,
        },
{
    let cipher: chacha20poly1305::XChaCha20Poly1305 = chacha20poly1305::KeyInit::new(key.into());
    let payload = chacha20poly1305::aead::Payload { msg: sealed, aad };
    chacha20poly1305::aead::Aead::decrypt(&cipher, nonce.into(), payload).ok()
}

/// Calls `subtle::ConstantTimeEq::ct_eq` on two slices. Claimed: it tells whether they are equal;
/// slices of different length are not.
#[verifier::external_body]
pub(crate) fn ct_eq(a: &[u8], b: &[u8]) -> (same: bool)
    ensures
        same == (a@ == b@),
{
    bool::from(subtle::ConstantTimeEq::ct_eq(a, b))
}

/// Calls `zeroize::Zeroize::zeroize` on an array. Claimed: every byte is zero afterwards, and the
/// call does not unwind. That the compiler keeps the writes is not something a contract here can
/// say.
#[verifier::external_body]
pub(crate) fn wipe_key(key: &mut [u8; 32])
    ensures
        final(key)@ == Seq::new(32, |i: int| 0u8),
    opens_invariants none
    no_unwind
{
    zeroize::Zeroize::zeroize(key)
}

/// Calls `zeroize::Zeroize::zeroize` on a byte vector. Claimed: the vector is empty afterwards.
/// That the memory it held is overwritten first is not something a contract here can say.
#[verifier::external_body]
pub(crate) fn wipe_bytes(bytes: &mut Vec<u8>)
    ensures
        final(bytes)@ == Seq::<u8>::empty(),
{
    zeroize::Zeroize::zeroize(bytes)
}

/// Calls `zeroize::Zeroize::zeroize` on a string. Claimed: the string is empty afterwards. That
/// the memory it held is overwritten first is not something a contract here can say.
#[verifier::external_body]
pub(crate) fn wipe_text(text: &mut String)
    ensures
        final(text)@ == Seq::<char>::empty(),
{
    zeroize::Zeroize::zeroize(text)
}

/// The reason why the operating system gave no random bytes.
#[verifier::external_type_specification]
#[verifier::external_body]
pub struct ExGetrandomError(getrandom::Error);

/// Calls `getrandom::getrandom`. Claimed: on success the buffer has the length asked for. Nothing
/// is claimed of the bytes, nor of when the call succeeds.
#[verifier::external_body]
pub(crate) fn os_random(n: usize) -> (bytes: Result<Vec<u8>, getrandom::Error>)
    requires
        n <= MAX_DRAW,
    ensures
        bytes matches Ok(b) ==> b@.len() == n,
{
    let mut buf = vec![0u8; n];
    getrandom::getrandom(&mut buf)?;
    Ok(buf)
}

/// Calls `rustix::process::getuid`. Nothing is claimed of the answer.
#[verifier::external_body]
pub(crate) fn current_uid() -> (uid: u32) {
    rustix::process::getuid().as_raw()
}

/// Calls `std::time::SystemTime::now`, and `chrono::DateTime` for the instant in milliseconds since
/// the epoch and as RFC 3339 text. Nothing is claimed of the answer.
#[verifier::external_body]
pub(crate) fn system_now() -> (now: (i64, String)) {
    let now = chrono::DateTime::<chrono::Utc>::from(std::time::SystemTime::now());
    (now.timestamp_millis(), now.to_rfc3339())
}

/// The 32 bytes of a slice as an array.
pub fn to_array32(bytes: &[u8]) -> (array: [u8; 32])
    requires
        bytes@.len() == 32,
    ensures
        array@ == bytes@,
{
    let mut array: [u8; 32] = [0u8; 32];
    let mut i: usize = 0;
    while i < 32
        invariant
            i <= 32,
            bytes@.len() == 32,
            forall|j: int| 0 <= j < i ==> array@[j] == bytes@[j],
        decreases 32 - i,
    {
        array[i] = bytes[i];
        i = i + 1;
    }
    assert(array@ =~= bytes@);
    array
}

} // verus!
