//! Bearer verification. Bearers are stored only as a keyed MAC, and compared in constant time.
use vstd::prelude::*;
use crate::primitives::{ct_eq, keyed_hash};

verus! {

/// The MAC of a bearer token.
pub open spec fn bearer_mac(hmac_key: Seq<u8>, token: Seq<char>) -> Seq<u8> {
    crate::primitives::blake3_keyed_hash(hmac_key, vstd::utf8::encode_utf8(token))
}

/// The MAC of a bearer token.
pub fn mac_bearer(hmac_key: &[u8; 32], token: &str) -> (mac: Vec<u8>)
    ensures
        mac@ == bearer_mac(hmac_key@, token@),
{
    let mac: [u8; 32] = keyed_hash(hmac_key, token.as_bytes());
    crate::codec::copy_bytes(mac.as_slice())
}

/// Whether the presented token has the stored MAC.
pub fn verify_bearer(hmac_key: &[u8; 32], presented: &str, stored_mac: &[u8]) -> (ok: bool)
    ensures
        ok == (stored_mac@ == bearer_mac(hmac_key@, presented@)),
{
    let mac: Vec<u8> = mac_bearer(hmac_key, presented);
    ct_eq(mac.as_slice(), stored_mac)
}

} // verus!
