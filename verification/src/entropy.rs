//! Random bytes from the operating system.
use vstd::prelude::*;
use crate::error::EngineError;
use crate::primitives::{os_random, MAX_DRAW};

verus! {

/// Whether the operating system, asked for `n` random bytes, gave these.
pub closed spec fn drawn(n: usize, bytes: Seq<u8>) -> bool {
    exists|answer: Result<Vec<u8>, getrandom::Error>| #[trigger]
        call_ensures(os_random, (n,), answer) && (answer matches Ok(raw) && raw@ == bytes)
}

/// Whether the operating system, asked for `n` random bytes, gave none.
pub closed spec fn none_drawn(n: usize) -> bool {
    exists|answer: Result<Vec<u8>, getrandom::Error>| #[trigger]
        call_ensures(os_random, (n,), answer) && answer is Err
}

/// Random bytes, as the operating system gave them.
pub(crate) fn random_bytes(n: usize) -> (bytes: Result<Vec<u8>, EngineError>)
    requires
        n <= MAX_DRAW,
    ensures
        match bytes {
            Ok(b) => b@.len() == n && drawn(n, b@),
            Err(e) => e == EngineError::EntropyUnavailable && none_drawn(n),
        },
{
    match os_random(n) {
        Ok(bytes) => Ok(bytes),
        Err(_) => Err(EngineError::EntropyUnavailable),
    }
}

/// Random bytes are all of what the operating system gave, as many as were asked for.
pub(crate) proof fn law_random_bytes_are_as_given(n: usize, bytes: Vec<u8>)
    requires
        call_ensures(random_bytes, (n,), Ok::<Vec<u8>, EngineError>(bytes)),
    ensures
        bytes@.len() == n,
        exists|raw: Vec<u8>| #[trigger]
            call_ensures(os_random, (n,), Ok::<Vec<u8>, getrandom::Error>(raw)) && raw@ == bytes@,
{
    let answer = choose|answer: Result<Vec<u8>, getrandom::Error>| #[trigger]
        call_ensures(os_random, (n,), answer) && (answer matches Ok(raw) && raw@ == bytes@);
    let raw = answer.unwrap();
    assert(call_ensures(os_random, (n,), Ok::<Vec<u8>, getrandom::Error>(raw)));
}

} // verus!
