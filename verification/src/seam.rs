//! What the engine asks of its surroundings.
use vstd::prelude::*;
use crate::primitives::system_now;

verus! {

/// An instant, in milliseconds since the epoch and as RFC 3339 text.
#[derive(Clone, Debug)]
pub struct Timestamp {
    pub ms: i64,
    pub rfc3339: String,
}

/// Tells the time. Nothing is assumed of the answers, not even that they grow.
pub trait Clock {
    /// The present instant.
    fn now(&self) -> Timestamp;
}

/// Whether a clock, asked for the time, gave this answer.
pub open spec fn told<C: Clock>(clock: &C, t: Timestamp) -> bool {
    call_ensures(C::now, (clock,), t)
}

/// Whether a text is the time that a clock gave.
pub open spec fn dated<C: Clock>(clock: &C, ts: Seq<char>) -> bool {
    exists|t: Timestamp| #[trigger] told(clock, t) && t.rfc3339@ == ts
}

/// Whether a number of milliseconds is the time that a clock gave.
pub open spec fn timed<C: Clock>(clock: &C, ms: i64) -> bool {
    exists|t: Timestamp| #[trigger] told(clock, t) && t.ms == ms
}

/// The clock of the operating system.
#[derive(Clone, Copy, Debug)]
pub struct SystemClock;

/// Whether a timestamp is one answer of the operating system, its two fields taken together.
pub closed spec fn is_system_time(t: Timestamp) -> bool {
    exists|answer: (i64, String)| #[trigger]
        call_ensures(system_now, (), answer) && t.ms == answer.0 && t.rfc3339 == answer.1
}

/// The clock of the system tells one answer of the operating system, both of its parts as they are.
pub(crate) proof fn law_system_clock_tells_system_time(t: Timestamp)
    requires
        call_ensures(SystemClock::now, (&SystemClock,), t),
    ensures
        exists|answer: (i64, String)| #[trigger]
            call_ensures(system_now, (), answer) && answer.0 == t.ms && answer.1@ == t.rfc3339@,
{
    let answer = choose|answer: (i64, String)| #[trigger]
        call_ensures(system_now, (), answer) && t.ms == answer.0 && t.rfc3339 == answer.1;
    assert(call_ensures(system_now, (), answer));
}

impl Clock for SystemClock {
    fn now(&self) -> (t: Timestamp)
        ensures
            is_system_time(t),
    {
        let (ms, rfc3339) = system_now();
        Timestamp { ms, rfc3339 }
    }
}

/// Looks for the key device. Nothing is assumed of the answers.
pub trait UsbProbe {
    /// The keyfile on the partition, if the device is there and the file can be read. Having the
    /// file, not knowing the partition, is what proves possession.
    fn keyfile_for(&self, partition_uuid: &str) -> Option<Vec<u8>>;
}

} // verus!
