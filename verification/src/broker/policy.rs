//! Relay policies and bearers.
use vstd::prelude::*;
use crate::codec;

verus! {

/// Whose credential a secret is.
#[derive(Clone, Copy, Debug, PartialEq, Eq, Structural)]
pub enum Provider {
    Anthropic,
    Github,
    Generic,
}

/// The method of a request.
#[derive(Clone, Copy, Debug, PartialEq, Eq, Structural)]
pub enum Method {
    Get,
    Head,
    Post,
    Put,
    Patch,
    Delete,
    Options,
}

/// No bearer lives longer than a day.
pub const MAX_BEARER_TTL_SECS: i64 = 86_400;

/// The lifetime that a request for `secs` seconds is granted.
pub open spec fn clamped_ttl(secs: int) -> int {
    if secs < 0 {
        0
    } else if secs > MAX_BEARER_TTL_SECS {
        MAX_BEARER_TTL_SECS as int
    } else {
        secs
    }
}

/// Cuts a requested lifetime down to what a bearer may have; a negative one becomes zero.
pub fn clamp_ttl(requested_secs: i64) -> (granted_secs: i64)
    ensures
        granted_secs == clamped_ttl(requested_secs as int),
        0 <= granted_secs <= MAX_BEARER_TTL_SECS,
{
    if requested_secs < 0 {
        0
    } else if requested_secs > MAX_BEARER_TTL_SECS {
        MAX_BEARER_TTL_SECS
    } else {
        requested_secs
    }
}

/// At most `max_requests` requests in a window of `window_ms` milliseconds.
#[derive(Clone, Copy, Debug, PartialEq, Eq, Structural)]
pub struct RateLimit {
    pub max_requests: u32,
    pub window_ms: i64,
}

/// What the bearers of a relay may be used for, and how much of it is used up.
#[derive(Clone, Debug)]
pub struct RelayPolicy {
    pub id: i64,
    pub relay_id: String,
    /// The secret that a bearer is swapped for.
    pub secret_name: String,
    pub enabled: bool,
    pub revoked: bool,
    pub expires_at_ms: Option<i64>,
    pub hosts: Vec<String>,
    pub path_prefixes: Vec<String>,
    pub methods: Vec<Method>,
    /// The hosts that the real key may be sent to.
    pub upstreams: Vec<String>,
    pub max_requests: Option<u64>,
    pub used_requests: u64,
    pub max_bytes: Option<u64>,
    pub used_bytes: u64,
    pub rate: Option<RateLimit>,
    pub window_started_ms: i64,
    pub window_requests: u32,
}

/// What a policy holds.
#[verifier::ext_equal]
pub struct PolicyView {
    pub id: i64,
    pub relay_id: Seq<char>,
    pub secret_name: Seq<char>,
    pub enabled: bool,
    pub revoked: bool,
    pub expires_at_ms: Option<i64>,
    pub hosts: Seq<Seq<char>>,
    pub path_prefixes: Seq<Seq<char>>,
    pub methods: Seq<Method>,
    pub upstreams: Seq<Seq<char>>,
    pub max_requests: Option<u64>,
    pub used_requests: u64,
    pub max_bytes: Option<u64>,
    pub used_bytes: u64,
    pub rate: Option<RateLimit>,
    pub window_started_ms: i64,
    pub window_requests: u32,
}

/// What each of a list of strings holds.
pub open spec fn texts(list: Seq<String>) -> Seq<Seq<char>> {
    list.map_values(|s: String| s@)
}

impl View for RelayPolicy {
    type V = PolicyView;

    open spec fn view(&self) -> PolicyView {
        PolicyView {
            id: self.id,
            relay_id: self.relay_id@,
            secret_name: self.secret_name@,
            enabled: self.enabled,
            revoked: self.revoked,
            expires_at_ms: self.expires_at_ms,
            hosts: texts(self.hosts@),
            path_prefixes: texts(self.path_prefixes@),
            methods: self.methods@,
            upstreams: texts(self.upstreams@),
            max_requests: self.max_requests,
            used_requests: self.used_requests,
            max_bytes: self.max_bytes,
            used_bytes: self.used_bytes,
            rate: self.rate,
            window_started_ms: self.window_started_ms,
            window_requests: self.window_requests,
        }
    }
}

/// A bearer as its client gets it, once. The broker keeps only a MAC of the token.
#[derive(Clone, Debug)]
pub struct Bearer {
    pub policy_id: i64,
    pub token_id: String,
    pub token: String,
    pub issued_at_ms: i64,
    pub expires_at_ms: i64,
}

/// Whether the list holds the text.
pub fn lists(list: &[String], text: &str) -> (found: bool)
    ensures
        found == texts(list@).contains(text@),
{
    let ghost views = texts(list@);
    let mut i: usize = 0;
    while i < list.len()
        invariant
            i <= list@.len(),
            views == texts(list@),
            forall|j: int| 0 <= j < i ==> (#[trigger] views[j]) != text@,
        decreases list@.len() - i,
    {
        assert(views[i as int] == list@[i as int]@);
        if codec::str_eq(list[i].as_str(), text) {
            assert(views.contains(text@));
            return true;
        }
        i = i + 1;
    }
    false
}

/// Whether the list holds the method.
pub fn lists_method(list: &[Method], method: Method) -> (found: bool)
    ensures
        found == list@.contains(method),
{
    let mut i: usize = 0;
    while i < list.len()
        invariant
            i <= list@.len(),
            forall|j: int| 0 <= j < i ==> (#[trigger] list@[j]) != method,
        decreases list@.len() - i,
    {
        if list[i] == method {
            return true;
        }
        i = i + 1;
    }
    false
}

/// Whether a path lies under a prefix: it is the prefix, or goes on behind it with a new segment
/// or a query.
pub open spec fn lies_under(path: Seq<u8>, prefix: Seq<u8>) -> bool {
    &&& prefix.len() <= path.len()
    &&& path.take(prefix.len() as int) == prefix
    &&& {
        ||| path.len() == prefix.len()
        ||| prefix.len() > 0 && prefix.last() == 0x2Fu8
        ||| path[prefix.len() as int] == 0x2Fu8
        ||| path[prefix.len() as int] == 0x3Fu8
    }
}

/// Whether a path lies under a prefix.
pub fn path_under(path: &[u8], prefix: &[u8]) -> (under: bool)
    ensures
        under == lies_under(path@, prefix@),
{
    if prefix.len() > path.len() {
        return false;
    }
    let mut i: usize = 0;
    while i < prefix.len()
        invariant
            i <= prefix@.len() <= path@.len(),
            forall|j: int| 0 <= j < i ==> path@[j] == prefix@[j],
        decreases prefix@.len() - i,
    {
        if path[i] != prefix[i] {
            assert(path@.take(prefix@.len() as int)[i as int] != prefix@[i as int]);
            return false;
        }
        i = i + 1;
    }
    assert(path@.take(prefix@.len() as int) =~= prefix@);
    if path.len() == prefix.len() {
        return true;
    }
    if prefix.len() > 0 && prefix[prefix.len() - 1] == 0x2Fu8 {
        return true;
    }
    path[prefix.len()] == 0x2Fu8 || path[prefix.len()] == 0x3Fu8
}

/// Whether a path lies under one of the prefixes.
pub open spec fn some_prefix(prefixes: Seq<Seq<char>>, path: Seq<char>) -> bool {
    exists|i: int|
        0 <= i < prefixes.len() && lies_under(
            vstd::utf8::encode_utf8(path),
            vstd::utf8::encode_utf8(#[trigger] prefixes[i]),
        )
}

/// Whether a path lies under one of the prefixes.
pub fn lists_path(prefixes: &[String], path: &str) -> (found: bool)
    ensures
        found == some_prefix(texts(prefixes@), path@),
{
    let ghost views = texts(prefixes@);
    let mut i: usize = 0;
    while i < prefixes.len()
        invariant
            i <= prefixes@.len(),
            views == texts(prefixes@),
            forall|j: int|
                0 <= j < i ==> !lies_under(
                    vstd::utf8::encode_utf8(path@),
                    vstd::utf8::encode_utf8(#[trigger] views[j]),
                ),
        decreases prefixes@.len() - i,
    {
        assert(views[i as int] == prefixes@[i as int]@);
        if path_under(path.as_bytes(), prefixes[i].as_str().as_bytes()) {
            return true;
        }
        i = i + 1;
    }
    false
}

} // verus!
