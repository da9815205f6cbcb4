//! What the broker keeps in memory: policies with their counters, and the MACs of the bearers.
use vstd::prelude::*;
use crate::broker::policy::{PolicyView, RelayPolicy};
use crate::broker::token::verify_bearer;
use crate::codec;

verus! {

/// What is kept of a bearer. The token itself is not.
#[derive(Clone, Debug)]
pub struct BearerRow {
    pub policy_id: i64,
    pub token_id: String,
    pub mac: Vec<u8>,
    pub issued_at_ms: i64,
    pub expires_at_ms: i64,
    pub client_uid: Option<u32>,
    pub client_pid: Option<u32>,
    pub revoked: bool,
}

/// What is kept of a bearer.
#[verifier::ext_equal]
pub struct BearerView {
    pub policy_id: i64,
    pub token_id: Seq<char>,
    pub mac: Seq<u8>,
    pub issued_at_ms: i64,
    pub expires_at_ms: i64,
    pub client_uid: Option<u32>,
    pub client_pid: Option<u32>,
    pub revoked: bool,
}

impl View for BearerRow {
    type V = BearerView;

    open spec fn view(&self) -> BearerView {
        BearerView {
            policy_id: self.policy_id,
            token_id: self.token_id@,
            mac: self.mac@,
            issued_at_ms: self.issued_at_ms,
            expires_at_ms: self.expires_at_ms,
            client_uid: self.client_uid,
            client_pid: self.client_pid,
            revoked: self.revoked,
        }
    }
}

/// The policies and bearers of the broker, in the order in which they were minted.
pub struct Broker {
    pub policies: Vec<RelayPolicy>,
    pub bearers: Vec<BearerRow>,
}

/// What the broker holds.
#[verifier::ext_equal]
pub struct BrokerView {
    pub policies: Seq<PolicyView>,
    pub bearers: Seq<BearerView>,
}

/// What each of a list of policies holds.
pub open spec fn policy_views(policies: Seq<RelayPolicy>) -> Seq<PolicyView> {
    policies.map_values(|p: RelayPolicy| p@)
}

/// What is kept of each of a list of bearers.
pub open spec fn bearer_views(bearers: Seq<BearerRow>) -> Seq<BearerView> {
    bearers.map_values(|b: BearerRow| b@)
}

impl View for Broker {
    type V = BrokerView;

    open spec fn view(&self) -> BrokerView {
        BrokerView {
            policies: policy_views(self.policies@),
            bearers: bearer_views(self.bearers@),
        }
    }
}

/// A broker without policies and bearers.
pub open spec fn empty_broker() -> BrokerView {
    BrokerView { policies: Seq::empty(), bearers: Seq::empty() }
}

/// The policy, revoked if it belongs to the relay.
pub open spec fn revoked_policy(p: PolicyView, relay_id: Seq<char>) -> PolicyView {
    if p.relay_id == relay_id {
        PolicyView { revoked: true, ..p }
    } else {
        p
    }
}

/// Whether a policy id belongs to the relay.
pub open spec fn of_relay(policies: Seq<PolicyView>, relay_id: Seq<char>, id: i64) -> bool {
    exists|i: int|
        0 <= i < policies.len() && (#[trigger] policies[i]).id == id && policies[i].relay_id
            == relay_id
}

/// The bearer, revoked if it belongs to the relay.
pub open spec fn revoked_with_relay(
    policies: Seq<PolicyView>,
    b: BearerView,
    relay_id: Seq<char>,
) -> BearerView {
    if of_relay(policies, relay_id, b.policy_id) {
        BearerView { revoked: true, ..b }
    } else {
        b
    }
}

/// The bearer, revoked if it has the token id.
pub open spec fn revoked_bearer(b: BearerView, token_id: Seq<char>) -> BearerView {
    if b.token_id == token_id {
        BearerView { revoked: true, ..b }
    } else {
        b
    }
}

/// The broker after a relay was revoked: all its policies and all their bearers are.
pub open spec fn without_relay(v: BrokerView, relay_id: Seq<char>) -> BrokerView {
    BrokerView {
        policies: v.policies.map_values(|p: PolicyView| revoked_policy(p, relay_id)),
        bearers: v.bearers.map_values(
            |b: BearerView| revoked_with_relay(v.policies, b, relay_id),
        ),
    }
}

/// The broker after the bearers with a token id were revoked.
pub open spec fn without_bearer(v: BrokerView, token_id: Seq<char>) -> BrokerView {
    BrokerView {
        bearers: v.bearers.map_values(|b: BearerView| revoked_bearer(b, token_id)),
        ..v
    }
}

/// How many of the first `n` policies are revoked in one list and not in the other.
pub open spec fn changed_policies(a: Seq<PolicyView>, b: Seq<PolicyView>, n: nat) -> nat
    decreases n,
{
    if n == 0 {
        0
    } else {
        let k = (n - 1) as nat;
        changed_policies(a, b, k) + if a[k as int].revoked != b[k as int].revoked {
            1nat
        } else {
            0nat
        }
    }
}

/// How many of the first `n` bearers are revoked in one list and not in the other.
pub open spec fn changed_bearers(a: Seq<BearerView>, b: Seq<BearerView>, n: nat) -> nat
    decreases n,
{
    if n == 0 {
        0
    } else {
        let k = (n - 1) as nat;
        changed_bearers(a, b, k) + if a[k as int].revoked != b[k as int].revoked {
            1nat
        } else {
            0nat
        }
    }
}

/// The count as far as it goes.
pub open spec fn capped(n: nat) -> u32 {
    if n > u32::MAX {
        u32::MAX
    } else {
        n as u32
    }
}

/// How many policies and bearers were flipped, as far as the count goes.
pub open spec fn flipped(before: BrokerView, after: BrokerView) -> u32 {
    capped(
        changed_bearers(before.bearers, after.bearers, before.bearers.len()) + changed_policies(
            before.policies,
            after.policies,
            before.policies.len(),
        ),
    )
}

/// The index of the first bearer from `from` on with the MAC of the token.
pub open spec fn bearer_at(
    bearers: Seq<BearerView>,
    key: Seq<u8>,
    token: Seq<char>,
    from: int,
) -> Option<int>
    decreases bearers.len() - from,
{
    if from < 0 || from >= bearers.len() {
        None
    } else if bearers[from].mac == crate::broker::token::bearer_mac(key, token) {
        Some(from)
    } else {
        bearer_at(bearers, key, token, from + 1)
    }
}

/// The index of the first policy from `from` on with the id.
pub open spec fn policy_at(policies: Seq<PolicyView>, id: i64, from: int) -> Option<int>
    decreases policies.len() - from,
{
    if from < 0 || from >= policies.len() {
        None
    } else if policies[from].id == id {
        Some(from)
    } else {
        policy_at(policies, id, from + 1)
    }
}

/// The bearer with the MAC of a token, and its policy.
pub open spec fn looked_up(v: BrokerView, key: Seq<u8>, token: Seq<char>) -> Option<(int, int)> {
    match bearer_at(v.bearers, key, token, 0) {
        None => None,
        Some(b) => match policy_at(v.policies, v.bearers[b].policy_id, 0) {
            None => None,
            Some(p) => Some((b, p)),
        },
    }
}

/// One more, as far as the count goes.
pub open spec fn one_more(n: u64) -> u64 {
    if n < u64::MAX {
        (n + 1) as u64
    } else {
        n
    }
}

/// The policy after a request went out: its counters, and the window that the request falls into.
pub open spec fn charged(p: PolicyView, bytes_out: u64, now_ms: i64) -> PolicyView {
    let fresh = match p.rate {
        Some(rate) => now_ms - p.window_started_ms >= rate.window_ms,
        None => false,
    };
    PolicyView {
        used_requests: one_more(p.used_requests),
        used_bytes: if p.used_bytes + bytes_out > u64::MAX {
            u64::MAX
        } else {
            (p.used_bytes + bytes_out) as u64
        },
        window_started_ms: if fresh {
            now_ms
        } else {
            p.window_started_ms
        },
        window_requests: if fresh {
            1
        } else if p.window_requests < u32::MAX {
            (p.window_requests + 1) as u32
        } else {
            p.window_requests
        },
        ..p
    }
}

fn bump(count: u32) -> (more: u32)
    ensures
        more == if count < u32::MAX {
            count + 1
        } else {
            count as int
        },
{
    if count < u32::MAX {
        count + 1
    } else {
        count
    }
}

impl Broker {
    /// A broker without policies and bearers.
    pub fn new() -> (broker: Broker)
        ensures
            broker@ == empty_broker(),
    {
        let broker = Broker { policies: Vec::new(), bearers: Vec::new() };
        assert(broker@ =~= empty_broker());
        broker
    }

    /// Adds a policy and a bearer for it.
    pub fn enlist(&mut self, policy: RelayPolicy, bearer: BearerRow)
        ensures
            final(self)@ == (BrokerView {
                policies: old(self)@.policies.push(policy@),
                bearers: old(self)@.bearers.push(bearer@),
            }),
    {
        self.policies.push(policy);
        self.bearers.push(bearer);
        assert(self@.policies =~= old(self)@.policies.push(policy@));
        assert(self@.bearers =~= old(self)@.bearers.push(bearer@));
    }

    /// Looks for the bearer with the MAC of a token, and for its policy.
    pub fn look_up(&self, key: &[u8; 32], token: &str) -> (found: Option<(usize, usize)>)
        ensures
            match found {
                Some((b, p)) => {
                    &&& b < self@.bearers.len()
                    &&& p < self@.policies.len()
                    &&& looked_up(self@, key@, token@) == Some((b as int, p as int))
                },
                None => looked_up(self@, key@, token@) is None,
            },
    {
        let ghost bearers = self@.bearers;
        let ghost policies = self@.policies;
        let mut b: usize = 0;
        while b < self.bearers.len() && !verify_bearer(
            key,
            token,
            self.bearers[b].mac.as_slice(),
        )
            invariant
                b <= self.bearers@.len(),
                bearers == bearer_views(self.bearers@),
                bearer_at(bearers, key@, token@, 0) == bearer_at(bearers, key@, token@, b as int),
            decreases self.bearers@.len() - b,
        {
            assert(bearers[b as int] == self.bearers@[b as int]@);
            b = b + 1;
        }
        if b >= self.bearers.len() {
            return None;
        }
        assert(bearers[b as int] == self.bearers@[b as int]@);
        let id: i64 = self.bearers[b].policy_id;
        let mut p: usize = 0;
        while p < self.policies.len() && self.policies[p].id != id
            invariant
                p <= self.policies@.len(),
                policies == policy_views(self.policies@),
                policy_at(policies, id, 0) == policy_at(policies, id, p as int),
            decreases self.policies@.len() - p,
        {
            assert(policies[p as int] == self.policies@[p as int]@);
            p = p + 1;
        }
        if p >= self.policies.len() {
            return None;
        }
        assert(policies[p as int] == self.policies@[p as int]@);
        Some((b, p))
    }

    fn belongs(&self, relay_id: &str, id: i64) -> (yes: bool)
        ensures
            yes == of_relay(self@.policies, relay_id@, id),
    {
        let ghost policies = self@.policies;
        let mut i: usize = 0;
        while i < self.policies.len()
            invariant
                i <= self.policies@.len(),
                policies == policy_views(self.policies@),
                forall|j: int|
                    0 <= j < i ==> !((#[trigger] policies[j]).id == id && policies[j].relay_id
                        == relay_id@),
            decreases self.policies@.len() - i,
        {
            assert(policies[i as int] == self.policies@[i as int]@);
            if self.policies[i].id == id && codec::str_eq(
                self.policies[i].relay_id.as_str(),
                relay_id,
            ) {
                return true;
            }
            i = i + 1;
        }
        false
    }

    /// Revokes all policies of a relay and all their bearers, and counts what was flipped.
    pub fn revoke_relay(&mut self, relay_id: &str) -> (count: u32)
        ensures
            final(self)@ == without_relay(old(self)@, relay_id@),
            count == flipped(old(self)@, final(self)@),
    {
        let ghost before = old(self)@;
        let ghost after = without_relay(before, relay_id@);
        let mut count: u32 = 0;
        let mut i: usize = 0;
        while i < self.bearers.len()
            invariant
                i <= self.bearers@.len(),
                before == old(self)@,
                after == without_relay(before, relay_id@),
                self.policies == old(self).policies,
                self.bearers@.len() == before.bearers.len(),
                forall|j: int|
                    0 <= j < i ==> (#[trigger] self.bearers@[j])@ == after.bearers[j],
                forall|j: int|
                    i <= j < self.bearers@.len() ==> (#[trigger] self.bearers@[j])@
                        == before.bearers[j],
                count == capped(changed_bearers(before.bearers, after.bearers, i as nat)),
            decreases self.bearers@.len() - i,
        {
            let id: i64 = self.bearers[i].policy_id;
            assert(self.bearers@[i as int]@ == before.bearers[i as int]);
            if self.belongs(relay_id, id) {
                if !self.bearers[i].revoked {
                    count = bump(count);
                }
                self.bearers[i].revoked = true;
            }
            assert(self.bearers@[i as int]@ == after.bearers[i as int]);
            i = i + 1;
        }
        let ghost flipped_bearers = changed_bearers(
            before.bearers,
            after.bearers,
            before.bearers.len(),
        );
        let mut k: usize = 0;
        while k < self.policies.len()
            invariant
                k <= self.policies@.len(),
                before == old(self)@,
                after == without_relay(before, relay_id@),
                flipped_bearers == changed_bearers(
                    before.bearers,
                    after.bearers,
                    before.bearers.len(),
                ),
                self.bearers@.len() == before.bearers.len(),
                forall|j: int|
                    0 <= j < self.bearers@.len() ==> (#[trigger] self.bearers@[j])@
                        == after.bearers[j],
                self.policies@.len() == before.policies.len(),
                forall|j: int|
                    0 <= j < k ==> (#[trigger] self.policies@[j])@ == after.policies[j],
                forall|j: int|
                    k <= j < self.policies@.len() ==> (#[trigger] self.policies@[j])@
                        == before.policies[j],
                count == capped(
                    flipped_bearers + changed_policies(before.policies, after.policies, k as nat),
                ),
            decreases self.policies@.len() - k,
        {
            assert(self.policies@[k as int]@ == before.policies[k as int]);
            if codec::str_eq(self.policies[k].relay_id.as_str(), relay_id) {
                if !self.policies[k].revoked {
                    count = bump(count);
                }
                self.policies[k].revoked = true;
            }
            assert(self.policies@[k as int]@ == after.policies[k as int]);
            k = k + 1;
        }
        assert(self@.policies =~= after.policies);
        assert(self@.bearers =~= after.bearers);
        count
    }

    /// Revokes the bearers with a token id, and counts what was flipped.
    pub fn revoke_bearer(&mut self, token_id: &str) -> (count: u32)
        ensures
            final(self)@ == without_bearer(old(self)@, token_id@),
            count == flipped(old(self)@, final(self)@),
    {
        let ghost before = old(self)@;
        let ghost after = without_bearer(before, token_id@);
        let mut count: u32 = 0;
        let mut i: usize = 0;
        while i < self.bearers.len()
            invariant
                i <= self.bearers@.len(),
                before == old(self)@,
                after == without_bearer(before, token_id@),
                self.policies == old(self).policies,
                self.bearers@.len() == before.bearers.len(),
                forall|j: int|
                    0 <= j < i ==> (#[trigger] self.bearers@[j])@ == after.bearers[j],
                forall|j: int|
                    i <= j < self.bearers@.len() ==> (#[trigger] self.bearers@[j])@
                        == before.bearers[j],
                count == capped(changed_bearers(before.bearers, after.bearers, i as nat)),
            decreases self.bearers@.len() - i,
        {
            assert(self.bearers@[i as int]@ == before.bearers[i as int]);
            if codec::str_eq(self.bearers[i].token_id.as_str(), token_id) {
                if !self.bearers[i].revoked {
                    count = bump(count);
                }
                self.bearers[i].revoked = true;
            }
            assert(self.bearers@[i as int]@ == after.bearers[i as int]);
            i = i + 1;
        }
        proof {
            lemma_same_policies(before.policies, before.policies.len());
        }
        assert(self@.bearers =~= after.bearers);
        count
    }

    /// Counts a request against its policy.
    pub fn charge(&mut self, at: usize, bytes_out: u64, now_ms: i64)
        requires
            at < old(self)@.policies.len(),
        ensures
            final(self)@ == (BrokerView {
                policies: old(self)@.policies.update(
                    at as int,
                    charged(old(self)@.policies[at as int], bytes_out, now_ms),
                ),
                ..old(self)@
            }),
    {
        let fresh: bool = match self.policies[at].rate {
            Some(rate) => {
                let age: i128 = now_ms as i128 - self.policies[at].window_started_ms as i128;
                age >= rate.window_ms as i128
            },
            None => false,
        };
        let used_requests: u64 = self.policies[at].used_requests;
        let used_bytes: u64 = self.policies[at].used_bytes;
        let window_requests: u32 = self.policies[at].window_requests;
        self.policies[at].used_requests = if used_requests < u64::MAX {
            used_requests + 1
        } else {
            used_requests
        };
        self.policies[at].used_bytes = if bytes_out > u64::MAX - used_bytes {
            u64::MAX
        } else {
            used_bytes + bytes_out
        };
        if fresh {
            self.policies[at].window_started_ms = now_ms;
            self.policies[at].window_requests = 1;
        } else {
            self.policies[at].window_requests = bump(window_requests);
        }
        assert(self@.policies =~= old(self)@.policies.update(
            at as int,
            charged(old(self)@.policies[at as int], bytes_out, now_ms),
        ));
    }
}

proof fn lemma_same_policies(a: Seq<PolicyView>, n: nat)
    ensures
        changed_policies(a, a, n) == 0,
    decreases n,
{
    if n > 0 {
        lemma_same_policies(a, (n - 1) as nat);
    }
}

} // verus!
