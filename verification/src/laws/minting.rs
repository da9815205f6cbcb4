//! What a bearer is worth, from the day it is minted until it is revoked.
use vstd::prelude::*;
use crate::broker::ledger;
use crate::broker::ledger::{BearerView, BrokerView};
use crate::broker::policy::{Bearer, PolicyView, RelayPolicy};
use crate::codec;
use crate::engine::model;
use crate::engine::model::{EngineView, MintView};
use crate::engine::Engine;
use crate::entropy;
use crate::error::EngineError;
use crate::event::{AuditDetail, AuditOutcome, EventSink, EventView, Reason};
use crate::laws;
use crate::seam;
use crate::seam::{Clock, UsbProbe};
use crate::vault::store::{Store, StoreCall};

verus! {

/// Whether two policies agree in all but their number.
pub open spec fn same_but_for_id(a: PolicyView, b: PolicyView) -> bool {
    &&& a.relay_id == b.relay_id
    &&& a.secret_name == b.secret_name
    &&& a.enabled == b.enabled
    &&& a.revoked == b.revoked
    &&& a.expires_at_ms == b.expires_at_ms
    &&& a.hosts == b.hosts
    &&& a.path_prefixes == b.path_prefixes
    &&& a.methods == b.methods
    &&& a.upstreams == b.upstreams
    &&& a.max_requests == b.max_requests
    &&& a.used_requests == b.used_requests
    &&& a.max_bytes == b.max_bytes
    &&& a.used_bytes == b.used_bytes
    &&& a.rate == b.rate
    &&& a.window_started_ms == b.window_started_ms
    &&& a.window_requests == b.window_requests
}

/// The seconds that a requested lifetime is granted: none below zero, at most a day.
pub open spec fn granted(requested_secs: i64) -> int {
    if requested_secs < 0 {
        0
    } else if requested_secs <= 86_400 {
        requested_secs as int
    } else {
        86_400
    }
}

/// Whether a bearer was minted of these bytes at this time: the token is in the client's hands and
/// only its MAC is kept; it is bound to the peer that asked, and lives for as long as it was
/// granted.
pub open spec fn minted(
    s: EngineView,
    t: EngineView,
    before: Seq<EventView>,
    after: Seq<EventView>,
    policy: PolicyView,
    requested_secs: i64,
    peer_uid: Option<u32>,
    peer_pid: Option<u32>,
    now_ms: i64,
    token_bytes: Seq<u8>,
    id_bytes: Seq<u8>,
    bearer: Bearer,
) -> bool {
    let n = s.relays.policies.len() as int;
    let k = s.relays.bearers.len() as int;
    let end = now_ms + 1000 * granted(requested_secs);
    &&& s.dek matches Some(dek)
    &&& bearer.policy_id == n + 1
    &&& bearer.token@ == "evrelay_"@ + codec::hex_text(token_bytes)
    &&& bearer.token_id@ == codec::hex_text(id_bytes)
    &&& bearer.issued_at_ms == now_ms
    &&& end <= i64::MAX ==> bearer.expires_at_ms == end
    &&& end > i64::MAX ==> bearer.expires_at_ms == i64::MAX
    &&& t.relays.policies.len() == n + 1
    &&& forall|i: int|
        0 <= i < n ==> #[trigger] t.relays.policies[i] == s.relays.policies[i]
    &&& t.relays.policies[n].id == n + 1
    &&& same_but_for_id(t.relays.policies[n], policy)
    &&& t.relays.bearers.len() == k + 1
    &&& forall|i: int| 0 <= i < k ==> #[trigger] t.relays.bearers[i] == s.relays.bearers[i]
    &&& t.relays.bearers[k].policy_id == n + 1
    &&& t.relays.bearers[k].token_id == bearer.token_id@
    &&& laws::relaying::bears(t.relays.bearers[k], dek, bearer.token@)
    &&& t.relays.bearers[k].issued_at_ms == bearer.issued_at_ms
    &&& t.relays.bearers[k].expires_at_ms == bearer.expires_at_ms
    &&& t.relays.bearers[k].client_uid == peer_uid
    &&& t.relays.bearers[k].client_pid == peer_pid
    &&& !t.relays.bearers[k].revoked
    &&& laws::logging::one_row_more(
        s.store,
        t.store,
        s.owner_uid,
        "relay_mint"@,
        Some(policy.relay_id),
        AuditDetail::Minted {
            policy_id: bearer.policy_id,
            ttl_secs: granted(requested_secs) as i64,
        },
        AuditOutcome::Succeeded,
    )
    &&& laws::logging::told_then(before, after, t.store.audit.last(), Seq::empty())
    &&& t.dek == s.dek
}

proof fn lemma_minted(
    s: EngineView,
    before: Seq<EventView>,
    t: EngineView,
    after: Seq<EventView>,
    mint: MintView,
    now_ms: i64,
    token_bytes: Seq<u8>,
    id_bytes: Seq<u8>,
    bearer: Bearer,
)
    requires
        model::mint_effect(s, before, t, after, mint, now_ms, token_bytes, id_bytes, bearer),
    ensures
        minted(
            s,
            t,
            before,
            after,
            mint.policy,
            mint.requested_ttl_secs,
            mint.peer_uid,
            mint.peer_pid,
            now_ms,
            token_bytes,
            id_bytes,
            bearer,
        ),
{
    let dek = s.dek.unwrap();
    let row = model::new_bearer(s, dek, mint, now_ms, token_bytes, id_bytes);
    let grown = EngineView {
        relays: BrokerView {
            policies: s.relays.policies.push(model::new_policy(s, mint)),
            bearers: s.relays.bearers.push(row),
        },
        ..s
    };
    laws::logging::law_entry_is_one_row_more(
        grown,
        before,
        t,
        after,
        model::minted_entry(s, mint),
        Seq::empty(),
    );
}

/// A bearer that was minted is the one that was asked for, in every field, at the time that the
/// clock told and of bytes that the operating system gave; and the key device was there.
pub proof fn law_minted_bearer_is_the_one_asked_for<S: Store, C: Clock, U: UsbProbe>(
    e: &mut Engine<S, C, U>,
    spec_policy: RelayPolicy,
    requested_ttl_secs: i64,
    peer_uid: Option<u32>,
    peer_pid: Option<u32>,
    sink: &mut EventSink,
    bearer: Bearer,
)
    requires
        call_ensures(
            Engine::<S, C, U>::relay_mint,
            (e, spec_policy, requested_ttl_secs, peer_uid, peer_pid, sink),
            Ok::<Bearer, EngineError>(bearer),
        ),
    ensures
        old(e).usb_seen(true),
        exists|now_ms: i64, token_bytes: Seq<u8>, id_bytes: Seq<u8>|
            {
                &&& seam::timed(&old(e).clock_seam(), now_ms)
                &&& entropy::drawn(32, token_bytes)
                &&& entropy::drawn(16, id_bytes)
                &&& token_bytes.len() == 32
                &&& id_bytes.len() == 16
                &&& #[trigger] minted(
                    old(e).state(),
                    final(e).state(),
                    old(sink)@,
                    final(sink)@,
                    spec_policy@,
                    requested_ttl_secs,
                    peer_uid,
                    peer_pid,
                    now_ms,
                    token_bytes,
                    id_bytes,
                    bearer,
                )
            },
{
    let mint = MintView { policy: spec_policy@, requested_ttl_secs, peer_uid, peer_pid };
    let (now_ms, token_bytes, id_bytes) = choose|
        now_ms: i64,
        token_bytes: Seq<u8>,
        id_bytes: Seq<u8>,
    |
        {
            &&& #[trigger] model::mint_effect(
                old(e).state(),
                old(sink)@,
                final(e).state(),
                final(sink)@,
                mint,
                now_ms,
                token_bytes,
                id_bytes,
                bearer,
            )
            &&& seam::timed(&old(e).clock_seam(), now_ms)
            &&& token_bytes.len() == 32
            &&& entropy::drawn(32, token_bytes)
            &&& id_bytes.len() == 16
            &&& entropy::drawn(16, id_bytes)
        };
    lemma_minted(
        old(e).state(),
        old(sink)@,
        final(e).state(),
        final(sink)@,
        mint,
        now_ms,
        token_bytes,
        id_bytes,
        bearer,
    );
}

/// Minting succeeds on an open vault where the key device is seen, neither the store nor the log
/// fails, there are random bytes, and there is a number left; and is refused where the device is
/// not seen.
pub proof fn law_minting_succeeds_with_the_device<S: Store, C: Clock, U: UsbProbe>(
    e: &mut Engine<S, C, U>,
    spec_policy: RelayPolicy,
    requested_ttl_secs: i64,
    peer_uid: Option<u32>,
    peer_pid: Option<u32>,
    sink: &mut EventSink,
    result: Result<Bearer, EngineError>,
)
    requires
        call_ensures(
            Engine::<S, C, U>::relay_mint,
            (e, spec_policy, requested_ttl_secs, peer_uid, peer_pid, sink),
            result,
        ),
        old(e).dependable(),
        old(e).state().store.audit.len() < i64::MAX,
        old(e).state().relays.policies.len() < i64::MAX,
    ensures
        old(e).state().dek is None ==> result == Err::<Bearer, EngineError>(EngineError::Locked),
        old(e).state().dek is Some && !old(e).usb_seen(false) ==> result is Ok || (result
            == Err::<Bearer, EngineError>(EngineError::EntropyUnavailable) && (
        entropy::none_drawn(32) || entropy::none_drawn(16))),
        old(e).state().dek is Some && !old(e).usb_seen(true) ==> {
            &&& result == Err::<Bearer, EngineError>(EngineError::UsbRequired)
            &&& final(e).state().relays == old(e).state().relays
            &&& laws::logging::one_row_more(
                old(e).state().store,
                final(e).state().store,
                old(e).state().owner_uid,
                "relay_mint"@,
                Some(spec_policy.relay_id@),
                AuditDetail::Cause { reason: Reason::KeyDeviceAbsent },
                AuditOutcome::Refused,
            )
        },
        result == Err::<Bearer, EngineError>(EngineError::UsbRequired)
            ==> laws::relaying::device_missed(
            &old(e).usb_seam(),
            old(e).state().store.slots,
            old(e).state().dek.unwrap(),
        ),
{
    assert(old(e).reliable(StoreCall::LoadKeyslots));
    assert(old(e).reliable(StoreCall::AppendAudit));
    assert(old(e).reliable(StoreCall::PutMeta));
    if result == Err::<Bearer, EngineError>(EngineError::UsbRequired) {
        laws::relaying::lemma_unseen_is_missed(&*old(e));
        laws::logging::law_entry_is_one_row_more(
            old(e).state(),
            old(sink)@,
            final(e).state(),
            final(sink)@,
            model::refused_entry(
                "relay_mint"@,
                spec_policy@.relay_id,
                AuditDetail::Cause { reason: Reason::KeyDeviceAbsent },
            ),
            seq![
                EventView::GuardRefused {
                    subject: spec_policy@.relay_id,
                    reason: Reason::KeyDeviceAbsent.words(),
                },
            ],
        );
    }
}

/// Where minting fails, for whatever reason, no policy and no bearer is added, and no bearer
/// changes.
pub proof fn law_failed_mint_leaves_no_bearer<S: Store, C: Clock, U: UsbProbe>(
    e: &mut Engine<S, C, U>,
    spec_policy: RelayPolicy,
    requested_ttl_secs: i64,
    peer_uid: Option<u32>,
    peer_pid: Option<u32>,
    sink: &mut EventSink,
    error: EngineError,
)
    requires
        call_ensures(
            Engine::<S, C, U>::relay_mint,
            (e, spec_policy, requested_ttl_secs, peer_uid, peer_pid, sink),
            Err::<Bearer, EngineError>(error),
        ),
    ensures
        final(e).state().relays == old(e).state().relays,
        final(e).state().dek == old(e).state().dek,
        final(e).state().store.secrets == old(e).state().store.secrets,
        final(e).state().store.slots == old(e).state().store.slots,
        error == EngineError::PoliciesExhausted ==> old(e).state().relays.policies.len()
            >= i64::MAX,
{
}

/// Whether two policies agree in all but whether they are revoked.
pub open spec fn same_but_for_revocation(a: PolicyView, b: PolicyView) -> bool {
    a.id == b.id && same_but_for_id(PolicyView { revoked: b.revoked, ..a }, b)
}

/// Whether two bearers agree in all but whether they are revoked.
pub open spec fn same_bearer(a: BearerView, b: BearerView) -> bool {
    &&& a.policy_id == b.policy_id
    &&& a.token_id == b.token_id
    &&& a.mac == b.mac
    &&& a.issued_at_ms == b.issued_at_ms
    &&& a.expires_at_ms == b.expires_at_ms
    &&& a.client_uid == b.client_uid
    &&& a.client_pid == b.client_pid
}

/// The policies that are revoked after and were not before.
pub open spec fn newly_revoked_policies(a: BrokerView, b: BrokerView) -> Set<int> {
    Set::new(
        |i: int|
            0 <= i < a.policies.len() && !a.policies[i].revoked && b.policies[i].revoked,
    )
}

/// The bearers that are revoked after and were not before.
pub open spec fn newly_revoked_bearers(a: BrokerView, b: BrokerView) -> Set<int> {
    Set::new(
        |i: int| 0 <= i < a.bearers.len() && !a.bearers[i].revoked && b.bearers[i].revoked,
    )
}

/// Whether a count is that of all policies and bearers that were flipped, as far as it goes.
pub open spec fn counts_flipped(a: BrokerView, b: BrokerView, count: u32) -> bool {
    let n = newly_revoked_policies(a, b).len() + newly_revoked_bearers(a, b).len();
    &&& newly_revoked_policies(a, b).finite()
    &&& newly_revoked_bearers(a, b).finite()
    &&& n <= u32::MAX ==> count == n
    &&& n > u32::MAX ==> count == u32::MAX
}

proof fn lemma_count_policies(a: BrokerView, b: BrokerView, n: nat)
    requires
        n <= a.policies.len(),
        forall|i: int|
            0 <= i < a.policies.len() && (#[trigger] a.policies[i]).revoked
                ==> b.policies[i].revoked,
    ensures
        ({
            let set = Set::new(
                |i: int| 0 <= i < n && !a.policies[i].revoked && b.policies[i].revoked,
            );
            set.finite() && set.len() == ledger::changed_policies(a.policies, b.policies, n)
        }),
    decreases n,
{
    let set = Set::new(|i: int| 0 <= i < n && !a.policies[i].revoked && b.policies[i].revoked);
    if n == 0 {
        assert(set =~= Set::<int>::empty());
    } else {
        let k = (n - 1) as nat;
        lemma_count_policies(a, b, k);
        let less = Set::new(
            |i: int| 0 <= i < k && !a.policies[i].revoked && b.policies[i].revoked,
        );
        if a.policies[k as int].revoked != b.policies[k as int].revoked {
            assert(set =~= less.insert(k as int));
        } else {
            assert(set =~= less);
        }
    }
}

proof fn lemma_count_bearers(a: BrokerView, b: BrokerView, n: nat)
    requires
        n <= a.bearers.len(),
        forall|i: int|
            0 <= i < a.bearers.len() && (#[trigger] a.bearers[i]).revoked ==> b.bearers[i].revoked,
    ensures
        ({
            let set = Set::new(
                |i: int| 0 <= i < n && !a.bearers[i].revoked && b.bearers[i].revoked,
            );
            set.finite() && set.len() == ledger::changed_bearers(a.bearers, b.bearers, n)
        }),
    decreases n,
{
    let set = Set::new(|i: int| 0 <= i < n && !a.bearers[i].revoked && b.bearers[i].revoked);
    if n == 0 {
        assert(set =~= Set::<int>::empty());
    } else {
        let k = (n - 1) as nat;
        lemma_count_bearers(a, b, k);
        let less = Set::new(
            |i: int| 0 <= i < k && !a.bearers[i].revoked && b.bearers[i].revoked,
        );
        if a.bearers[k as int].revoked != b.bearers[k as int].revoked {
            assert(set =~= less.insert(k as int));
        } else {
            assert(set =~= less);
        }
    }
}

proof fn lemma_counts_flipped(a: BrokerView, b: BrokerView)
    requires
        forall|i: int|
            0 <= i < a.policies.len() && (#[trigger] a.policies[i]).revoked
                ==> b.policies[i].revoked,
        forall|i: int|
            0 <= i < a.bearers.len() && (#[trigger] a.bearers[i]).revoked ==> b.bearers[i].revoked,
    ensures
        counts_flipped(a, b, ledger::flipped(a, b)),
{
    lemma_count_policies(a, b, a.policies.len());
    lemma_count_bearers(a, b, a.bearers.len());
    assert(newly_revoked_policies(a, b) =~= Set::new(
        |i: int|
            0 <= i < a.policies.len() && !a.policies[i].revoked && b.policies[i].revoked,
    ));
    assert(newly_revoked_bearers(a, b) =~= Set::new(
        |i: int| 0 <= i < a.bearers.len() && !a.bearers[i].revoked && b.bearers[i].revoked,
    ));
}

/// Whether exactly the policies of a relay and their bearers were revoked.
pub open spec fn relay_is_revoked(a: BrokerView, b: BrokerView, relay_id: Seq<char>) -> bool {
    &&& b.policies.len() == a.policies.len()
    &&& b.bearers.len() == a.bearers.len()
    &&& forall|i: int|
        0 <= i < a.policies.len() ==> same_but_for_revocation(
            #[trigger] a.policies[i],
            b.policies[i],
        ) && b.policies[i].revoked == (a.policies[i].revoked || a.policies[i].relay_id == relay_id)
    &&& forall|j: int|
        0 <= j < a.bearers.len() ==> same_bearer(#[trigger] a.bearers[j], b.bearers[j])
            && b.bearers[j].revoked == (a.bearers[j].revoked || exists|i: int|
            0 <= i < a.policies.len() && (#[trigger] a.policies[i]).id == a.bearers[j].policy_id
                && a.policies[i].relay_id == relay_id)
}

/// Revoking a relay revokes all its policies and all their bearers, whoever was not revoked yet,
/// and nobody else, and says how many it were. Without `apply` nobody is.
pub proof fn law_revoking_a_relay<S: Store, C: Clock, U: UsbProbe>(
    e: &mut Engine<S, C, U>,
    relay_id: &str,
    apply: bool,
    sink: &mut EventSink,
    result: Result<u32, EngineError>,
)
    requires
        call_ensures(
            Engine::<S, C, U>::relay_revoke,
            (e, relay_id, apply, sink),
            result,
        ),
    ensures
        apply ==> relay_is_revoked(old(e).state().relays, final(e).state().relays, relay_id@),
        !apply ==> final(e).state().relays == old(e).state().relays,
        result matches Ok(count) ==> if apply {
            &&& counts_flipped(old(e).state().relays, final(e).state().relays, count)
            &&& laws::logging::one_row_more(
                old(e).state().store,
                final(e).state().store,
                old(e).state().owner_uid,
                "relay_revoke"@,
                Some(relay_id@),
                AuditDetail::Revoked { count },
                AuditOutcome::Succeeded,
            )
            &&& laws::logging::told_then(
                old(sink)@,
                final(sink)@,
                final(e).state().store.audit.last(),
                Seq::empty(),
            )
        } else {
            &&& count == 0
            &&& laws::logging::one_row_more(
                old(e).state().store,
                final(e).state().store,
                old(e).state().owner_uid,
                "relay_revoke"@,
                Some(relay_id@),
                AuditDetail::Cause { reason: Reason::RevokeDryRun },
                AuditOutcome::Refused,
            )
            &&& laws::logging::told_then(
                old(sink)@,
                final(sink)@,
                final(e).state().store.audit.last(),
                seq![
                    EventView::GuardRefused {
                        subject: relay_id@,
                        reason: Reason::RevokeDryRun.words(),
                    },
                ],
            )
        },
        old(e).dependable() && old(e).state().store.audit.len() < i64::MAX ==> result is Ok,
        final(e).state().dek == old(e).state().dek,
{
    let s = old(e).state();
    let t = final(e).state();
    if apply {
        assert forall|i: int| 0 <= i < s.relays.policies.len() implies same_but_for_revocation(
            #[trigger] s.relays.policies[i],
            t.relays.policies[i],
        ) && t.relays.policies[i].revoked == (s.relays.policies[i].revoked
            || s.relays.policies[i].relay_id == relay_id@) by {
            assert(t.relays.policies[i] == ledger::revoked_policy(
                s.relays.policies[i],
                relay_id@,
            ));
        }
        assert forall|j: int| 0 <= j < s.relays.bearers.len() implies same_bearer(
            #[trigger] s.relays.bearers[j],
            t.relays.bearers[j],
        ) && t.relays.bearers[j].revoked == (s.relays.bearers[j].revoked || exists|i: int|
            0 <= i < s.relays.policies.len() && (#[trigger] s.relays.policies[i]).id
                == s.relays.bearers[j].policy_id && s.relays.policies[i].relay_id == relay_id@) by {
            assert(t.relays.bearers[j] == ledger::revoked_with_relay(
                s.relays.policies,
                s.relays.bearers[j],
                relay_id@,
            ));
        }
        lemma_counts_flipped(s.relays, t.relays);
    }
    if result is Ok {
        let count = result.unwrap();
        if apply {
            laws::logging::law_entry_is_one_row_more(
                EngineView { relays: t.relays, ..s },
                old(sink)@,
                t,
                final(sink)@,
                model::revoked_entry("relay_revoke"@, relay_id@, count),
                Seq::empty(),
            );
        } else {
            laws::logging::law_entry_is_one_row_more(
                s,
                old(sink)@,
                t,
                final(sink)@,
                model::refused_entry(
                    "relay_revoke"@,
                    relay_id@,
                    AuditDetail::Cause { reason: Reason::RevokeDryRun },
                ),
                seq![
                    EventView::GuardRefused {
                        subject: relay_id@,
                        reason: Reason::RevokeDryRun.words(),
                    },
                ],
            );
        }
    }
    assert(old(e).dependable() ==> old(e).reliable(StoreCall::AppendAudit) && old(e).reliable(
        StoreCall::PutMeta,
    ));
}

/// Revoking a bearer revokes the bearers with that token id, and nobody else, and says how many it
/// were. Without `apply` nobody is.
pub proof fn law_revoking_a_bearer<S: Store, C: Clock, U: UsbProbe>(
    e: &mut Engine<S, C, U>,
    token_id: &str,
    apply: bool,
    sink: &mut EventSink,
    result: Result<u32, EngineError>,
)
    requires
        call_ensures(
            Engine::<S, C, U>::relay_revoke_bearer,
            (e, token_id, apply, sink),
            result,
        ),
    ensures
        final(e).state().relays.policies == old(e).state().relays.policies,
        final(e).state().relays.bearers.len() == old(e).state().relays.bearers.len(),
        forall|j: int|
            0 <= j < old(e).state().relays.bearers.len() ==> same_bearer(
                #[trigger] old(e).state().relays.bearers[j],
                final(e).state().relays.bearers[j],
            ) && final(e).state().relays.bearers[j].revoked == (
            old(e).state().relays.bearers[j].revoked || apply
                && old(e).state().relays.bearers[j].token_id == token_id@),
        result matches Ok(count) ==> if apply {
            &&& counts_flipped(old(e).state().relays, final(e).state().relays, count)
            &&& laws::logging::one_row_more(
                old(e).state().store,
                final(e).state().store,
                old(e).state().owner_uid,
                "relay_revoke_bearer"@,
                Some(token_id@),
                AuditDetail::Revoked { count },
                AuditOutcome::Succeeded,
            )
            &&& laws::logging::told_then(
                old(sink)@,
                final(sink)@,
                final(e).state().store.audit.last(),
                Seq::empty(),
            )
        } else {
            &&& count == 0
            &&& laws::logging::one_row_more(
                old(e).state().store,
                final(e).state().store,
                old(e).state().owner_uid,
                "relay_revoke_bearer"@,
                Some(token_id@),
                AuditDetail::Cause { reason: Reason::RevokeDryRun },
                AuditOutcome::Refused,
            )
            &&& laws::logging::told_then(
                old(sink)@,
                final(sink)@,
                final(e).state().store.audit.last(),
                seq![
                    EventView::GuardRefused {
                        subject: token_id@,
                        reason: Reason::RevokeDryRun.words(),
                    },
                ],
            )
        },
        old(e).dependable() && old(e).state().store.audit.len() < i64::MAX ==> result is Ok,
        final(e).state().dek == old(e).state().dek,
{
    let s = old(e).state();
    let t = final(e).state();
    if apply {
        assert forall|j: int| 0 <= j < s.relays.bearers.len() implies t.relays.bearers[j]
            == ledger::revoked_bearer(#[trigger] s.relays.bearers[j], token_id@) by {}
        lemma_counts_flipped(s.relays, t.relays);
    }
    if result is Ok {
        let count = result.unwrap();
        if apply {
            laws::logging::law_entry_is_one_row_more(
                EngineView { relays: t.relays, ..s },
                old(sink)@,
                t,
                final(sink)@,
                model::revoked_entry("relay_revoke_bearer"@, token_id@, count),
                Seq::empty(),
            );
        } else {
            laws::logging::law_entry_is_one_row_more(
                s,
                old(sink)@,
                t,
                final(sink)@,
                model::refused_entry(
                    "relay_revoke_bearer"@,
                    token_id@,
                    AuditDetail::Cause { reason: Reason::RevokeDryRun },
                ),
                seq![
                    EventView::GuardRefused {
                        subject: token_id@,
                        reason: Reason::RevokeDryRun.words(),
                    },
                ],
            );
        }
    }
    assert(old(e).dependable() ==> old(e).reliable(StoreCall::AppendAudit) && old(e).reliable(
        StoreCall::PutMeta,
    ));
}

} // verus!
