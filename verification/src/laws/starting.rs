//! What an engine starts with, and the small parts that it is made of.
use vstd::prelude::*;
use crate::broker::ledger::{BearerRow, Broker};
use crate::broker::policy::RelayPolicy;
use crate::broker::token;
use crate::codec;
use crate::engine::journal;
use crate::engine::relay;
use crate::engine::relay::{EgressResp, SwapOutcome};
use crate::engine::Engine;
use crate::error::EngineError;
use crate::event::AuditRecord;
use crate::keyslot::{Dek, Kek, Keyslot};
use crate::laws;
use crate::primitives;
use crate::seam::{Clock, SystemClock, UsbProbe};
use crate::vault::store::{SecretRow, Store, StoreCall, StoreView};
use crate::vault::{InMemStore, Vault};

verus! {

/// An engine starts locked, without relays, over the store, the clock and the probe that it was
/// given, and for the user that it was given.
pub proof fn law_engine_starts_locked<S: Store, C: Clock, U: UsbProbe>(
    store: S,
    clock: C,
    usb: U,
    owner_uid: u32,
    e: Engine<S, C, U>,
    call: StoreCall,
)
    requires
        call_ensures(Engine::<S, C, U>::with_owner, (store, clock, usb, owner_uid), e)
            || call_ensures(Engine::<S, C, U>::with_seams, (store, clock, usb), e),
    ensures
        e.state().dek is None,
        e.state().relays.policies.len() == 0,
        e.state().relays.bearers.len() == 0,
        e.state().store == store.state(),
        e.clock_seam() == clock,
        e.usb_seam() == usb,
        e.reliable(call) == store.reliable(call),
        call_ensures(Engine::<S, C, U>::with_owner, (store, clock, usb, owner_uid), e)
            ==> e.state().owner_uid == owner_uid,
{
}

/// An engine in memory starts locked, without relays and with nothing in its store, which never
/// fails.
pub proof fn law_engine_in_memory_starts_empty<U: UsbProbe>(
    usb: U,
    e: Engine<InMemStore, SystemClock, U>,
    key: Seq<char>,
    call: StoreCall,
)
    requires
        call_ensures(Engine::<InMemStore, SystemClock, U>::open, (usb,), e),
    ensures
        e.state().dek is None,
        e.state().relays.policies.len() == 0,
        e.state().relays.bearers.len() == 0,
        !e.state().store.meta.dom().contains(key),
        e.state().store.slots.len() == 0,
        e.state().store.secrets.len() == 0,
        e.state().store.audit.len() == 0,
        e.state().store.next_row_id == 1,
        e.usb_seam() == usb,
        e.reliable(call),
{
}

/// An engine says that it is unlocked exactly where it has a live key, and hands its store out.
pub proof fn law_engine_says_whether_it_is_unlocked<S: Store, C: Clock, U: UsbProbe>(
    e: &Engine<S, C, U>,
    unlocked: bool,
    store: &S,
)
    requires
        call_ensures(Engine::<S, C, U>::is_unlocked, (e,), unlocked),
        call_ensures(Engine::<S, C, U>::store, (e,), store),
    ensures
        unlocked <==> e.state().dek is Some,
        store.state() == e.state().store,
{
}

/// A vault that is unlocked holds its key, and one that was locked holds none.
pub proof fn law_vault_holds_its_key(
    v: &Vault,
    unlocked: bool,
    dek: Option<&Dek>,
    locking: &mut Vault,
)
    requires
        call_ensures(Vault::is_unlocked, (v,), unlocked),
        call_ensures(Vault::dek, (v,), dek),
        call_ensures(Vault::lock, (locking,), ()),
    ensures
        unlocked <==> *v is Unlocked,
        *v matches Vault::Unlocked { dek: live } ==> (dek matches Some(d) && d.0@ == live.0@),
        *v is Locked ==> dek is None,
        *final(locking) is Locked,
{
}

/// What is kept of a bearer is a MAC of the whole token, and a token is accepted exactly where the
/// kept MAC is its own, all of it.
pub proof fn law_bearer_is_kept_as_a_mac(
    key: &[u8; 32],
    bearer: &str,
    mac: Vec<u8>,
    presented: &str,
    kept: &[u8],
    accepted: bool,
)
    requires
        call_ensures(token::mac_bearer, (key, bearer), mac),
        call_ensures(token::verify_bearer, (key, presented, kept), accepted),
    ensures
        mac@ == primitives::blake3_keyed_hash(key@, vstd::utf8::encode_utf8(bearer@)),
        accepted <==> kept@ == primitives::blake3_keyed_hash(
            key@,
            vstd::utf8::encode_utf8(presented@),
        ),
{
}

/// What the upstream answered is passed on as it is, and so is why it failed.
pub proof fn law_reply_is_passed_on(reply: Result<EgressResp, String>, outcome: SwapOutcome)
    requires
        call_ensures(relay::finish_swap, (reply,), outcome),
    ensures
        reply matches Ok(resp) ==> outcome == SwapOutcome::Allowed(resp),
        reply matches Err(why) ==> outcome == SwapOutcome::InternalRefused(why),
{
}

/// A broker starts without policies and bearers, and enlisting adds one of each behind the others.
pub proof fn law_enlisting_adds_one_of_each(
    fresh: Broker,
    broker: &mut Broker,
    policy: RelayPolicy,
    bearer: BearerRow,
)
    requires
        call_ensures(Broker::new, (), fresh),
        call_ensures(Broker::enlist, (broker, policy, bearer), ()),
    ensures
        fresh@.policies.len() == 0,
        fresh@.bearers.len() == 0,
        ({
            let n = old(broker)@.policies.len() as int;
            let m = old(broker)@.bearers.len() as int;
            &&& final(broker)@.policies.len() == n + 1
            &&& final(broker)@.bearers.len() == m + 1
            &&& final(broker)@.policies[n] == policy@
            &&& final(broker)@.bearers[m] == bearer@
            &&& forall|i: int|
                0 <= i < n ==> #[trigger] final(broker)@.policies[i] == old(broker)@.policies[i]
            &&& forall|i: int|
                0 <= i < m ==> #[trigger] final(broker)@.bearers[i] == old(broker)@.bearers[i]
        }),
{
}

/// A copy has all that its original has.
pub proof fn law_copies_are_whole(
    slot: &Keyslot,
    slot_copy: Keyslot,
    row: &AuditRecord,
    row_copy: AuditRecord,
    secret: &SecretRow,
    secret_copy: SecretRow,
    bytes: &[u8],
    bytes_copy: Vec<u8>,
)
    requires
        call_ensures(Keyslot::duplicate, (slot,), slot_copy),
        call_ensures(AuditRecord::duplicate, (row,), row_copy),
        call_ensures(SecretRow::duplicate, (secret,), secret_copy),
        call_ensures(codec::copy_bytes, (bytes,), bytes_copy),
    ensures
        slot_copy@ == slot@,
        row_copy@ == row@,
        secret_copy@ == secret@,
        bytes_copy@ == bytes@,
{
}

/// Texts and bytes are the same only where they are the same to the end.
pub proof fn law_sameness_is_to_the_end(
    a: &str,
    b: &str,
    same_text: bool,
    x: &[u8],
    y: &[u8],
    same_bytes: bool,
)
    requires
        call_ensures(codec::str_eq, (a, b), same_text),
        call_ensures(codec::bytes_eq, (x, y), same_bytes),
    ensures
        same_text <==> a@ == b@,
        same_bytes <==> x@.len() == y@.len() && forall|i: int|
            0 <= i < x@.len() ==> #[trigger] x@[i] == y@[i],
{
    if x@.len() == y@.len() && forall|i: int| 0 <= i < x@.len() ==> #[trigger] x@[i] == y@[i] {
        assert(x@ =~= y@);
    }
}

/// A key that was wiped is zero in every byte.
pub proof fn law_wiped_key_is_zero(dek: &mut Dek, kek: &mut Kek, i: int)
    requires
        call_ensures(Dek::wipe, (dek,), ()),
        call_ensures(Kek::wipe, (kek,), ()),
        0 <= i < 32,
    ensures
        final(dek).0@[i] == 0,
        final(kek).0@[i] == 0,
{
    assert(final(dek)@[i] == 0);
    assert(final(kek)@[i] == 0);
}

/// The array that is made of 32 bytes has each of them in its place.
pub proof fn law_array_is_its_bytes(bytes: &[u8], array: [u8; 32], i: int)
    requires
        call_ensures(primitives::to_array32, (bytes,), array),
        0 <= i < 32,
    ensures
        array@[i] == bytes@[i],
{
}

/// Anchoring sets the anchor to the MAC over the last row of the log, or over a log without rows,
/// and touches nothing else.
pub proof fn law_anchoring_covers_the_last_row<S: Store>(store: &mut S, dek: &Dek)
    requires
        call_ensures(journal::anchor_tail, (store, dek), Ok::<(), EngineError>(())),
    ensures
        ({
            let s = old(store).state();
            let t = final(store).state();
            let key = "vault.audit_head"@;
            let last = s.audit.last();
            &&& t.meta.dom().contains(key)
            &&& s.audit.len() > 0 ==> t.meta[key] == codec::hex_text(
                laws::logging::anchor_at(dek.0@, last.seq, last.row_hash),
            )
            &&& s.audit.len() == 0 ==> t.meta[key] == codec::hex_text(
                laws::logging::anchor_at(dek.0@, 0, Seq::<u8>::empty()),
            )
            &&& forall|k: Seq<char>|
                k != key ==> (#[trigger] t.meta.dom().contains(k) <==> s.meta.dom().contains(k))
                    && (s.meta.dom().contains(k) ==> t.meta[k] == s.meta[k])
            &&& t == (StoreView { meta: t.meta, ..s })
        }),
{
    let s = old(store).state();
    laws::logging::lemma_anchor_at(dek.0@, s.audit.last().seq, s.audit.last().row_hash);
    laws::logging::lemma_anchor_at(dek.0@, 0, Seq::<u8>::empty());
}

} // verus!
