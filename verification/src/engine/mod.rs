//! The engine: the one interface through which the vault is driven. Every security operation
//! appends a hash-chained audit row before it returns, and tells what it did as a list of events.
use vstd::prelude::*;
use crate::broker::ledger::Broker;
use crate::engine::model::{EngineView, MetaView};
use crate::primitives::current_uid;
use crate::seam::{Clock, SystemClock, UsbProbe};
use crate::vault::store::StoreCall;
use crate::vault::{InMemStore, Store, Vault};

pub mod ca;
pub mod init;
pub mod journal;
pub mod model;
pub mod relay;
pub mod secrets;
pub mod unlock;

verus! {

/// The vault with its store, its clock and its key-device probe.
pub struct Engine<S: Store, C: Clock, U: UsbProbe> {
    vault: Vault,
    broker: Broker,
    store: S,
    clock: C,
    usb: U,
    owner_uid: u32,
}

/// The factor that the operator presents.
pub enum Unlock {
    Usb,
    Passphrase(String),
}

/// What is known of a secret besides its body.
#[derive(Clone, Debug)]
pub struct SecretMeta {
    pub name: String,
    pub provider: crate::broker::policy::Provider,
    pub note: String,
    pub broker_only: bool,
}

impl View for SecretMeta {
    type V = MetaView;

    open spec fn view(&self) -> MetaView {
        MetaView {
            name: self.name@,
            provider: self.provider,
            note: self.note@,
            broker_only: self.broker_only,
        }
    }
}

/// Whether a user id is the one that the operating system gave for this process.
pub closed spec fn is_process_owner(uid: u32) -> bool {
    call_ensures(current_uid, (), uid)
}

impl<U: UsbProbe> Engine<InMemStore, SystemClock, U> {
    /// An engine over the clock of the system and an empty store in memory, working for the user of
    /// this process. The vault is locked.
    pub fn open(usb: U) -> (engine: Engine<InMemStore, SystemClock, U>)
        ensures
            engine.dependable(),
            engine.usb_seam() == usb,
            engine.state().dek is None,
            engine.state().relays == crate::broker::ledger::empty_broker(),
            engine.state().store == (crate::vault::store::StoreView {
                meta: Map::empty(),
                slots: Seq::empty(),
                secrets: Seq::empty(),
                next_row_id: 1,
                audit: Seq::empty(),
            }),
            engine.state().reads_tail,
            engine.state().writes_meta,
            is_process_owner(engine.state().owner_uid),
    {
        Engine::with_seams(InMemStore::new(), SystemClock, usb)
    }
}

impl<S: Store, C: Clock, U: UsbProbe> Engine<S, C, U> {
    /// What the engine holds.
    pub closed spec fn state(&self) -> EngineView {
        EngineView {
            dek: self.vault@,
            store: self.store.state(),
            relays: self.broker@,
            owner_uid: self.owner_uid,
            reads_tail: self.store.reliable(StoreCall::LastAudit),
            writes_meta: self.store.reliable(StoreCall::PutMeta),
        }
    }

    /// The clock of the engine.
    pub closed spec fn clock_seam(&self) -> C {
        self.clock
    }

    /// The key-device probe of the engine.
    pub closed spec fn usb_seam(&self) -> U {
        self.usb
    }

    /// Whether a method of the store behind the engine does not fail by itself.
    pub closed spec fn reliable(&self, call: StoreCall) -> bool {
        self.store.reliable(call)
    }

    /// Whether no method of the store fails by itself, and its rows are in order.
    pub open spec fn dependable(&self) -> bool {
        &&& forall|c: StoreCall| #[trigger] self.reliable(c)
        &&& crate::vault::store::store_ordered(self.state().store)
    }

    /// Whether nothing but a full audit log keeps an entry from being written.
    pub open spec fn logs_surely(&self) -> bool {
        &&& self.reliable(StoreCall::AppendAudit)
        &&& self.state().dek is None || self.reliable(StoreCall::PutMeta)
    }

    /// Whether these are the answers of the key-device probe for the stored slots.
    pub open spec fn probe_gave(&self, keyfiles: Seq<Option<Seq<u8>>>) -> bool {
        crate::engine::unlock::probed(&self.usb_seam(), self.state().store.slots, keyfiles)
    }

    /// Whether the answers of the key-device probe showed that the device is there, or that it is
    /// not: a keyfile opens a slot to the live data key. Without a live key it is not.
    pub open spec fn usb_seen(&self, there: bool) -> bool {
        match self.state().dek {
            Some(dek) => exists|keyfiles: Seq<Option<Seq<u8>>>| #[trigger]
                self.probe_gave(keyfiles) && there == (crate::keyslot::keyfiles_recover(
                    self.state().store.slots,
                    keyfiles,
                ) == Some(dek)),
            None => !there,
        }
    }

    /// What every operation keeps, whether it succeeds or fails: the engine has the same clock, the
    /// same probe, the same owner and the same backend; at most one row was added to the audit log,
    /// at the time that the clock told; and a store in order stays so.
    pub open spec fn continues(&self, before: Self) -> bool {
        &&& self.clock_seam() == before.clock_seam()
        &&& self.usb_seam() == before.usb_seam()
        &&& self.state().owner_uid == before.state().owner_uid
        &&& self.state().reads_tail == before.state().reads_tail
        &&& self.state().reads_tail == self.reliable(StoreCall::LastAudit)
        &&& self.state().writes_meta == before.state().writes_meta
        &&& self.state().writes_meta == self.reliable(StoreCall::PutMeta)
        &&& forall|c: StoreCall|
            #![trigger self.reliable(c)]
            #![trigger before.reliable(c)]
            self.reliable(c) == before.reliable(c)
        &&& self.state().store.audit == before.state().store.audit || {
            &&& self.state().store.audit.len() > 0
            &&& self.state().store.audit.drop_last() == before.state().store.audit
            &&& crate::seam::dated(
                &before.clock_seam(),
                crate::engine::model::last_ts(self.state()),
            )
        }
        &&& crate::vault::store::store_ordered(before.state().store)
            ==> crate::vault::store::store_ordered(self.state().store)
    }

    /// An engine over a given store, clock and probe, working for the user of this process. The
    /// vault is locked.
    pub fn with_seams(store: S, clock: C, usb: U) -> (engine: Engine<S, C, U>)
        ensures
            engine.state().dek is None,
            engine.state().relays == crate::broker::ledger::empty_broker(),
            engine.state().store == store.state(),
            engine.state().reads_tail == store.reliable(StoreCall::LastAudit),
            engine.state().writes_meta == store.reliable(StoreCall::PutMeta),
            is_process_owner(engine.state().owner_uid),
            engine.clock_seam() == clock,
            engine.usb_seam() == usb,
            forall|c: StoreCall| #[trigger] engine.reliable(c) == store.reliable(c),
    {
        Engine::with_owner(store, clock, usb, current_uid())
    }

    /// An engine over a given store, clock and probe, working for a given user. The vault is
    /// locked.
    pub fn with_owner(store: S, clock: C, usb: U, owner_uid: u32) -> (engine: Engine<S, C, U>)
        ensures
            engine.state() == (EngineView {
                dek: None,
                store: store.state(),
                relays: crate::broker::ledger::empty_broker(),
                owner_uid,
                reads_tail: store.reliable(StoreCall::LastAudit),
                writes_meta: store.reliable(StoreCall::PutMeta),
            }),
            engine.clock_seam() == clock,
            engine.usb_seam() == usb,
            forall|c: StoreCall| #[trigger] engine.reliable(c) == store.reliable(c),
    {
        Engine { vault: Vault::Locked, broker: Broker::new(), store, clock, usb, owner_uid }
    }

    /// The store behind the engine.
    pub fn store(&self) -> (store: &S)
        ensures
            store.state() == self.state().store,
            forall|c: StoreCall| #[trigger] store.reliable(c) == self.reliable(c),
    {
        &self.store
    }

    /// Whether the vault holds a live data key.
    pub fn is_unlocked(&self) -> (unlocked: bool)
        ensures
            unlocked == (self.state().dek is Some),
    {
        self.vault.is_unlocked()
    }
}

} // verus!
