//! What holds after any number of operations.
use vstd::prelude::*;
use crate::broker::ledger::BrokerView;
use crate::broker::policy::Bearer;
use crate::engine::model;
use crate::engine::model::{
    EngineView, Entry, MaterialView, MetaView, MintView, ReadVerdict, SwapVerdict, UnlockVerdict,
};
use crate::error::EngineError;
use crate::event::EventView;
use crate::keyslot;
use crate::keyslot::{Argon2Params, Factor};
use crate::laws;
use crate::vault::audit;
use crate::vault::store;

verus! {

/// An engine and what it has told so far.
pub struct World {
    pub engine: EngineView,
    pub events: Seq<EventView>,
}

/// One operation on a vault, on a store that does not fail while it lasts.
pub enum Op {
    /// One that was refused before anything was written.
    Nothing,
    Init {
        m: MaterialView,
        passphrase: Seq<char>,
        uuid: Option<Seq<char>>,
        keyfile: Option<Seq<u8>>,
        params: Argon2Params,
        floor_ms: i64,
    },
    Put { meta: MetaView, body: Seq<u8> },
    Read { name: Seq<char>, reveal: bool, apply: bool },
    Lock,
    Unlock { factor: Factor, recovered: Option<Seq<u8>>, error: Option<EngineError> },
    /// Minting, revoking and swapping: one entry, and whatever becomes of the relays.
    Relay { relays: BrokerView, entry: Entry, then: Seq<EventView> },
}

/// Whether an operation leads from one world to another.
pub open spec fn performs(op: Op, a: World, b: World) -> bool {
    match op {
        Op::Nothing => b.engine == a.engine,
        Op::Init { m, passphrase, uuid, keyfile, params, floor_ms } => {
            &&& model::init_refusal(
                a.engine.store,
                params,
                uuid is Some,
                keyfile is Some,
            ) is None
            &&& model::created(
                a.engine,
                a.events,
                b.engine,
                b.events,
                m,
                passphrase,
                uuid,
                keyfile,
                params,
                floor_ms,
            )
        },
        Op::Put { meta, body } => model::put_effect(
            a.engine,
            a.events,
            b.engine,
            b.events,
            meta,
            body,
        ),
        Op::Read { name, reveal, apply } => {
            &&& a.engine.dek matches Some(dek)
            &&& {
                let verdict = model::read_verdict(a.engine.store, dek, name, reveal, apply);
                model::recorded(
                    a.engine,
                    a.events,
                    b.engine,
                    b.events,
                    model::read_entry(verdict, name),
                    model::read_events(verdict, name, a.engine.owner_uid),
                )
            }
        },
        Op::Lock => model::recorded(
            EngineView { dek: None, ..a.engine },
            a.events,
            b.engine,
            b.events,
            model::locked_entry(),
            seq![EventView::VaultLocked],
        ),
        Op::Unlock { factor, recovered, error } => if a.engine.dek is Some {
            b.engine == a.engine
        } else {
            model::unlock_effect(
                a.engine,
                a.events,
                b.engine,
                b.events,
                factor,
                recovered,
                error,
            )
        },
        Op::Relay { relays, entry, then } => model::recorded(
            EngineView { relays, ..a.engine },
            a.events,
            b.engine,
            b.events,
            entry,
            then,
        ),
    }
}

/// Whether the operations lead from each world to the next.
pub open spec fn history(worlds: Seq<World>, ops: Seq<Op>) -> bool {
    &&& worlds.len() == ops.len() + 1
    &&& forall|i: int|
        0 <= i < ops.len() ==> performs(#[trigger] ops[i], worlds[i], worlds[i + 1])
}

/// Minting a bearer and swapping one are operations on the relays. So is revoking, by its contract.
pub proof fn law_minting_and_swapping_are_operations(
    a: World,
    b: World,
    mint: MintView,
    now_ms: i64,
    token_bytes: Seq<u8>,
    id_bytes: Seq<u8>,
    bearer: Bearer,
    verdict: SwapVerdict,
    bytes_out: u64,
)
    ensures
        model::mint_effect(
            a.engine,
            a.events,
            b.engine,
            b.events,
            mint,
            now_ms,
            token_bytes,
            id_bytes,
            bearer,
        ) ==> performs(
            Op::Relay {
                relays: b.engine.relays,
                entry: model::minted_entry(a.engine, mint),
                then: Seq::empty(),
            },
            a,
            b,
        ),
        model::swap_effect(
            a.engine,
            a.events,
            b.engine,
            b.events,
            verdict,
            bytes_out,
            now_ms,
        ) ==> performs(
            Op::Relay {
                relays: b.engine.relays,
                entry: model::swap_entry(a.engine, verdict),
                then: match verdict {
                    SwapVerdict::Denied { subject, reason } => seq![
                        EventView::GuardRefused { subject, reason: reason.words() },
                    ],
                    _ => Seq::empty(),
                },
            },
            a,
            b,
        ),
{
    assert(EngineView { relays: a.engine.relays, ..a.engine } == a.engine);
}

/// Whether an operation writes a version of a name.
pub open spec fn puts_name(op: Op, name: Seq<char>) -> bool {
    op matches Op::Put { meta, .. } && meta.name == name
}

/// Whether an unlock opens a locked vault under a key other than the given one.
pub open spec fn opens_other(op: Op, s: EngineView, dek: Seq<u8>) -> bool {
    &&& op matches Op::Unlock { recovered, .. }
    &&& s.dek is None
    &&& model::unlock_verdict(s.store, recovered) matches UnlockVerdict::Opened { dek: k }
    &&& k != dek
}

/// Whether an unlock presents a key other than the given one.
pub open spec fn presents_other(op: Op, dek: Seq<u8>) -> bool {
    op matches Op::Unlock { recovered, .. } && recovered is Some && recovered != Some(dek)
}

/// A history without its last operation is one.
proof fn lemma_shorter_history(worlds: Seq<World>, ops: Seq<Op>)
    requires
        history(worlds, ops),
        ops.len() > 0,
    ensures
        history(worlds.drop_last(), ops.drop_last()),
        worlds.drop_last().last() == worlds[ops.len() - 1],
        worlds.drop_last()[0] == worlds[0],
        performs(ops.last(), worlds[ops.len() - 1], worlds.last()),
{
    let w = worlds.drop_last();
    let o = ops.drop_last();
    assert forall|i: int| 0 <= i < o.len() implies performs(#[trigger] o[i], w[i], w[i + 1]) by {
        assert(o[i] == ops[i]);
    }
}

proof fn lemma_init_keeps_secrets(op: Op, a: World, b: World)
    requires
        performs(op, a, b),
        op is Init,
    ensures
        b.engine.store.secrets == a.engine.store.secrets,
        b.engine.store.audit.len() == a.engine.store.audit.len() + 1,
{
    match op {
        Op::Init { m, passphrase, uuid, keyfile, params, floor_ms } => {
            let slots = model::new_slots(m, passphrase, uuid, keyfile, params);
            crate::engine::init::lemma_header_keeps_audit(
                a.engine.store,
                m.dek,
                slots,
                floor_ms,
            );
        },
        _ => {},
    }
}

proof fn lemma_step_keeps_secret(op: Op, a: World, b: World, name: Seq<char>)
    requires
        performs(op, a, b),
        !puts_name(op, name),
    ensures
        store::latest(b.engine.store.secrets, name) == store::latest(a.engine.store.secrets, name),
{
    match op {
        Op::Put { meta, body } => {
            laws::vault::law_put_leaves_others(
                a.engine,
                a.events,
                b.engine,
                b.events,
                meta,
                body,
                name,
                0,
            );
        },
        Op::Init { m, passphrase, uuid, keyfile, params, floor_ms } => {
            lemma_init_keeps_secrets(op, a, b);
        },
        _ => {},
    }
}

/// A secret stays as it is through any history in which nobody writes its name: puts to other
/// names, reads, relay operations, and any number of locks and unlocks.
pub proof fn law_secret_survives_history(worlds: Seq<World>, ops: Seq<Op>, name: Seq<char>)
    requires
        history(worlds, ops),
        forall|i: int| 0 <= i < ops.len() ==> !puts_name(#[trigger] ops[i], name),
    ensures
        store::latest(worlds.last().engine.store.secrets, name) == store::latest(
            worlds[0].engine.store.secrets,
            name,
        ),
        forall|dek: Seq<u8>, reveal: bool, apply: bool| #[trigger]
            model::read_verdict(worlds.last().engine.store, dek, name, reveal, apply)
                == model::read_verdict(worlds[0].engine.store, dek, name, reveal, apply),
    decreases ops.len(),
{
    if ops.len() > 0 {
        let n = ops.len() - 1;
        let w = worlds.drop_last();
        let o = ops.drop_last();
        lemma_shorter_history(worlds, ops);
        assert forall|i: int| 0 <= i < o.len() implies !puts_name(#[trigger] o[i], name) by {
            assert(o[i] == ops[i]);
        }
        law_secret_survives_history(w, o, name);
        lemma_step_keeps_secret(ops[n], worlds[n], worlds[n + 1], name);
    }
}

/// What was put is what a later read under the same key gives back, after any history in which
/// nobody writes the name again: the body where a reveal is applied, and nothing where none is
/// asked for.
pub proof fn law_put_then_history_then_get(
    s: World,
    worlds: Seq<World>,
    ops: Seq<Op>,
    meta: MetaView,
    body: Seq<u8>,
    dek: Seq<u8>,
    apply: bool,
)
    requires
        s.engine.dek == Some(dek),
        worlds.len() > 0,
        model::put_effect(
            s.engine,
            s.events,
            worlds[0].engine,
            worlds[0].events,
            meta,
            body,
        ),
        history(worlds, ops),
        forall|i: int| 0 <= i < ops.len() ==> !puts_name(#[trigger] ops[i], meta.name),
    ensures
        ({
            let last = worlds.last().engine.store;
            let version = (store::latest_version(s.engine.store.secrets, meta.name) + 1) as u32;
            &&& !meta.broker_only ==> model::read_verdict(last, dek, meta.name, true, true) == (
            ReadVerdict::Revealed { version, body })
            &&& model::read_verdict(last, dek, meta.name, false, apply) == (
            ReadVerdict::Consumed { version })
        }),
{
    law_secret_survives_history(worlds, ops, meta.name);
    laws::vault::law_put_then_get(
        s.engine,
        s.events,
        worlds[0].engine,
        worlds[0].events,
        meta,
        body,
        dek,
        true,
        true,
    );
    laws::vault::law_put_then_get(
        s.engine,
        s.events,
        worlds[0].engine,
        worlds[0].events,
        meta,
        body,
        dek,
        false,
        apply,
    );
}

/// Whether a vault is in order for a key: it would open under it, it is locked or open under it,
/// and its log has a row.
pub open spec fn in_order(s: EngineView, dek: Seq<u8>) -> bool {
    &&& model::unlock_verdict(s.store, Some(dek)) == (UnlockVerdict::Opened { dek })
    &&& s.dek is None || s.dek == Some(dek)
    &&& s.store.audit.len() > 0
}

proof fn lemma_step_grows_log(op: Op, a: World, b: World)
    requires
        performs(op, a, b),
    ensures
        a.engine.store.audit.len() <= b.engine.store.audit.len(),
{
    if op is Init {
        lemma_init_keeps_secrets(op, a, b);
    }
}

proof fn lemma_history_grows_log(worlds: Seq<World>, ops: Seq<Op>)
    requires
        history(worlds, ops),
    ensures
        worlds[0].engine.store.audit.len() <= worlds.last().engine.store.audit.len(),
    decreases ops.len(),
{
    if ops.len() > 0 {
        let n = ops.len() - 1;
        lemma_shorter_history(worlds, ops);
        lemma_step_grows_log(ops[n], worlds[n], worlds[n + 1]);
        lemma_history_grows_log(worlds.drop_last(), ops.drop_last());
    }
}

proof fn lemma_entry_keeps_order(
    s: EngineView,
    before: Seq<EventView>,
    t: EngineView,
    after: Seq<EventView>,
    entry: Entry,
    then: Seq<EventView>,
    dek: Seq<u8>,
)
    requires
        model::recorded(s, before, t, after, entry, then),
        in_order(s, dek),
        laws::vault::log_has_room(s.store),
    ensures
        in_order(t, dek),
        t.store.slots == s.store.slots,
{
    laws::vault::law_entries_only_append(s, before, t, after, entry, then);
    laws::vault::law_entries_keep_vault_openable(s, before, t, after, entry, then, dek);
}

proof fn lemma_step_keeps_order(op: Op, a: World, b: World, dek: Seq<u8>)
    requires
        performs(op, a, b),
        in_order(a.engine, dek),
        !opens_other(op, a.engine, dek),
        laws::vault::log_has_room(a.engine.store),
    ensures
        in_order(b.engine, dek),
        b.engine.store.slots == a.engine.store.slots,
{
    match op {
        Op::Nothing => {},
        Op::Init { .. } => {},
        Op::Put { meta, body } => {
            let row = b.engine.store.secrets.last();
            let put = EngineView {
                store: store::with_secret(store::with_row_id_taken(a.engine.store), row),
                ..a.engine
            };
            laws::vault::lemma_verdict_ignores_secrets(a.engine.store, put.store, dek);
            lemma_entry_keeps_order(
                put,
                a.events,
                b.engine,
                b.events,
                model::written_entry(meta.name, row.version),
                seq![EventView::SecretWritten { name: meta.name, version: row.version }],
                dek,
            );
        },
        Op::Read { name, reveal, apply } => {
            let verdict = model::read_verdict(
                a.engine.store,
                a.engine.dek.unwrap(),
                name,
                reveal,
                apply,
            );
            lemma_entry_keeps_order(
                a.engine,
                a.events,
                b.engine,
                b.events,
                model::read_entry(verdict, name),
                model::read_events(verdict, name, a.engine.owner_uid),
                dek,
            );
        },
        Op::Lock => {
            lemma_entry_keeps_order(
                EngineView { dek: None, ..a.engine },
                a.events,
                b.engine,
                b.events,
                model::locked_entry(),
                seq![EventView::VaultLocked],
                dek,
            );
        },
        Op::Unlock { factor, recovered, error } => {
            if a.engine.dek is None {
                match model::unlock_verdict(a.engine.store, recovered) {
                    UnlockVerdict::Unreadable { error } => {},
                    UnlockVerdict::Refused { detail, error } => {
                        lemma_entry_keeps_order(
                            a.engine,
                            a.events,
                            b.engine,
                            b.events,
                            model::unlock_failed_entry(detail),
                            Seq::empty(),
                            dek,
                        );
                    },
                    UnlockVerdict::Opened { dek: k } => {
                        lemma_entry_keeps_order(
                            EngineView { dek: Some(k), ..a.engine },
                            a.events,
                            b.engine,
                            b.events,
                            model::unlocked_entry(factor),
                            seq![EventView::VaultUnlocked { factor }],
                            dek,
                        );
                    },
                }
            }
        },
        Op::Relay { relays, entry, then } => {
            lemma_entry_keeps_order(
                EngineView { relays, ..a.engine },
                a.events,
                b.engine,
                b.events,
                entry,
                then,
                dek,
            );
        },
    }
}

/// A vault that is in order for a key is so after any history in which no other key is recovered:
/// it can always be opened again, and its audit log has no fault. No attempt with a wrong factor,
/// no lock, no write and no relay operation changes that.
pub proof fn law_history_keeps_vault_in_order(worlds: Seq<World>, ops: Seq<Op>, dek: Seq<u8>)
    requires
        history(worlds, ops),
        in_order(worlds[0].engine, dek),
        forall|i: int| 0 <= i < ops.len() ==> !presents_other(#[trigger] ops[i], dek),
        laws::vault::log_has_room(worlds.last().engine.store),
    ensures
        in_order(worlds.last().engine, dek),
        worlds.last().engine.store.slots == worlds[0].engine.store.slots,
        audit::chain_intact(worlds.last().engine.store.audit),
        model::audit_fault(worlds.last().engine.store, dek) is None,
    decreases ops.len(),
{
    if ops.len() > 0 {
        let n = ops.len() - 1;
        let w = worlds.drop_last();
        let o = ops.drop_last();
        lemma_shorter_history(worlds, ops);
        assert forall|i: int| 0 <= i < o.len() implies !presents_other(#[trigger] o[i], dek) by {
            assert(o[i] == ops[i]);
        }
        lemma_step_grows_log(ops[n], worlds[n], worlds[n + 1]);
        law_history_keeps_vault_in_order(w, o, dek);
        lemma_step_keeps_order(ops[n], worlds[n], worlds[n + 1], dek);
    }
}

/// A vault that was made in an empty store is in order for its key, and its passphrase recovers
/// that key.
pub proof fn law_new_vault_is_in_order(
    s: World,
    t: World,
    m: MaterialView,
    passphrase: Seq<char>,
    uuid: Option<Seq<char>>,
    keyfile: Option<Seq<u8>>,
    params: Argon2Params,
    floor_ms: i64,
)
    requires
        s.engine.dek is None,
        s.engine.store.slots.len() == 0,
        audit::chain_intact(s.engine.store.audit),
        laws::vault::log_has_room(s.engine.store),
        model::created(
            s.engine,
            s.events,
            t.engine,
            t.events,
            m,
            passphrase,
            uuid,
            keyfile,
            params,
            floor_ms,
        ),
    ensures
        in_order(t.engine, m.dek),
        keyslot::passphrase_recovers(
            t.engine.store.slots,
            vstd::utf8::encode_utf8(passphrase),
        ) == Some(m.dek),
{
    laws::vault::law_new_vault_opens(
        s.engine,
        s.events,
        t.engine,
        t.events,
        m,
        passphrase,
        uuid,
        keyfile,
        params,
        floor_ms,
    );
    laws::vault::law_init_then_passphrase_opens(
        s.engine,
        s.events,
        t.engine,
        t.events,
        m,
        passphrase,
        uuid,
        keyfile,
        params,
        floor_ms,
    );
}

/// What opens a vault that is in order goes on doing so through any history in which no other key
/// is recovered: a passphrase, and a key device that answers as it did.
pub proof fn law_factors_outlive_history(
    worlds: Seq<World>,
    ops: Seq<Op>,
    dek: Seq<u8>,
    passphrase: Seq<u8>,
    answers: Seq<Option<Seq<u8>>>,
)
    requires
        history(worlds, ops),
        in_order(worlds[0].engine, dek),
        forall|i: int| 0 <= i < ops.len() ==> !presents_other(#[trigger] ops[i], dek),
        laws::vault::log_has_room(worlds.last().engine.store),
    ensures
        keyslot::passphrase_recovers(worlds[0].engine.store.slots, passphrase) == Some(dek)
            ==> model::unlock_verdict(
            worlds.last().engine.store,
            keyslot::passphrase_recovers(worlds.last().engine.store.slots, passphrase),
        ) == (UnlockVerdict::Opened { dek }),
        keyslot::keyfiles_recover(worlds[0].engine.store.slots, answers) == Some(dek)
            ==> model::unlock_verdict(
            worlds.last().engine.store,
            keyslot::keyfiles_recover(worlds.last().engine.store.slots, answers),
        ) == (UnlockVerdict::Opened { dek }),
{
    law_history_keeps_vault_in_order(worlds, ops, dek);
}

/// What was put into a vault in order is what the engine reads back whenever the vault is open,
/// after any history in which nobody writes the name again and no other key is recovered.
pub proof fn law_open_vault_reads_back(
    s: World,
    worlds: Seq<World>,
    ops: Seq<Op>,
    meta: MetaView,
    body: Seq<u8>,
    dek: Seq<u8>,
    apply: bool,
)
    requires
        s.engine.dek == Some(dek),
        in_order(s.engine, dek),
        worlds.len() > 0,
        model::put_effect(
            s.engine,
            s.events,
            worlds[0].engine,
            worlds[0].events,
            meta,
            body,
        ),
        history(worlds, ops),
        forall|i: int| 0 <= i < ops.len() ==> !puts_name(#[trigger] ops[i], meta.name),
        forall|i: int| 0 <= i < ops.len() ==> !presents_other(#[trigger] ops[i], dek),
        laws::vault::log_has_room(worlds.last().engine.store),
    ensures
        worlds.last().engine.dek matches Some(live) ==> {
            let last = worlds.last().engine.store;
            let version = (store::latest_version(s.engine.store.secrets, meta.name) + 1) as u32;
            &&& !meta.broker_only ==> model::read_verdict(last, live, meta.name, true, true) == (
            ReadVerdict::Revealed { version, body })
            &&& model::read_verdict(last, live, meta.name, false, apply) == (
            ReadVerdict::Consumed { version })
        },
{
    let put = Op::Put { meta, body };
    assert(performs(put, s, worlds[0]));
    lemma_history_grows_log(worlds, ops);
    lemma_step_grows_log(put, s, worlds[0]);
    lemma_step_keeps_order(put, s, worlds[0], dek);
    law_history_keeps_vault_in_order(worlds, ops, dek);
    law_put_then_history_then_get(s, worlds, ops, meta, body, dek, apply);
}

/// Whether no vault was made yet.
pub open spec fn unmade(s: EngineView) -> bool {
    &&& s.dek is None
    &&& s.store.slots.len() == 0
    &&& store::meta_value(s.store, model::header_mac_key()) is None
    &&& audit::chain_intact(s.store.audit)
}

/// Whether an engine is as its own operations leave it: there is no vault yet, or one in order for
/// some key.
pub open spec fn kept(s: EngineView) -> bool {
    unmade(s) || exists|dek: Seq<u8>| #[trigger] in_order(s, dek)
}

/// A locked engine over an empty store is as its own operations leave it.
pub proof fn law_new_engine_is_kept(s: EngineView)
    requires
        s.dek is None,
        s.store.meta == Map::<Seq<char>, Seq<char>>::empty(),
        s.store.slots.len() == 0,
        s.store.audit.len() == 0,
    ensures
        kept(s),
{
}

proof fn lemma_step_from_unmade(op: Op, a: World, b: World)
    requires
        performs(op, a, b),
        unmade(a.engine),
        laws::vault::log_has_room(a.engine.store),
    ensures
        kept(b.engine),
{
    laws::vault::lemma_keys_differ();
    match op {
        Op::Init { m, passphrase, uuid, keyfile, params, floor_ms } => {
            law_new_vault_is_in_order(
                a,
                b,
                m,
                passphrase,
                uuid,
                keyfile,
                params,
                floor_ms,
            );
        },
        Op::Lock => {
            let s = EngineView { dek: None, ..a.engine };
            let entry = model::locked_entry();
            let then = seq![EventView::VaultLocked];
            laws::vault::law_entries_only_append(s, a.events, b.engine, b.events, entry, then);
            laws::vault::law_entries_keep_audit_sound(
                s,
                a.events,
                b.engine,
                b.events,
                entry,
                then,
            );
            assert(unmade(b.engine));
        },
        Op::Relay { relays, entry, then } => {
            let s = EngineView { relays, ..a.engine };
            laws::vault::law_entries_only_append(s, a.events, b.engine, b.events, entry, then);
            laws::vault::law_entries_keep_audit_sound(
                s,
                a.events,
                b.engine,
                b.events,
                entry,
                then,
            );
            assert(unmade(b.engine));
        },
        _ => {
            assert(b.engine == a.engine);
        },
    }
}

proof fn lemma_step_keeps(op: Op, a: World, b: World)
    requires
        performs(op, a, b),
        kept(a.engine),
        laws::vault::log_has_room(a.engine.store),
    ensures
        kept(b.engine),
{
    if unmade(a.engine) {
        lemma_step_from_unmade(op, a, b);
    } else {
        let dek = choose|dek: Seq<u8>| #[trigger] in_order(a.engine, dek);
        let key = match op {
            Op::Unlock { recovered, .. } => match model::unlock_verdict(
                a.engine.store,
                recovered,
            ) {
                UnlockVerdict::Opened { dek: k } => if a.engine.dek is None {
                    k
                } else {
                    dek
                },
                _ => dek,
            },
            _ => dek,
        };
        assert(in_order(a.engine, key));
        lemma_step_keeps_order(op, a, b, key);
    }
}

/// Whatever the engine was made to do, from an empty store on, its audit log is sound: the chain is
/// intact, and while the vault is open the log has no fault under the live key.
pub proof fn law_history_keeps_log_sound(worlds: Seq<World>, ops: Seq<Op>)
    requires
        history(worlds, ops),
        kept(worlds[0].engine),
        laws::vault::log_has_room(worlds.last().engine.store),
    ensures
        kept(worlds.last().engine),
        audit::chain_intact(worlds.last().engine.store.audit),
        worlds.last().engine.dek matches Some(dek) ==> model::audit_fault(
            worlds.last().engine.store,
            dek,
        ) is None,
    decreases ops.len(),
{
    if ops.len() > 0 {
        let n = ops.len() - 1;
        let w = worlds.drop_last();
        let o = ops.drop_last();
        lemma_shorter_history(worlds, ops);
        lemma_step_grows_log(ops[n], worlds[n], worlds[n + 1]);
        law_history_keeps_log_sound(w, o);
        lemma_step_keeps(ops[n], worlds[n], worlds[n + 1]);
    }
}

} // verus!
