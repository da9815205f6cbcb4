//! What is read is what was written.
use vstd::prelude::*;
use crate::decimal;
use crate::engine::model;
use crate::engine::model::EngineView;
use crate::engine::{Engine, SecretMeta};
use crate::entropy;
use crate::error::EngineError;
use crate::event::{AuditDetail, AuditOutcome, EventSink, EventView, Reason};
use crate::laws;
use crate::laws::history::{Op, World};
use crate::primitives;
use crate::seam;
use crate::seam::{Clock, UsbProbe};
use crate::vault::aad;
use crate::vault::aad::TableTag;
use crate::vault::store;
use crate::vault::store::{Store, StoreCall, StoreView};

verus! {

/// Whether a number is the next version of a name: one above that of the last row, or one.
pub open spec fn next_version(s: StoreView, name: Seq<char>, version: u32) -> bool {
    &&& forall|i: int| #[trigger]
        laws::storing::last_of(s.secrets, name, i) ==> version == s.secrets[i].version + 1
    &&& (forall|i: int| 0 <= i < s.secrets.len() ==> (#[trigger] s.secrets[i]).name != name)
        ==> version == 1
}

/// The generation of the data key that a store holds.
pub open spec fn generation_is(s: StoreView, generation: i64) -> bool {
    &&& s.meta.dom().contains("vault.dek_generation"@)
    &&& decimal::parsed_i64(s.meta["vault.dek_generation"@]) == Some(generation)
}

/// Whether a body was written under a name: there is one row more, with all that is known of the
/// secret, the next version, and the whole body sealed for that very row.
pub open spec fn written(s: EngineView, t: EngineView, m: SecretMeta, body: Seq<u8>) -> bool {
    let n = s.store.secrets.len() as int;
    let row = t.store.secrets[n];
    &&& s.dek matches Some(dek)
    &&& t.store.secrets.len() == n + 1
    &&& forall|i: int| 0 <= i < n ==> #[trigger] t.store.secrets[i] == s.store.secrets[i]
    &&& row.name == m.name@
    &&& row.provider == m.provider
    &&& row.note == m.note@
    &&& row.broker_only == m.broker_only
    &&& next_version(s.store, m.name@, row.version)
    &&& row.row_id == s.store.next_row_id
    &&& t.store.next_row_id == s.store.next_row_id + 1
    &&& generation_is(s.store, row.dek_generation)
    &&& row.nonce.len() == 24
    &&& entropy::drawn(24, row.nonce)
    &&& row.ct_tag == primitives::xchacha_seal(
        dek,
        row.nonce,
        aad::record_aad_bytes(
            TableTag::SecretVersion,
            row.row_id,
            row.version as i64,
            row.dek_generation,
        ),
        body,
    )
    &&& laws::relaying::row_opens(row, dek, body)
    &&& t.store.slots == s.store.slots
    &&& t.dek == s.dek
    &&& t.relays == s.relays
}

/// What was put is there as a whole and as the next version of its name, dated by the clock; one
/// row of the log says so, and two events tell it.
pub proof fn law_put_writes_the_whole_body<S: Store, C: Clock, U: UsbProbe>(
    e: &mut Engine<S, C, U>,
    m: SecretMeta,
    body: Vec<u8>,
    sink: &mut EventSink,
)
    requires
        call_ensures(
            Engine::<S, C, U>::secret_put,
            (e, m, body, sink),
            Ok::<(), EngineError>(()),
        ),
    ensures
        written(old(e).state(), final(e).state(), m, body@),
        ({
            let s = old(e).state();
            let t = final(e).state();
            let row = t.store.secrets.last();
            let filed = StoreView {
                secrets: t.store.secrets,
                next_row_id: t.store.next_row_id,
                ..s.store
            };
            &&& seam::dated(&old(e).clock_seam(), row.created_ts)
            &&& laws::logging::one_row_more(
                filed,
                t.store,
                s.owner_uid,
                "secret_written"@,
                Some(m.name@),
                AuditDetail::Written { version: row.version },
                AuditOutcome::Succeeded,
            )
            &&& laws::logging::told_then(
                old(sink)@,
                final(sink)@,
                t.store.audit.last(),
                seq![EventView::SecretWritten { name: m.name@, version: row.version }],
            )
        }),
{
    let s = old(e).state();
    let t = final(e).state();
    let dek = s.dek.unwrap();
    let row = t.store.secrets.last();
    let filed = EngineView {
        store: store::with_secret(store::with_row_id_taken(s.store), row),
        ..s
    };
    laws::logging::law_entry_is_one_row_more(
        filed,
        old(sink)@,
        t,
        final(sink)@,
        model::written_entry(m.name@, row.version),
        seq![EventView::SecretWritten { name: m.name@, version: row.version }],
    );
    laws::storing::lemma_latest_is_last(s.store.secrets, m.name@);
    assert(t.store.secrets =~= s.store.secrets.push(row));
    laws::relaying::lemma_row_opens(row, dek, body@);
    assert(filed.store =~= (StoreView {
        secrets: t.store.secrets,
        next_row_id: t.store.next_row_id,
        ..s.store
    }));
}

/// A put on an open vault succeeds where the generation can be read, there is a version and a row
/// id left and random bytes for a nonce, and neither the store nor the log fails. On a locked vault
/// it is refused, and nothing changes.
pub proof fn law_put_succeeds_on_an_open_vault<S: Store, C: Clock, U: UsbProbe>(
    e: &mut Engine<S, C, U>,
    m: SecretMeta,
    body: Vec<u8>,
    sink: &mut EventSink,
    result: Result<(), EngineError>,
    generation: i64,
)
    requires
        call_ensures(Engine::<S, C, U>::secret_put, (e, m, body, sink), result),
    ensures
        old(e).state().dek is None ==> {
            &&& result == Err::<(), EngineError>(EngineError::Locked)
            &&& final(e).state() == old(e).state()
            &&& final(sink)@ == old(sink)@
        },
        ({
            let s = old(e).state();
            &&& old(e).dependable()
            &&& s.dek is Some
            &&& s.store.audit.len() < i64::MAX
            &&& s.store.next_row_id < i64::MAX
            &&& generation_is(s.store, generation)
            &&& forall|i: int| #[trigger]
                laws::storing::last_of(s.store.secrets, m.name@, i) ==> s.store.secrets[i].version
                    < u32::MAX
        }) ==> result is Ok || (result == Err::<(), EngineError>(EngineError::EntropyUnavailable)
            && entropy::none_drawn(24)),
        result is Err ==> final(sink)@ == old(sink)@ && final(e).state().dek == old(e).state().dek,
{
    let s = old(e).state();
    laws::storing::lemma_latest_is_last(s.store.secrets, m.name@);
    if old(e).dependable() {
        assert(old(e).reliable(StoreCall::GetMeta));
        assert(old(e).reliable(StoreCall::MaxSecretVersion));
        assert(old(e).reliable(StoreCall::ReserveRowId));
        assert(old(e).reliable(StoreCall::PutSecret));
        assert(old(e).reliable(StoreCall::AppendAudit));
        assert(old(e).reliable(StoreCall::PutMeta));
    }
}

/// A put without a generation that can be read is refused with the reason, and changes nothing.
pub proof fn law_put_needs_a_generation<S: Store, C: Clock, U: UsbProbe>(
    e: &mut Engine<S, C, U>,
    m: SecretMeta,
    body: Vec<u8>,
    sink: &mut EventSink,
    result: Result<(), EngineError>,
)
    requires
        call_ensures(Engine::<S, C, U>::secret_put, (e, m, body, sink), result),
        old(e).dependable(),
        old(e).state().dek is Some,
        forall|g: i64| !#[trigger] generation_is(old(e).state().store, g),
    ensures
        final(e).state() == old(e).state(),
        final(sink)@ == old(sink)@,
        result == Err::<(), EngineError>(
            if old(e).state().store.meta.dom().contains("vault.dek_generation"@) {
                EngineError::DekGenerationInvalid
            } else {
                EngineError::DekGenerationMissing
            },
        ),
{
    let s = old(e).state();
    assert(old(e).reliable(StoreCall::GetMeta));
    assert(old(e).reliable(StoreCall::MaxSecretVersion));
    if model::stored_generation(s.store) is Ok {
        assert(generation_is(s.store, model::stored_generation(s.store)->Ok_0));
    }
}

/// A put of a name whose last version is the largest number is refused with the name, and changes
/// nothing.
pub proof fn law_put_needs_a_version<S: Store, C: Clock, U: UsbProbe>(
    e: &mut Engine<S, C, U>,
    m: SecretMeta,
    body: Vec<u8>,
    sink: &mut EventSink,
    result: Result<(), EngineError>,
    generation: i64,
    i: int,
)
    requires
        call_ensures(Engine::<S, C, U>::secret_put, (e, m, body, sink), result),
        old(e).dependable(),
        old(e).state().dek is Some,
        generation_is(old(e).state().store, generation),
        laws::storing::last_of(old(e).state().store.secrets, m.name@, i),
        old(e).state().store.secrets[i].version == u32::MAX,
    ensures
        result matches Err(EngineError::VersionsExhausted(n)) && n@ == m.name@,
        final(e).state() == old(e).state(),
        final(sink)@ == old(sink)@,
{
    assert(old(e).reliable(StoreCall::GetMeta));
    assert(old(e).reliable(StoreCall::MaxSecretVersion));
    laws::storing::lemma_latest_is_last(old(e).state().store.secrets, m.name@);
}

/// What a read gives for the last row of a name: the whole body to a reveal that is applied, and
/// nothing where none is asked for. A broker-only secret is never revealed.
pub open spec fn given(
    row_broker_only: bool,
    body: Option<Seq<u8>>,
    name: Seq<char>,
    reveal: bool,
    apply: bool,
    result: Result<Vec<u8>, EngineError>,
) -> bool {
    match result {
        Ok(b) => body is Some && if reveal {
            apply && !row_broker_only && b@ == body.unwrap()
        } else {
            b@.len() == 0
        },
        Err(EngineError::SecretTampered(n)) => n@ == name && body is None,
        Err(EngineError::BrokerOnly(n)) => n@ == name && body is Some && reveal && row_broker_only,
        Err(EngineError::ApplyRequired(n)) => n@ == name && body is Some && reveal
            && !row_broker_only && !apply,
        Err(_) => false,
    }
}

/// A read of an open vault gives all of what the last row of that very name opens to, or nothing,
/// as the gates say; each read is a row of the log.
pub proof fn law_get_gives_the_whole_body<S: Store, C: Clock, U: UsbProbe>(
    e: &mut Engine<S, C, U>,
    name: &str,
    reveal: bool,
    apply: bool,
    sink: &mut EventSink,
    result: Result<Vec<u8>, EngineError>,
    dek: Seq<u8>,
    i: int,
    body: Option<Seq<u8>>,
)
    requires
        call_ensures(Engine::<S, C, U>::secret_get, (e, name, reveal, apply, sink), result),
        !(result matches Err(EngineError::Store(_))),
        old(e).state().dek == Some(dek),
        laws::storing::last_of(old(e).state().store.secrets, name@, i),
        body matches Some(b) ==> laws::relaying::row_opens(
            old(e).state().store.secrets[i],
            dek,
            b,
        ),
        body is None ==> forall|b: Seq<u8>|
            !#[trigger] laws::relaying::row_opens(old(e).state().store.secrets[i], dek, b),
    ensures
        given(old(e).state().store.secrets[i].broker_only, body, name@, reveal, apply, result),
        ({
            let s = old(e).state();
            let t = final(e).state();
            let row = s.store.secrets[i];
            let (detail, outcome, then) = if body is None {
                (
                    AuditDetail::TamperedVersion { version: row.version },
                    AuditOutcome::Failed,
                    Seq::<EventView>::empty(),
                )
            } else if reveal && row.broker_only {
                (
                    AuditDetail::Cause { reason: Reason::BrokerOnly },
                    AuditOutcome::Refused,
                    seq![
                        EventView::GuardRefused {
                            subject: name@,
                            reason: Reason::BrokerOnly.words(),
                        },
                    ],
                )
            } else if reveal && !apply {
                (
                    AuditDetail::Cause { reason: Reason::ApplyNotSet },
                    AuditOutcome::Refused,
                    seq![
                        EventView::GuardRefused {
                            subject: name@,
                            reason: Reason::ApplyNotSet.words(),
                        },
                    ],
                )
            } else {
                (
                    AuditDetail::Read { version: row.version, revealed: reveal },
                    AuditOutcome::Succeeded,
                    seq![EventView::SecretRead { name: name@, by_uid: s.owner_uid }],
                )
            };
            &&& laws::logging::one_row_more(
                s.store,
                t.store,
                s.owner_uid,
                "secret_read"@,
                Some(name@),
                detail,
                outcome,
            )
            &&& laws::logging::told_then(
                old(sink)@,
                final(sink)@,
                t.store.audit.last(),
                then,
            )
            &&& t.dek == s.dek
            &&& t.relays == s.relays
        }),
{
    let s = old(e).state();
    let row = s.store.secrets[i];
    laws::storing::lemma_latest_is_last(s.store.secrets, name@);
    match model::row_plaintext(dek, row) {
        Some(b) => {
            laws::relaying::lemma_row_opens(row, dek, b);
            assert(laws::relaying::row_opens(row, dek, b));
        },
        None => {
            if body is Some {
                laws::relaying::lemma_row_opens(row, dek, body.unwrap());
            }
        },
    }
    let verdict = model::read_verdict(s.store, dek, name@, reveal, apply);
    laws::logging::law_entry_is_one_row_more(
        s,
        old(sink)@,
        final(e).state(),
        final(sink)@,
        model::read_entry(verdict, name@),
        model::read_events(verdict, name@, s.owner_uid),
    );
}

/// A name that nothing was written under is unknown, and the log says that it was asked for.
pub proof fn law_unwritten_name_is_unknown<S: Store, C: Clock, U: UsbProbe>(
    e: &mut Engine<S, C, U>,
    name: &str,
    reveal: bool,
    apply: bool,
    sink: &mut EventSink,
    result: Result<Vec<u8>, EngineError>,
)
    requires
        call_ensures(Engine::<S, C, U>::secret_get, (e, name, reveal, apply, sink), result),
        !(result matches Err(EngineError::Store(_))),
        old(e).state().dek is Some,
        forall|i: int|
            0 <= i < old(e).state().store.secrets.len() ==> (
            #[trigger] old(e).state().store.secrets[i]).name != name@,
    ensures
        result matches Err(EngineError::UnknownSecret(n)) && n@ == name@,
        laws::logging::one_row_more(
            old(e).state().store,
            final(e).state().store,
            old(e).state().owner_uid,
            "secret_read"@,
            Some(name@),
            AuditDetail::Cause { reason: Reason::NotFound },
            AuditOutcome::Failed,
        ),
        laws::logging::told_then(
            old(sink)@,
            final(sink)@,
            final(e).state().store.audit.last(),
            Seq::empty(),
        ),
{
    let s = old(e).state();
    laws::storing::lemma_latest_is_last(s.store.secrets, name@);
    let verdict = model::read_verdict(s.store, s.dek.unwrap(), name@, reveal, apply);
    laws::logging::law_entry_is_one_row_more(
        s,
        old(sink)@,
        final(e).state(),
        final(sink)@,
        model::read_entry(verdict, name@),
        model::read_events(verdict, name@, s.owner_uid),
    );
}

/// A read of a locked vault is refused and changes nothing, and a read of an open vault does not
/// fail by a store that does not.
pub proof fn law_get_needs_an_open_vault<S: Store, C: Clock, U: UsbProbe>(
    e: &mut Engine<S, C, U>,
    name: &str,
    reveal: bool,
    apply: bool,
    sink: &mut EventSink,
    result: Result<Vec<u8>, EngineError>,
)
    requires
        call_ensures(Engine::<S, C, U>::secret_get, (e, name, reveal, apply, sink), result),
    ensures
        old(e).state().dek is None ==> {
            &&& result == Err::<Vec<u8>, EngineError>(EngineError::Locked)
            &&& final(e).state() == old(e).state()
            &&& final(sink)@ == old(sink)@
        },
        old(e).state().dek is Some && old(e).dependable() && old(e).state().store.audit.len()
            < i64::MAX ==> !(result matches Err(EngineError::Store(_))),
        result matches Err(EngineError::Store(_)) ==> {
            &&& final(sink)@ == old(sink)@
            &&& final(e).state().store.secrets == old(e).state().store.secrets
            &&& final(e).state().store.slots == old(e).state().store.slots
            &&& final(e).state().relays == old(e).state().relays
            &&& final(e).state().dek == old(e).state().dek
        },
{
    if old(e).dependable() {
        assert(old(e).reliable(StoreCall::GetSecretLatest));
        assert(old(e).reliable(StoreCall::AppendAudit));
        assert(old(e).reliable(StoreCall::PutMeta));
    }
}

/// What was put comes back from a reveal that is applied, byte for byte, however long it is, for as
/// long as its row is the last one of its name and the vault is open under the same key.
pub proof fn law_what_was_put_comes_back<S: Store, C: Clock, U: UsbProbe>(
    a: &mut Engine<S, C, U>,
    m: SecretMeta,
    body: Vec<u8>,
    sink_a: &mut EventSink,
    b: &mut Engine<S, C, U>,
    name: &str,
    reveal: bool,
    apply: bool,
    sink_b: &mut EventSink,
    result: Result<Vec<u8>, EngineError>,
)
    requires
        call_ensures(
            Engine::<S, C, U>::secret_put,
            (a, m, body, sink_a),
            Ok::<(), EngineError>(()),
        ),
        call_ensures(Engine::<S, C, U>::secret_get, (b, name, reveal, apply, sink_b), result),
        !(result matches Err(EngineError::Store(_))),
        name@ == m.name@,
        old(b).state().dek == old(a).state().dek,
        ({
            let n = old(a).state().store.secrets.len() as int;
            let later = old(b).state().store.secrets;
            &&& later.len() > n
            &&& later[n] == final(a).state().store.secrets[n]
            &&& forall|j: int| n < j < later.len() ==> (#[trigger] later[j]).name != name@
        }),
    ensures
        reveal && apply && !m.broker_only ==> (result matches Ok(read) && read@ == body@),
        !reveal ==> (result matches Ok(read) && read@.len() == 0),
        reveal && m.broker_only ==> (result matches Err(EngineError::BrokerOnly(n)) && n@ == name@),
        reveal && !m.broker_only && !apply ==> (result matches Err(EngineError::ApplyRequired(n))
            && n@ == name@),
{
    law_put_writes_the_whole_body(a, m, body, sink_a);
    let n = old(a).state().store.secrets.len() as int;
    assert(laws::storing::last_of(old(b).state().store.secrets, name@, n));
    law_get_gives_the_whole_body(
        b,
        name,
        reveal,
        apply,
        sink_b,
        result,
        old(a).state().dek.unwrap(),
        n,
        Some(body@),
    );
}

/// What was put comes back byte for byte after any history in which nobody writes the name again:
/// puts to other names, reads, relay operations, locks and unlocks.
pub proof fn law_what_was_put_outlives_history<S: Store, C: Clock, U: UsbProbe>(
    a: &mut Engine<S, C, U>,
    m: SecretMeta,
    body: Vec<u8>,
    sink_a: &mut EventSink,
    worlds: Seq<World>,
    ops: Seq<Op>,
    b: &mut Engine<S, C, U>,
    name: &str,
    sink_b: &mut EventSink,
    result: Result<Vec<u8>, EngineError>,
)
    requires
        call_ensures(
            Engine::<S, C, U>::secret_put,
            (a, m, body, sink_a),
            Ok::<(), EngineError>(()),
        ),
        !m.broker_only,
        name@ == m.name@,
        laws::history::history(worlds, ops),
        worlds[0].engine == final(a).state(),
        forall|i: int|
            0 <= i < ops.len() ==> !laws::history::puts_name(#[trigger] ops[i], name@),
        worlds.last().engine == old(b).state(),
        old(b).state().dek == old(a).state().dek,
        call_ensures(Engine::<S, C, U>::secret_get, (b, name, true, true, sink_b), result),
        !(result matches Err(EngineError::Store(_))),
    ensures
        result matches Ok(read) && read@ == body@,
{
    let dek = old(a).state().dek.unwrap();
    law_put_writes_the_whole_body(a, m, body, sink_a);
    laws::history::law_secret_survives_history(worlds, ops, name@);
    let first = final(a).state().store.secrets;
    let last = old(b).state().store.secrets;
    let n = old(a).state().store.secrets.len() as int;
    laws::storing::lemma_latest_is_last(first, name@);
    laws::storing::lemma_latest_is_last(last, name@);
    assert(laws::storing::last_of(first, name@, n));
    let i = choose|i: int| #[trigger]
        laws::storing::last_of(last, name@, i) && last[i] == first[n];
    law_get_gives_the_whole_body(b, name, true, true, sink_b, result, dek, i, Some(body@));
}

} // verus!
