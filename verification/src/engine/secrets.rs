//! Writing and reading secrets.
use vstd::prelude::*;
use crate::engine::model;
use crate::engine::model::{EngineView, MetaView};
use crate::engine::unlock::load_dek_generation;
use crate::engine::{Engine, SecretMeta};
use crate::error::EngineError;
use crate::event::{AuditDetail, EventSink, EventView, Reason, SecretEvent};
use crate::primitives::{wipe_bytes, MAX_PLAINTEXT_LEN, NONCE_LEN};
use crate::seam::{Clock, Timestamp, UsbProbe};
use crate::vault::aad::{record_aad, TableTag};
use crate::vault::crypto;
use crate::vault::store::{SecretRow, SecretView, Store, StoreCall};

verus! {

impl<S: Store, C: Clock, U: UsbProbe> Engine<S, C, U> {
    /// Whether the store does not fail by itself while a version is written.
    pub open spec fn puts_surely(&self) -> bool {
        &&& self.reliable(StoreCall::GetMeta)
        &&& self.reliable(StoreCall::MaxSecretVersion)
        &&& self.reliable(StoreCall::ReserveRowId)
        &&& self.reliable(StoreCall::PutSecret)
        &&& self.reliable(StoreCall::AppendAudit)
        &&& self.reliable(StoreCall::PutMeta)
        &&& crate::vault::store::store_ordered(self.state().store)
    }

    /// What writing a version gives and leaves. The nonce is what the operating system gave, and
    /// the row carries the time that the clock told. Where it fails, nothing is told.
    pub open spec fn put_outcome(
        before: Self,
        events_before: Seq<EventView>,
        after: Self,
        events_after: Seq<EventView>,
        meta: MetaView,
        body: Seq<u8>,
        result: Result<(), EngineError>,
    ) -> bool {
        let s = before.state();
        let t = after.state();
        &&& match model::put_refusal(s, meta.name) {
            Some(refusal) => {
                &&& t == s
                &&& events_after == events_before
                &&& model::put_refused(refusal, meta.name, result) || (s.dek is Some && !(
                before.reliable(StoreCall::GetMeta) && before.reliable(StoreCall::MaxSecretVersion))
                    && result matches Err(EngineError::Store(_)))
            },
            None => match result {
                Ok(_) => {
                    &&& model::put_effect(s, events_before, t, events_after, meta, body)
                    &&& crate::seam::dated(
                        &before.clock_seam(),
                        t.store.secrets.last().created_ts,
                    )
                },
                Err(EngineError::EntropyUnavailable) => {
                    &&& t == (EngineView {
                        store: crate::vault::store::with_row_id_taken(s.store),
                        ..s
                    })
                    &&& events_after == events_before
                    &&& crate::entropy::none_drawn(NONCE_LEN)
                },
                Err(EngineError::RowIdDivergence { assigned, sealed }) => {
                    &&& !before.reliable(StoreCall::PutSecret)
                    &&& sealed == s.store.next_row_id
                    &&& model::put_diverged(
                        s,
                        events_before,
                        t,
                        events_after,
                        meta,
                        body,
                        assigned,
                    )
                },
                Err(e) => {
                    &&& e is Store
                    &&& !(before.puts_surely() && model::has_room(s) && s.store.next_row_id
                        < i64::MAX)
                    &&& model::put_unfinished(s, events_before, t, events_after, meta, body)
                    &&& before.logs_surely() && model::has_room(s) ==> t.store.audit
                        == s.store.audit
                },
            },
        }
        &&& t.dek == s.dek
        &&& t.relays == s.relays
        &&& after.continues(before)
    }

    /// Writes the next version of a secret, sealed under the live data key for exactly the row that
    /// the store handed out.
    pub fn secret_put(&mut self, m: SecretMeta, body: Vec<u8>, sink: &mut EventSink) -> (result:
        Result<(), EngineError>)
        requires
            body@.len() <= MAX_PLAINTEXT_LEN,
        ensures
            Self::put_outcome(
                *old(self),
                old(sink)@,
                *final(self),
                final(sink)@,
                m@,
                body@,
                result,
            ),
            old(self).state().dek is None ==> {
                &&& result == Err::<(), EngineError>(EngineError::Locked)
                &&& final(self).state() == old(self).state()
                &&& final(sink)@ == old(sink)@
            },
    {
        let mut body = body;
        let result: Result<(), EngineError> = self.seal_and_put(m, body.as_slice(), sink);
        wipe_bytes(&mut body);
        result
    }

    fn seal_and_put(&mut self, m: SecretMeta, body: &[u8], sink: &mut EventSink) -> (result: Result<
        (),
        EngineError,
    >)
        requires
            body@.len() <= MAX_PLAINTEXT_LEN,
        ensures
            Self::put_outcome(
                *old(self),
                old(sink)@,
                *final(self),
                final(sink)@,
                m@,
                body@,
                result,
            ),
    {
        let ghost s = self.state();
        let ghost meta = m@;
        if !self.vault.is_unlocked() {
            return Err(EngineError::Locked);
        }
        let dek_generation: i64 = match load_dek_generation(&self.store) {
            Ok(g) => g,
            Err(e) => {
                return Err(e);
            },
        };
        let last: u32 = match self.store.max_secret_version(m.name.as_str()) {
            Ok(v) => v,
            Err(e) => {
                return Err(EngineError::Store(e));
            },
        };
        if last == u32::MAX {
            return Err(EngineError::VersionsExhausted(m.name));
        }
        let version: u32 = last + 1;
        let row_id: i64 = match self.store.reserve_secret_row_id() {
            Ok(id) => id,
            Err(e) => {
                return Err(EngineError::Store(e));
            },
        };
        let aad: Vec<u8> = record_aad(
            TableTag::SecretVersion,
            row_id,
            version as i64,
            dek_generation,
        );
        let sealed: Result<(Vec<u8>, Vec<u8>), EngineError> = match self.vault.dek() {
            Some(dek) => crypto::seal(dek, aad.as_slice(), body),
            None => Err(EngineError::Locked),
        };
        let (nonce, ct_tag) = match sealed {
            Ok(parts) => parts,
            Err(e) => {
                return Err(e);
            },
        };
        let now: Timestamp = self.clock.now();
        let created_ts: String = now.rfc3339;
        assert(crate::seam::told(&self.clock, now));
        assert(crate::seam::dated(&old(self).clock_seam(), created_ts@));
        let name: String = m.name.clone();
        let row = SecretRow {
            row_id,
            name: m.name,
            version,
            provider: m.provider,
            note: m.note,
            broker_only: m.broker_only,
            dek_generation,
            nonce,
            ct_tag,
            created_ts,
        };
        let ghost row_view = row@;
        proof {
            assert(model::is_next_version(
                s.store,
                s.dek.unwrap(),
                dek_generation,
                meta,
                body@,
                row_view,
            ));
            let taken = crate::vault::store::with_row_id_taken(s.store);
            if crate::vault::store::store_ordered(s.store) {
                assert(crate::vault::store::store_ordered(taken));
                assert forall|n: i64| #[trigger]
                    crate::vault::store::acceptable(
                        taken,
                        SecretView { row_id: n, ..row_view },
                    ) implies crate::vault::store::store_ordered(
                    crate::vault::store::with_secret(taken, SecretView { row_id: n, ..row_view }),
                ) by {
                    crate::vault::store::lemma_accepting_keeps_order(
                        taken,
                        SecretView { row_id: n, ..row_view },
                    );
                }
                assert(SecretView { row_id: row_view.row_id, ..row_view } == row_view);
            }
        }
        let assigned: i64 = match self.store.put_secret(row) {
            Ok(id) => id,
            Err(e) => {
                return Err(EngineError::Store(e));
            },
        };
        if assigned != row_id {
            return Err(EngineError::RowIdDivergence { assigned, sealed: row_id });
        }
        let ghost put = self.state();
        match self.audit_ok(
            sink,
            "secret_written",
            Some(name.clone()),
            AuditDetail::Written { version },
        ) {
            Ok(_) => {},
            Err(e) => {
                return Err(e);
            },
        }
        let ghost told = sink@;
        sink.emit(SecretEvent::SecretWritten { name, version });
        proof {
            assert(self.state().store.secrets.last() == row_view);
            let entry = model::written_entry(meta.name, version);
            let mirror = model::mirrored(put, entry, model::last_ts(self.state()));
            let event = EventView::SecretWritten { name: meta.name, version };
            assert(told =~= old(sink)@.push(mirror));
            assert(sink@ =~= old(sink)@.push(mirror) + seq![event]);
        }
        Ok(())
    }

    /// Reads the last version of a secret. Only a reveal gives the plaintext back; it needs
    /// `apply`, and a broker-only secret is never revealed. A read without reveal is audited and
    /// gives an empty buffer.
    pub fn secret_get(&mut self, name: &str, reveal: bool, apply: bool, sink: &mut EventSink) -> (
    result: Result<Vec<u8>, EngineError>)
        ensures
            old(self).state().dek is None ==> {
                &&& result == Err::<Vec<u8>, EngineError>(EngineError::Locked)
                &&& final(self).state() == old(self).state()
                &&& final(sink)@ == old(sink)@
            },
            old(self).state().dek matches Some(dek) ==> match result {
                Err(EngineError::Store(_)) => {
                    let verdict = model::read_verdict(
                        old(self).state().store,
                        dek,
                        name@,
                        reveal,
                        apply,
                    );
                    &&& !(old(self).reliable(StoreCall::GetSecretLatest)
                        && old(self).logs_surely() && model::has_room(old(self).state()))
                    &&& model::unfinished(
                        old(self).state(),
                        old(sink)@,
                        final(self).state(),
                        final(sink)@,
                        model::read_entry(verdict, name@),
                    )
                },
                _ => {
                    let verdict = model::read_verdict(
                        old(self).state().store,
                        dek,
                        name@,
                        reveal,
                        apply,
                    );
                    &&& model::read_result(verdict, name@, result)
                    &&& model::recorded(
                        old(self).state(),
                        old(sink)@,
                        final(self).state(),
                        final(sink)@,
                        model::read_entry(verdict, name@),
                        model::read_events(verdict, name@, old(self).state().owner_uid),
                    )
                },
            },
            final(self).continues(*old(self)),
    {
        let ghost s = self.state();
        if !self.vault.is_unlocked() {
            return Err(EngineError::Locked);
        }
        let ghost dek = s.dek.unwrap();
        let row: SecretRow = match self.store.get_secret_latest(name) {
            Ok(Some(row)) => row,
            Ok(None) => {
                let detail: AuditDetail = AuditDetail::Cause { reason: Reason::NotFound };
                return match self.audit_failed(sink, "secret_read", Some(name.to_owned()), detail) {
                    Ok(_) => Err(EngineError::UnknownSecret(name.to_owned())),
                    Err(e) => Err(e),
                };
            },
            Err(e) => {
                return Err(EngineError::Store(e));
            },
        };
        let aad: Vec<u8> = record_aad(
            TableTag::SecretVersion,
            row.row_id,
            row.version as i64,
            row.dek_generation,
        );
        let opened: Option<Vec<u8>> = match self.vault.dek() {
            Some(dek) => crypto::open(
                dek,
                aad.as_slice(),
                row.nonce.as_slice(),
                row.ct_tag.as_slice(),
            ),
            None => None,
        };
        let mut plaintext: Vec<u8> = match opened {
            Some(plaintext) => plaintext,
            None => {
                let detail: AuditDetail = AuditDetail::TamperedVersion { version: row.version };
                return match self.audit_failed(sink, "secret_read", Some(name.to_owned()), detail) {
                    Ok(_) => Err(EngineError::SecretTampered(name.to_owned())),
                    Err(e) => Err(e),
                };
            },
        };
        if reveal && row.broker_only {
            wipe_bytes(&mut plaintext);
            return match self.refuse(sink, "secret_read", name, Reason::BrokerOnly) {
                Ok(_) => Err(EngineError::BrokerOnly(name.to_owned())),
                Err(e) => Err(e),
            };
        }
        if reveal && !apply {
            wipe_bytes(&mut plaintext);
            return match self.refuse(sink, "secret_read", name, Reason::ApplyNotSet) {
                Ok(_) => Err(EngineError::ApplyRequired(name.to_owned())),
                Err(e) => Err(e),
            };
        }
        let detail: AuditDetail = AuditDetail::Read { version: row.version, revealed: reveal };
        match self.audit_ok(sink, "secret_read", Some(name.to_owned()), detail) {
            Ok(_) => {},
            Err(e) => {
                wipe_bytes(&mut plaintext);
                return Err(e);
            },
        }
        let ghost told = sink@;
        let by_uid: u32 = self.owner_uid;
        sink.emit(SecretEvent::SecretRead { name: name.to_owned(), by_uid });
        proof {
            let verdict = model::read_verdict(s.store, dek, name@, reveal, apply);
            let entry = model::read_entry(verdict, name@);
            let mirror = model::mirrored(s, entry, model::last_ts(self.state()));
            let event = EventView::SecretRead { name: name@, by_uid };
            assert(told =~= old(sink)@.push(mirror));
            assert(sink@ =~= old(sink)@.push(mirror) + seq![event]);
        }
        if !reveal {
            wipe_bytes(&mut plaintext);
        }
        Ok(plaintext)
    }
}

} // verus!
