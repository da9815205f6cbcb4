//! Writing to the audit log, and checking it.
use vstd::prelude::*;
use crate::codec;
use crate::engine::model;
use crate::engine::model::{EngineView, Entry};
use crate::engine::Engine;
use crate::error::EngineError;
use crate::event::{
    AuditDetail, AuditOutcome, AuditRecord, EventSink, EventView, Reason, SecretEvent,
};
use crate::keyslot::Dek;
use crate::seam::{Clock, Timestamp, UsbProbe};
use crate::vault::audit::{audit_head_mac, find_anchor, new_row};
use crate::vault::store::{Store, StoreCall};

verus! {

/// Sets the anchor to the end of a chain whose last row is given, under a given data key.
fn write_anchor<S: Store>(store: &mut S, dek: &Dek, last: Option<AuditRecord>) -> (done: Result<
    (),
    EngineError,
>)
    requires
        crate::vault::store::row_view(last) == (if old(store).state().audit.len() == 0 {
            None
        } else {
            Some(old(store).state().audit.last())
        }),
    ensures
        done is Ok ==> final(store).state() == model::anchored(old(store).state(), Some(dek@)),
        done matches Err(e) ==> {
            &&& e is Store
            &&& !old(store).reliable(StoreCall::PutMeta)
            &&& final(store).state() == old(store).state() || final(store).state()
                == model::anchored(old(store).state(), Some(dek@))
        },
        forall|c: StoreCall| #[trigger] final(store).reliable(c) == old(store).reliable(c),
{
    let mac: Vec<u8> = match last {
        Some(r) => audit_head_mac(dek, r.seq, r.row_hash.as_slice()),
        None => {
            let none: Vec<u8> = Vec::new();
            assert(none@ =~= Seq::<u8>::empty());
            audit_head_mac(dek, 0, none.as_slice())
        },
    };
    match store.put_meta("vault.audit_head", codec::hex_encode(mac.as_slice()).as_str()) {
        Ok(_) => Ok(()),
        Err(e) => Err(EngineError::Store(e)),
    }
}

/// Moves the anchor to the end of the audit chain, under a given data key.
pub fn anchor_tail<S: Store>(store: &mut S, dek: &Dek) -> (done: Result<(), EngineError>)
    ensures
        done is Ok ==> final(store).state() == model::anchored(old(store).state(), Some(dek@)),
        done matches Err(e) ==> {
            &&& e is Store
            &&& !(old(store).reliable(StoreCall::LastAudit) && old(store).reliable(
                StoreCall::PutMeta,
            ))
            &&& final(store).state() == old(store).state() || final(store).state()
                == model::anchored(old(store).state(), Some(dek@))
        },
        forall|c: StoreCall| #[trigger] final(store).reliable(c) == old(store).reliable(c),
{
    match store.last_audit() {
        Ok(last) => write_anchor(store, dek, last),
        Err(e) => Err(EngineError::Store(e)),
    }
}

/// Checks the audit log for the holder of a data key: the chain has to hold, and the anchor, if
/// there is one, has to belong to a row that is still there. Dropping rows below the anchor or
/// rewriting a row that it covers takes that row away. Rows written behind the anchor while the
/// vault was locked are covered by the chain alone.
pub fn verify_audit_anchor_with<S: Store>(store: &S, dek: &Dek) -> (verdict: Result<
    (),
    EngineError,
>)
    ensures
        match verdict {
            Ok(_) => model::audit_fault(store.state(), dek@) is None,
            Err(EngineError::AuditChainBroken(seq)) => model::audit_fault(store.state(), dek@)
                == Some(seq),
            Err(e) => e is Store && !(store.reliable(StoreCall::VerifyAuditChain) && store.reliable(
                StoreCall::GetMeta,
            ) && store.reliable(StoreCall::QueryAudit)),
        },
{
    match store.verify_audit_chain() {
        Ok(_) => {},
        Err(e) => {
            return Err(e);
        },
    }
    let text: String = match store.get_meta("vault.audit_head") {
        Ok(Some(text)) => text,
        Ok(None) => {
            return Ok(());
        },
        Err(e) => {
            return Err(EngineError::Store(e));
        },
    };
    let mac: Vec<u8> = match codec::hex_decode(text.as_str()) {
        Some(mac) => mac,
        None => {
            return Err(EngineError::AuditChainBroken(0));
        },
    };
    match store.query_audit(0, usize::MAX) {
        Ok(rows) => {
            if find_anchor(dek, rows.as_slice(), mac.as_slice()) {
                Ok(())
            } else {
                Err(EngineError::AuditChainBroken(0))
            }
        },
        Err(e) => Err(EngineError::Store(e)),
    }
}

impl<S: Store, C: Clock, U: UsbProbe> Engine<S, C, U> {
    /// Moves the anchor to the end of the audit chain. Without a live data key it stays where it
    /// is. That the last row cannot be read is no failure: the anchor then stays, too.
    pub(super) fn advance_audit_anchor_if_unlocked(&mut self) -> (done: Result<(), EngineError>)
        ensures
            ({
                let moved = EngineView {
                    store: model::anchored(old(self).state().store, old(self).state().dek),
                    ..old(self).state()
                };
                match done {
                    Ok(_) => final(self).state() == moved || (!old(self).state().reads_tail
                        && final(self).state() == old(self).state()),
                    Err(e) => {
                        &&& e is Store
                        &&& old(self).state().dek is Some
                        &&& !old(self).reliable(StoreCall::PutMeta)
                        &&& final(self).state() == old(self).state() || final(self).state()
                            == moved
                    },
                }
            }),
            final(self).continues(*old(self)),
    {
        match self.vault.dek() {
            Some(dek) => match self.store.last_audit() {
                Ok(last) => write_anchor(&mut self.store, dek, last),
                Err(_) => Ok(()),
            },
            None => Ok(()),
        }
    }

    /// Appends an audit row at the time that the clock tells, moves the anchor, and mirrors the row
    /// as an event. Where the store fails nothing is told.
    pub(super) fn audit(
        &mut self,
        sink: &mut EventSink,
        event_type: &str,
        subject: Option<String>,
        detail: AuditDetail,
        outcome: AuditOutcome,
    ) -> (done: Result<(), EngineError>)
        ensures
            ({
                let entry = Entry {
                    event_type: event_type@,
                    subject: codec::text_view(subject),
                    detail,
                    outcome,
                };
                match done {
                    Ok(_) => model::recorded(
                        old(self).state(),
                        old(sink)@,
                        final(self).state(),
                        final(sink)@,
                        entry,
                        Seq::empty(),
                    ),
                    Err(e) => e is Store && model::unfinished(
                        old(self).state(),
                        old(sink)@,
                        final(self).state(),
                        final(sink)@,
                        entry,
                    ),
                }
            }),
            old(self).logs_surely() && model::has_room(old(self).state()) ==> done is Ok,
            final(self).continues(*old(self)),
    {
        let now: Timestamp = self.clock.now();
        let ghost ts = now.rfc3339@;
        assert(crate::seam::told(&self.clock, now));
        let rec: AuditRecord = new_row(
            now.rfc3339,
            Some(self.owner_uid),
            event_type,
            subject,
            detail,
            outcome,
        );
        let ghost row = rec@;
        proof {
            let linked = crate::vault::audit::linked(old(self).state().store.audit, row);
            assert(old(self).state().store.audit.push(linked).drop_last()
                =~= old(self).state().store.audit);
            assert(crate::seam::dated(&old(self).clock_seam(), ts));
        }
        let seq: i64 = match self.store.append_audit(&rec) {
            Ok(seq) => seq,
            Err(e) => {
                return Err(EngineError::Store(e));
            },
        };
        match self.advance_audit_anchor_if_unlocked() {
            Ok(_) => {},
            Err(e) => {
                return Err(e);
            },
        }
        let mut mirrored: AuditRecord = rec;
        mirrored.seq = seq;
        proof {
            assert(model::last_ts(self.state()) == ts);
        }
        sink.emit(SecretEvent::Audit(mirrored));
        assert(sink@ =~= sink@ + Seq::<EventView>::empty());
        Ok(())
    }

    /// Audits an operation that did what it was asked.
    pub(super) fn audit_ok(
        &mut self,
        sink: &mut EventSink,
        event_type: &str,
        subject: Option<String>,
        detail: AuditDetail,
    ) -> (done: Result<(), EngineError>)
        ensures
            ({
                let entry = Entry {
                    event_type: event_type@,
                    subject: codec::text_view(subject),
                    detail,
                    outcome: AuditOutcome::Succeeded,
                };
                match done {
                    Ok(_) => model::recorded(
                        old(self).state(),
                        old(sink)@,
                        final(self).state(),
                        final(sink)@,
                        entry,
                        Seq::empty(),
                    ),
                    Err(e) => e is Store && model::unfinished(
                        old(self).state(),
                        old(sink)@,
                        final(self).state(),
                        final(sink)@,
                        entry,
                    ),
                }
            }),
            old(self).logs_surely() && model::has_room(old(self).state()) ==> done is Ok,
            final(self).continues(*old(self)),
    {
        self.audit(sink, event_type, subject, detail, AuditOutcome::Succeeded)
    }

    /// Audits an operation that failed.
    pub(super) fn audit_failed(
        &mut self,
        sink: &mut EventSink,
        event_type: &str,
        subject: Option<String>,
        detail: AuditDetail,
    ) -> (done: Result<(), EngineError>)
        ensures
            ({
                let entry = Entry {
                    event_type: event_type@,
                    subject: codec::text_view(subject),
                    detail,
                    outcome: AuditOutcome::Failed,
                };
                match done {
                    Ok(_) => model::recorded(
                        old(self).state(),
                        old(sink)@,
                        final(self).state(),
                        final(sink)@,
                        entry,
                        Seq::empty(),
                    ),
                    Err(e) => e is Store && model::unfinished(
                        old(self).state(),
                        old(sink)@,
                        final(self).state(),
                        final(sink)@,
                        entry,
                    ),
                }
            }),
            old(self).logs_surely() && model::has_room(old(self).state()) ==> done is Ok,
            final(self).continues(*old(self)),
    {
        self.audit(sink, event_type, subject, detail, AuditOutcome::Failed)
    }

    /// Audits an operation that was refused, and tells so. Whether the refusal is an error is for
    /// the caller to say. A refusal whose row was not written is not told.
    pub(super) fn refuse_with(
        &mut self,
        sink: &mut EventSink,
        event_type: &str,
        subject: &str,
        detail: AuditDetail,
        reason: String,
    ) -> (done: Result<(), EngineError>)
        ensures
            ({
                let entry = model::refused_entry(event_type@, subject@, detail);
                match done {
                    Ok(_) => model::recorded(
                        old(self).state(),
                        old(sink)@,
                        final(self).state(),
                        final(sink)@,
                        entry,
                        seq![EventView::GuardRefused { subject: subject@, reason: reason@ }],
                    ),
                    Err(e) => e is Store && model::unfinished(
                        old(self).state(),
                        old(sink)@,
                        final(self).state(),
                        final(sink)@,
                        entry,
                    ),
                }
            }),
            old(self).logs_surely() && model::has_room(old(self).state()) ==> done is Ok,
            final(self).continues(*old(self)),
    {
        match self.audit(
            sink,
            event_type,
            Some(subject.to_owned()),
            detail,
            AuditOutcome::Refused,
        ) {
            Ok(_) => {},
            Err(e) => {
                return Err(e);
            },
        }
        let ghost told = sink@;
        let ghost words = reason@;
        sink.emit(SecretEvent::GuardRefused { subject: subject.to_owned(), reason });
        proof {
            let event = EventView::GuardRefused { subject: subject@, reason: words };
            let entry = model::refused_entry(event_type@, subject@, detail);
            let mirror = model::mirrored(old(self).state(), entry, model::last_ts(self.state()));
            assert(told =~= old(sink)@.push(mirror));
            assert(sink@ =~= old(sink)@.push(mirror) + seq![event]);
        }
        Ok(())
    }

    /// Audits an operation that was refused for a given reason, and tells so.
    pub(super) fn refuse(
        &mut self,
        sink: &mut EventSink,
        event_type: &str,
        subject: &str,
        reason: Reason,
    ) -> (done: Result<(), EngineError>)
        ensures
            ({
                let entry = model::refused_entry(
                    event_type@,
                    subject@,
                    AuditDetail::Cause { reason },
                );
                match done {
                    Ok(_) => model::recorded(
                        old(self).state(),
                        old(sink)@,
                        final(self).state(),
                        final(sink)@,
                        entry,
                        seq![
                            EventView::GuardRefused { subject: subject@, reason: reason.words() },
                        ],
                    ),
                    Err(e) => e is Store && model::unfinished(
                        old(self).state(),
                        old(sink)@,
                        final(self).state(),
                        final(sink)@,
                        entry,
                    ),
                }
            }),
            old(self).logs_surely() && model::has_room(old(self).state()) ==> done is Ok,
            final(self).continues(*old(self)),
    {
        self.refuse_with(
            sink,
            event_type,
            subject,
            AuditDetail::Cause { reason },
            reason.text(),
        )
    }

    /// Checks the audit log: the chain, and the anchor under the live data key.
    pub fn verify_audit_anchor(&self, _sink: &EventSink) -> (verdict: Result<(), EngineError>)
        ensures
            match verdict {
                Ok(_) => self.state().dek matches Some(dek) && model::audit_fault(
                    self.state().store,
                    dek,
                ) is None,
                Err(EngineError::Locked) => self.state().dek is None,
                Err(EngineError::AuditChainBroken(seq)) => self.state().dek matches Some(dek)
                    && model::audit_fault(self.state().store, dek) == Some(seq),
                Err(e) => {
                    &&& e is Store
                    &&& self.state().dek is Some
                    &&& !(self.reliable(StoreCall::VerifyAuditChain) && self.reliable(
                        StoreCall::GetMeta,
                    ) && self.reliable(StoreCall::QueryAudit))
                },
            },
    {
        match self.vault.dek() {
            Some(dek) => verify_audit_anchor_with(&self.store, dek),
            None => Err(EngineError::Locked),
        }
    }
}

} // verus!
