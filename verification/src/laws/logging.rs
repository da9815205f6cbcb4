//! What the audit log says, row by row.
use vstd::prelude::*;
use crate::codec;
use crate::engine::journal;
use crate::engine::model;
use crate::engine::model::{EngineView, Entry};
use crate::engine::Engine;
use crate::error::EngineError;
use crate::event;
use crate::event::{AuditDetail, AuditOutcome, AuditRecord, EventSink, EventView, RowView};
use crate::keyslot::Dek;
use crate::laws;
use crate::primitives;
use crate::seam::{Clock, UsbProbe};
use crate::vault::audit;
use crate::vault::store;
use crate::vault::store::{Store, StoreCall, StoreView};

verus! {

/// The hash that stands before the first row.
pub open spec fn root() -> Seq<u8> {
    primitives::blake3_hash(vstd::utf8::encode_utf8("env-ctl/v1/audit-genesis"@))
}

/// Whether a row stands in its place: it carries the number of its place, the hash of the row
/// before it, and the hash of all of its own fields.
pub open spec fn stands(rows: Seq<RowView>, i: int) -> bool {
    &&& rows[i].seq == i + 1
    &&& i == 0 ==> rows[i].prev_hash == root()
    &&& i > 0 ==> rows[i].prev_hash == rows[i - 1].row_hash
    &&& rows[i].row_hash == primitives::blake3_hash(audit::row_message(rows[i]))
}

/// The MAC over the end of a log at a row, for the holder of a key.
pub open spec fn anchor_at(dek: Seq<u8>, seq: i64, row_hash: Seq<u8>) -> Seq<u8> {
    primitives::blake3_keyed_hash(
        primitives::blake3_derive_key("env-ctl/v1/audit-head/key"@, dek),
        vstd::utf8::encode_utf8("env-ctl/v1/audit-head"@) + codec::be_i64(seq) + row_hash,
    )
}

pub proof fn lemma_anchor_at(dek: Seq<u8>, seq: i64, row_hash: Seq<u8>)
    ensures
        audit::head_mac(dek, seq, row_hash) == anchor_at(dek, seq, row_hash),
{
    codec::lemma_assoc(
        vstd::utf8::encode_utf8("env-ctl/v1/audit-head"@),
        codec::be_i64(seq),
        row_hash,
    );
}

pub proof fn lemma_intact_is_standing(rows: Seq<RowView>)
    ensures
        audit::chain_intact(rows) <==> forall|i: int|
            0 <= i < rows.len() ==> #[trigger] stands(rows, i),
        forall|i: int|
            0 <= i < rows.len() ==> #[trigger] audit::row_holds(rows, i) == stands(rows, i),
{
    assert forall|i: int| 0 <= i < rows.len() implies #[trigger] audit::row_holds(rows, i)
        == stands(rows, i) by {}
    if forall|i: int| 0 <= i < rows.len() ==> #[trigger] stands(rows, i) {
        assert forall|i: int| 0 <= i < rows.len() implies #[trigger] audit::row_holds(rows, i) by {
            assert(stands(rows, i));
        }
    }
    if audit::chain_intact(rows) {
        assert forall|i: int| 0 <= i < rows.len() implies #[trigger] stands(rows, i) by {
            assert(audit::row_holds(rows, i));
        }
    }
}

proof fn lemma_first_break_exists(rows: Seq<RowView>, k: int) -> (m: int)
    requires
        0 <= k < rows.len(),
        !audit::row_holds(rows, k),
    ensures
        audit::breaks_at(rows, m),
    decreases k,
{
    if exists|i: int| 0 <= i < k && !#[trigger] audit::row_holds(rows, i) {
        let i = choose|i: int| 0 <= i < k && !#[trigger] audit::row_holds(rows, i);
        lemma_first_break_exists(rows, i)
    } else {
        k
    }
}

/// Whether a number is that of the first row that does not stand.
pub open spec fn falls_first(rows: Seq<RowView>, k: int, seq: i64) -> bool {
    &&& 0 <= k < rows.len()
    &&& !stands(rows, k)
    &&& seq == rows[k].seq
    &&& forall|i: int| 0 <= i < k ==> #[trigger] stands(rows, i)
}

pub proof fn lemma_first_break_is_first(rows: Seq<RowView>)
    ensures
        match audit::first_break(rows) {
            None => forall|i: int| 0 <= i < rows.len() ==> #[trigger] stands(rows, i),
            Some(seq) => exists|k: int| #[trigger] falls_first(rows, k, seq),
        },
{
    lemma_intact_is_standing(rows);
    if !audit::chain_intact(rows) {
        let k = choose|k: int| 0 <= k < rows.len() && !#[trigger] audit::row_holds(rows, k);
        let m = lemma_first_break_exists(rows, k);
        audit::lemma_break_is_unique(rows, m);
        assert forall|i: int| 0 <= i < m implies #[trigger] stands(rows, i) by {
            assert(audit::row_holds(rows, i));
        }
        assert(!audit::row_holds(rows, m));
        let seq = audit::first_break(rows).unwrap();
        assert(falls_first(rows, m, seq));
    } else {
        assert(audit::first_break(rows) is None);
    }
}

/// A chain is accepted exactly where every row stands, and otherwise refused with the number of the
/// first one that does not.
pub proof fn law_chain_is_walked_row_by_row(
    rows: &[AuditRecord],
    verdict: Result<(), EngineError>,
)
    requires
        call_ensures(audit::verify_chain, (rows,), verdict),
    ensures
        match verdict {
            Ok(_) => forall|i: int|
                0 <= i < rows@.len() ==> #[trigger] stands(event::row_views(rows@), i),
            Err(e) => e matches EngineError::AuditChainBroken(seq) && exists|k: int| #[trigger]
                falls_first(event::row_views(rows@), k, seq),
        },
{
    lemma_first_break_is_first(event::row_views(rows@));
}

/// Linking a row gives it the number and the hash that were asked for, keeps everything else, and
/// hashes all of it.
pub proof fn law_linked_row_keeps_its_fields(
    row: &AuditRecord,
    seq: i64,
    prev_hash: &[u8],
    out: AuditRecord,
)
    requires
        call_ensures(audit::link_row, (row, seq, prev_hash), out),
    ensures
        out.seq == seq,
        out.prev_hash@ == prev_hash@,
        out.ts@ == row.ts@,
        out.actor_uid == row.actor_uid,
        out.event_type@ == row.event_type@,
        codec::text_view(out.subject) == codec::text_view(row.subject),
        out.detail == row.detail,
        out.outcome == row.outcome,
        out.row_hash@ == primitives::blake3_hash(audit::row_message(out@)),
{
    assert(out.prev_hash@ == out@.prev_hash);
    assert(out.ts@ == out@.ts);
    assert(out.event_type@ == out@.event_type);
    assert(codec::text_view(out.subject) == out@.subject);
    assert(out.row_hash@ == out@.row_hash);
    let placed = RowView { seq, prev_hash: prev_hash@, ..row@ };
    assert(audit::row_message(out@) == audit::row_message(placed));
}

/// A new row says what it was asked to say.
pub proof fn law_new_row_says_what_it_was_given(
    ts: String,
    actor_uid: Option<u32>,
    event_type: &str,
    subject: Option<String>,
    detail: AuditDetail,
    outcome: AuditOutcome,
    row: AuditRecord,
)
    requires
        call_ensures(
            audit::new_row,
            (ts, actor_uid, event_type, subject, detail, outcome),
            row,
        ),
    ensures
        row.ts@ == ts@,
        row.actor_uid == actor_uid,
        row.event_type@ == event_type@,
        codec::text_view(row.subject) == codec::text_view(subject),
        row.detail == detail,
        row.outcome == outcome,
{
    assert(row.ts@ == row@.ts);
    assert(row.event_type@ == row@.event_type);
    assert(codec::text_view(row.subject) == row@.subject);
}

/// The anchor is a MAC, under a key that is derived from the data key for this purpose alone, over
/// the number and the hash of the last row.
pub proof fn law_anchor_is_a_mac_of_the_last_row(
    dek: &Dek,
    seq: i64,
    row_hash: &[u8],
    mac: Vec<u8>,
)
    requires
        call_ensures(audit::audit_head_mac, (dek, seq, row_hash), mac),
    ensures
        mac@ == anchor_at(dek.0@, seq, row_hash@),
{
    lemma_anchor_at(dek.0@, seq, row_hash@);
}

/// An anchor is found exactly where it is the MAC over some row, or over a log without rows.
pub proof fn law_anchor_is_looked_for_in_every_row(
    dek: &Dek,
    rows: &[AuditRecord],
    mac: &[u8],
    found: bool,
)
    requires
        call_ensures(audit::find_anchor, (dek, rows, mac), found),
    ensures
        rows@.len() == 0 ==> found == (mac@ == anchor_at(dek.0@, 0, Seq::<u8>::empty())),
        rows@.len() > 0 ==> (found <==> exists|i: int|
            0 <= i < rows@.len() && mac@ == anchor_at(
                dek.0@,
                (#[trigger] rows@[i]).seq,
                rows@[i].row_hash@,
            )),
{
    let views = event::row_views(rows@);
    lemma_anchor_at(dek.0@, 0, Seq::<u8>::empty());
    assert forall|i: int| 0 <= i < rows@.len() implies audit::head_mac(
        dek.0@,
        (#[trigger] views[i]).seq,
        views[i].row_hash,
    ) == anchor_at(dek.0@, rows@[i].seq, rows@[i].row_hash@) by {
        lemma_anchor_at(dek.0@, views[i].seq, views[i].row_hash);
    }
    if rows@.len() > 0 && found {
        let i = choose|i: int|
            0 <= i < views.len() && mac@ == audit::head_mac(
                dek.0@,
                (#[trigger] views[i]).seq,
                views[i].row_hash,
            );
        assert(mac@ == anchor_at(dek.0@, rows@[i].seq, rows@[i].row_hash@));
    }
    if rows@.len() > 0 && exists|i: int|
        0 <= i < rows@.len() && mac@ == anchor_at(
            dek.0@,
            (#[trigger] rows@[i]).seq,
            rows@[i].row_hash@,
        ) {
        let i = choose|i: int|
            0 <= i < rows@.len() && mac@ == anchor_at(
                dek.0@,
                (#[trigger] rows@[i]).seq,
                rows@[i].row_hash@,
            );
        assert(mac@ == audit::head_mac(dek.0@, views[i].seq, views[i].row_hash));
    }
}

/// Whether one row was added to the log, with this content.
pub open spec fn one_row_more(
    s: StoreView,
    t: StoreView,
    owner_uid: u32,
    event_type: Seq<char>,
    subject: Option<Seq<char>>,
    detail: AuditDetail,
    outcome: AuditOutcome,
) -> bool {
    let n = s.audit.len() as int;
    let row = t.audit[n];
    &&& t.audit.len() == n + 1
    &&& forall|i: int| 0 <= i < n ==> #[trigger] t.audit[i] == s.audit[i]
    &&& n < i64::MAX ==> stands(t.audit, n)
    &&& row.actor_uid == Some(owner_uid)
    &&& row.event_type == event_type
    &&& row.subject == subject
    &&& row.detail == detail
    &&& row.outcome == outcome
    &&& t.secrets == s.secrets
    &&& t.slots == s.slots
    &&& t.next_row_id == s.next_row_id
    &&& forall|k: Seq<char>|
        k != "vault.audit_head"@ ==> (#[trigger] t.meta.dom().contains(k)
            <==> s.meta.dom().contains(k)) && (s.meta.dom().contains(k) ==> t.meta[k] == s.meta[k])
}

/// Whether an event mirrors a row.
pub open spec fn mirrors(event: EventView, row: RowView) -> bool {
    &&& event matches EventView::Audit(m)
    &&& m.seq == row.seq
    &&& m.ts == row.ts
    &&& m.actor_uid == row.actor_uid
    &&& m.event_type == row.event_type
    &&& m.subject == row.subject
    &&& m.detail == row.detail
    &&& m.outcome == row.outcome
}

/// Whether the row that was added last is told, followed by these events and nothing else.
pub open spec fn told_then(
    before: Seq<EventView>,
    after: Seq<EventView>,
    row: RowView,
    then: Seq<EventView>,
) -> bool {
    &&& after.len() == before.len() + 1 + then.len()
    &&& forall|i: int| 0 <= i < before.len() ==> #[trigger] after[i] == before[i]
    &&& mirrors(after[before.len() as int], row)
    &&& forall|i: int|
        0 <= i < then.len() ==> after[before.len() + 1 + i] == #[trigger] then[i]
}

/// Writing an entry adds one row that stands, says what the entry says and who did it, and touches
/// nothing else; the row is told, and what is to follow. Under a live key the anchor is the MAC
/// over that row, wherever the store tells its last row.
pub proof fn law_entry_is_one_row_more(
    s: EngineView,
    before: Seq<EventView>,
    t: EngineView,
    after: Seq<EventView>,
    entry: Entry,
    then: Seq<EventView>,
)
    requires
        model::recorded(s, before, t, after, entry, then),
    ensures
        one_row_more(
            s.store,
            t.store,
            s.owner_uid,
            entry.event_type,
            entry.subject,
            entry.detail,
            entry.outcome,
        ),
        told_then(before, after, t.store.audit.last(), then),
        t.dek == s.dek,
        t.relays == s.relays,
        t.owner_uid == s.owner_uid,
        s.dek is None ==> t.store.meta == s.store.meta,
        s.reads_tail ==> (s.dek matches Some(dek) ==> {
            let key = "vault.audit_head"@;
            let row = t.store.audit.last();
            &&& t.store.meta.dom().contains(key)
            &&& t.store.meta[key] == codec::hex_text(anchor_at(dek, row.seq, row.row_hash))
        }),
{
    let n = s.store.audit.len() as int;
    let row = t.store.audit.last();
    assert(t.store.audit[n] == row);
    if s.dek is Some {
        lemma_anchor_at(s.dek.unwrap(), row.seq, row.row_hash);
    }
    let mirror = model::mirrored(s, entry, model::last_ts(t));
    assert(after =~= before.push(mirror) + then);
    assert(after[before.len() as int] == mirror);
    assert forall|i: int| 0 <= i < then.len() implies after[before.len() + 1 + i]
        == #[trigger] then[i] by {}
}

/// Whether an audit log has no fault for the holder of a key: every row stands, and the anchor, if
/// there is one, is the MAC over a row that is there.
pub open spec fn log_sound(s: StoreView, dek: Seq<u8>) -> bool {
    &&& forall|i: int| 0 <= i < s.audit.len() ==> #[trigger] stands(s.audit, i)
    &&& s.meta.dom().contains("vault.audit_head"@) ==> {
        &&& codec::unhex(s.meta["vault.audit_head"@]) matches Some(mac)
        &&& s.audit.len() == 0 ==> mac == anchor_at(dek, 0, Seq::<u8>::empty())
        &&& s.audit.len() > 0 ==> exists|i: int|
            0 <= i < s.audit.len() && mac == anchor_at(
                dek,
                (#[trigger] s.audit[i]).seq,
                s.audit[i].row_hash,
            )
    }
}

pub proof fn lemma_no_fault_is_sound(s: StoreView, dek: Seq<u8>)
    requires
        s.audit.len() <= usize::MAX,
    ensures
        model::audit_fault(s, dek) is None <==> log_sound(s, dek),
        model::audit_fault(s, dek) matches Some(seq) ==> seq == 0 || exists|k: int| #[trigger]
            falls_first(s.audit, k, seq),
{
    lemma_first_break_is_first(s.audit);
    lemma_intact_is_standing(s.audit);
    if audit::chain_intact(s.audit) {
        laws::audit::lemma_anchor_rows(s);
        lemma_anchor_at(dek, 0, Seq::<u8>::empty());
        assert forall|i: int| 0 <= i < s.audit.len() implies audit::head_mac(
            dek,
            (#[trigger] s.audit[i]).seq,
            s.audit[i].row_hash,
        ) == anchor_at(dek, s.audit[i].seq, s.audit[i].row_hash) by {
            lemma_anchor_at(dek, s.audit[i].seq, s.audit[i].row_hash);
        }
        if s.meta.dom().contains("vault.audit_head"@) && codec::unhex(
            s.meta["vault.audit_head"@],
        ) is Some && s.audit.len() > 0 {
            let mac = codec::unhex(s.meta["vault.audit_head"@]).unwrap();
            if audit::anchor_found(dek, s.audit, mac) {
                let i = choose|i: int|
                    0 <= i < s.audit.len() && mac == audit::head_mac(
                        dek,
                        (#[trigger] s.audit[i]).seq,
                        s.audit[i].row_hash,
                    );
                assert(mac == anchor_at(dek, s.audit[i].seq, s.audit[i].row_hash));
            }
            if log_sound(s, dek) {
                let i = choose|i: int|
                    0 <= i < s.audit.len() && mac == anchor_at(
                        dek,
                        (#[trigger] s.audit[i]).seq,
                        s.audit[i].row_hash,
                    );
                assert(mac == audit::head_mac(dek, s.audit[i].seq, s.audit[i].row_hash));
            }
        }
    }
}

/// The check of the log accepts it exactly where it is sound, names the first row that falls, and
/// changes nothing. It takes an open vault.
pub proof fn law_log_is_checked_as_a_whole<S: Store, C: Clock, U: UsbProbe>(
    e: &Engine<S, C, U>,
    sink: &EventSink,
    verdict: Result<(), EngineError>,
)
    requires
        call_ensures(Engine::<S, C, U>::verify_audit_anchor, (e, sink), verdict),
        e.state().store.audit.len() <= usize::MAX,
        e.reliable(StoreCall::VerifyAuditChain),
        e.reliable(StoreCall::GetMeta),
        e.reliable(StoreCall::QueryAudit),
    ensures
        e.state().dek is None ==> verdict == Err::<(), EngineError>(EngineError::Locked),
        e.state().dek matches Some(dek) ==> match verdict {
            Ok(_) => log_sound(e.state().store, dek),
            Err(err) => {
                &&& !log_sound(e.state().store, dek)
                &&& err matches EngineError::AuditChainBroken(seq) && (seq == 0 || exists|k: int|
                    #[trigger]
                    falls_first(e.state().store.audit, k, seq))
            },
        },
{
    if e.state().dek is Some {
        lemma_no_fault_is_sound(e.state().store, e.state().dek.unwrap());
    }
}

/// The check of the log for a given key accepts it exactly where it is sound.
pub proof fn law_log_is_checked_for_a_key<S: Store>(
    store: &S,
    dek: &Dek,
    verdict: Result<(), EngineError>,
)
    requires
        call_ensures(journal::verify_audit_anchor_with::<S>, (store, dek), verdict),
        store.state().audit.len() <= usize::MAX,
        store.reliable(StoreCall::VerifyAuditChain),
        store.reliable(StoreCall::GetMeta),
        store.reliable(StoreCall::QueryAudit),
    ensures
        verdict is Ok <==> log_sound(store.state(), dek.0@),
        verdict matches Err(e) ==> e is AuditChainBroken,
{
    lemma_no_fault_is_sound(store.state(), dek.0@);
}

} // verus!
