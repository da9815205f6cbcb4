//! The audit log as a hash chain, and the anchor that ties its tail to the data key.
//!
//! The chain alone shows that a row was changed, since each row is bound to all rows before it. It
//! does not show that rows were dropped from the end: what is left is a shorter chain without a
//! flaw. The anchor closes that gap for all rows up to the anchored one.
use vstd::prelude::*;
use crate::codec;
use crate::error::EngineError;
use crate::event::{AuditDetail, AuditOutcome, AuditRecord, RowView};
use crate::keyslot::Dek;
use crate::primitives::{derive_key, hash, keyed_hash, wipe_key};

verus! {

/// The hash that the first row links to.
pub open spec fn genesis() -> Seq<u8> {
    crate::primitives::blake3_hash(vstd::utf8::encode_utf8("env-ctl/v1/audit-genesis"@))
}

/// The hash that the first row links to.
pub fn genesis_hash() -> (digest: [u8; 32])
    ensures
        digest@ == genesis(),
{
    hash("env-ctl/v1/audit-genesis".as_bytes())
}

/// The number that stands for an outcome.
pub open spec fn outcome_code(outcome: AuditOutcome) -> u8 {
    match outcome {
        AuditOutcome::Succeeded => 1,
        AuditOutcome::Failed => 2,
        AuditOutcome::Refused => 3,
    }
}

/// Canonical bytes of a row without its own hash.
pub open spec fn row_message(row: RowView) -> Seq<u8> {
    codec::prefixed(row.prev_hash) + (codec::be_i64(row.seq) + (codec::prefixed(
        vstd::utf8::encode_utf8(row.ts),
    ) + (codec::optional_u32(row.actor_uid) + (codec::prefixed(
        vstd::utf8::encode_utf8(row.event_type),
    ) + (codec::optional_text(row.subject) + (row.detail.bytes() + seq![
        outcome_code(row.outcome),
    ]))))))
}

/// The hash that belongs to a row.
pub open spec fn row_digest(row: RowView) -> Seq<u8> {
    crate::primitives::blake3_hash(row_message(row))
}

fn push_outcome(out: &mut Vec<u8>, outcome: AuditOutcome)
    ensures
        final(out)@ == old(out)@ + seq![outcome_code(outcome)],
{
    match outcome {
        AuditOutcome::Succeeded => {
            out.push(1u8);
        },
        AuditOutcome::Failed => {
            out.push(2u8);
        },
        AuditOutcome::Refused => {
            out.push(3u8);
        },
    }
    assert(out@ =~= old(out)@ + seq![outcome_code(outcome)]);
}

/// Hashes a row together with the hash that it links to.
pub fn digest_row(row: &AuditRecord) -> (digest: [u8; 32])
    ensures
        digest@ == row_digest(row@),
{
    let mut msg: Vec<u8> = Vec::new();
    codec::push_prefixed(&mut msg, row.prev_hash.as_slice());
    codec::push_be_i64(&mut msg, row.seq);
    codec::push_text(&mut msg, row.ts.as_str());
    codec::push_optional_u32(&mut msg, row.actor_uid);
    codec::push_text(&mut msg, row.event_type.as_str());
    codec::push_optional_text(&mut msg, &row.subject);
    row.detail.push_onto(&mut msg);
    push_outcome(&mut msg, row.outcome);
    proof {
        let p = codec::prefixed(row.prev_hash@);
        let s = codec::be_i64(row.seq);
        let t = codec::prefixed(vstd::utf8::encode_utf8(row.ts@));
        let a = codec::optional_u32(row.actor_uid);
        let e = codec::prefixed(vstd::utf8::encode_utf8(row.event_type@));
        let u = codec::optional_text(row@.subject);
        let d = row.detail.bytes();
        let o = seq![outcome_code(row.outcome)];
        assert(Seq::<u8>::empty() + p =~= p);
        codec::lemma_assoc(p + s + t + a + e + u, d, o);
        codec::lemma_assoc(p + s + t + a + e, u, d + o);
        codec::lemma_assoc(p + s + t + a, e, u + (d + o));
        codec::lemma_assoc(p + s + t, a, e + (u + (d + o)));
        codec::lemma_assoc(p + s, t, a + (e + (u + (d + o))));
        codec::lemma_assoc(p, s, t + (a + (e + (u + (d + o)))));
    }
    hash(msg.as_slice())
}

/// A row that is not part of a chain yet.
pub open spec fn draft(
    ts: Seq<char>,
    actor_uid: Option<u32>,
    event_type: Seq<char>,
    subject: Option<Seq<char>>,
    detail: AuditDetail,
    outcome: AuditOutcome,
) -> RowView {
    RowView {
        seq: 0,
        ts,
        actor_uid,
        event_type,
        subject,
        detail,
        outcome,
        prev_hash: Seq::<u8>::empty(),
        row_hash: Seq::<u8>::empty(),
    }
}

/// A row that is not part of a chain yet.
pub fn new_row(
    ts: String,
    actor_uid: Option<u32>,
    event_type: &str,
    subject: Option<String>,
    detail: AuditDetail,
    outcome: AuditOutcome,
) -> (row: AuditRecord)
    ensures
        row@ == draft(
            ts@,
            actor_uid,
            event_type@,
            codec::text_view(subject),
            detail,
            outcome,
        ),
{
    let row = AuditRecord {
        seq: 0,
        ts,
        actor_uid,
        event_type: event_type.to_owned(),
        subject,
        detail,
        outcome,
        prev_hash: Vec::new(),
        row_hash: Vec::new(),
    };
    assert(row@.prev_hash =~= Seq::<u8>::empty());
    assert(row@.row_hash =~= Seq::<u8>::empty());
    row
}

/// The hash that a row behind these rows links to.
pub open spec fn tail_hash(rows: Seq<RowView>) -> Seq<u8> {
    if rows.len() == 0 {
        genesis()
    } else {
        rows.last().row_hash
    }
}

/// The row at the end of a chain: numbered, linked to the row before it, and hashed.
pub open spec fn linked(rows: Seq<RowView>, row: RowView) -> RowView {
    let placed = RowView { seq: (rows.len() + 1) as i64, prev_hash: tail_hash(rows), ..row };
    RowView { row_hash: row_digest(placed), ..placed }
}

/// Numbers a row, links it and hashes it.
pub fn link_row(row: &AuditRecord, seq: i64, prev_hash: &[u8]) -> (linked_row: AuditRecord)
    ensures
        linked_row@ == ({
            let placed = RowView { seq, prev_hash: prev_hash@, ..row@ };
            RowView { row_hash: row_digest(placed), ..placed }
        }),
{
    let mut out: AuditRecord = row.duplicate();
    out.seq = seq;
    out.prev_hash = codec::copy_bytes(prev_hash);
    let ghost placed = RowView { seq, prev_hash: prev_hash@, ..row@ };
    let digest: [u8; 32] = digest_row(&out);
    proof {
        assert(row_message(out@) == row_message(placed));
    }
    out.row_hash = codec::copy_bytes(digest.as_slice());
    out
}

/// The hash that row `i` has to link to.
pub open spec fn hash_before(rows: Seq<RowView>, i: int) -> Seq<u8> {
    if i == 0 {
        genesis()
    } else {
        rows[i - 1].row_hash
    }
}

/// Whether row `i` has its number, links to the row before it and carries its own hash.
pub open spec fn row_holds(rows: Seq<RowView>, i: int) -> bool {
    &&& rows[i].seq == i + 1
    &&& rows[i].prev_hash == hash_before(rows, i)
    &&& rows[i].row_hash == row_digest(rows[i])
}

/// Whether every row of the chain holds.
pub open spec fn chain_intact(rows: Seq<RowView>) -> bool {
    forall|i: int| 0 <= i < rows.len() ==> #[trigger] row_holds(rows, i)
}

/// Where a chain breaks first.
pub open spec fn breaks_at(rows: Seq<RowView>, k: int) -> bool {
    &&& 0 <= k < rows.len()
    &&& !row_holds(rows, k)
    &&& forall|i: int| 0 <= i < k ==> #[trigger] row_holds(rows, i)
}

/// The sequence number of the first row that does not hold; `None` for an intact chain.
pub open spec fn first_break(rows: Seq<RowView>) -> Option<i64> {
    if chain_intact(rows) {
        None
    } else {
        Some(rows[choose|k: int| breaks_at(rows, k)].seq)
    }
}

/// A chain that is not intact has one first break.
pub proof fn lemma_break_is_unique(rows: Seq<RowView>, k: int)
    requires
        breaks_at(rows, k),
    ensures
        !chain_intact(rows),
        first_break(rows) == Some(rows[k].seq),
{
    let m = choose|m: int| breaks_at(rows, m);
    assert(breaks_at(rows, m));
    if m < k {
        assert(row_holds(rows, m));
    } else if k < m {
        assert(row_holds(rows, k));
    }
}

/// Walks the chain from the first row, and names the first row that does not hold.
pub fn verify_chain(rows: &[AuditRecord]) -> (verdict: Result<(), EngineError>)
    ensures
        match verdict {
            Ok(_) => first_break(crate::event::row_views(rows@)) is None,
            Err(e) => e matches EngineError::AuditChainBroken(seq) && first_break(
                crate::event::row_views(rows@),
            ) == Some(seq),
        },
{
    let ghost views = crate::event::row_views(rows@);
    let root: [u8; 32] = genesis_hash();
    let mut i: usize = 0;
    while i < rows.len()
        invariant
            i <= rows@.len(),
            views == crate::event::row_views(rows@),
            root@ == genesis(),
            forall|j: int| 0 <= j < i ==> #[trigger] row_holds(views, j),
        decreases rows@.len() - i,
    {
        let row: &AuditRecord = &rows[i];
        assert(views[i as int] == row@);
        let linked_ok: bool = if i == 0 {
            codec::bytes_eq(row.prev_hash.as_slice(), root.as_slice())
        } else {
            assert(views[i - 1] == rows@[i - 1]@);
            codec::bytes_eq(row.prev_hash.as_slice(), rows[i - 1].row_hash.as_slice())
        };
        let digest: [u8; 32] = digest_row(row);
        let hash_ok: bool = codec::bytes_eq(row.row_hash.as_slice(), digest.as_slice());
        let seq_ok: bool = row.seq > 0 && (row.seq - 1) as u64 == i as u64;
        if !(linked_ok && hash_ok && seq_ok) {
            proof {
                assert(breaks_at(views, i as int));
                lemma_break_is_unique(views, i as int);
            }
            return Err(EngineError::AuditChainBroken(row.seq));
        }
        assert(row_holds(views, i as int));
        i = i + 1;
    }
    Ok(())
}

/// The MAC that ties a row of the chain to the data key.
pub open spec fn head_mac(dek: Seq<u8>, seq: i64, row_hash: Seq<u8>) -> Seq<u8> {
    crate::primitives::blake3_keyed_hash(
        crate::primitives::blake3_derive_key("env-ctl/v1/audit-head/key"@, dek),
        vstd::utf8::encode_utf8("env-ctl/v1/audit-head"@) + (codec::be_i64(seq) + row_hash),
    )
}

/// The MAC that ties the tail of the audit chain to the data key; the hash is empty, and the number
/// zero, for a chain without rows.
pub fn audit_head_mac(dek: &Dek, seq: i64, tail_row_hash: &[u8]) -> (mac: Vec<u8>)
    ensures
        mac@ == head_mac(dek@, seq, tail_row_hash@),
        mac@.len() == 32,
{
    let mut key: [u8; 32] = derive_key("env-ctl/v1/audit-head/key", dek.0.as_slice());
    let mut msg: Vec<u8> = Vec::new();
    codec::push_bytes(&mut msg, "env-ctl/v1/audit-head".as_bytes());
    codec::push_be_i64(&mut msg, seq);
    codec::push_bytes(&mut msg, tail_row_hash);
    proof {
        let d = vstd::utf8::encode_utf8("env-ctl/v1/audit-head"@);
        assert(Seq::<u8>::empty() + d =~= d);
        codec::lemma_assoc(d, codec::be_i64(seq), tail_row_hash@);
    }
    let mac: [u8; 32] = keyed_hash(&key, msg.as_slice());
    wipe_key(&mut key);
    codec::copy_bytes(mac.as_slice())
}

/// The MAC over the end of a chain, for the data key.
pub open spec fn tail_mac(dek: Seq<u8>, rows: Seq<RowView>) -> Seq<u8> {
    if rows.len() == 0 {
        head_mac(dek, 0, Seq::<u8>::empty())
    } else {
        head_mac(dek, rows.last().seq, rows.last().row_hash)
    }
}

/// Whether an anchor MAC belongs to some row of the chain, or to the chain without rows.
pub open spec fn anchor_found(dek: Seq<u8>, rows: Seq<RowView>, mac: Seq<u8>) -> bool {
    if rows.len() == 0 {
        mac == head_mac(dek, 0, Seq::<u8>::empty())
    } else {
        exists|i: int|
            0 <= i < rows.len() && mac == head_mac(
                dek,
                (#[trigger] rows[i]).seq,
                rows[i].row_hash,
            )
    }
}

/// Looks for the row that an anchor MAC belongs to.
pub fn find_anchor(dek: &Dek, rows: &[AuditRecord], mac: &[u8]) -> (found: bool)
    ensures
        found == anchor_found(dek@, crate::event::row_views(rows@), mac@),
{
    let ghost views = crate::event::row_views(rows@);
    if rows.len() == 0 {
        let none: Vec<u8> = Vec::new();
        assert(none@ =~= Seq::<u8>::empty());
        let empty: Vec<u8> = audit_head_mac(dek, 0, none.as_slice());
        return crate::primitives::ct_eq(empty.as_slice(), mac);
    }
    let mut i: usize = 0;
    while i < rows.len()
        invariant
            i <= rows@.len(),
            views == crate::event::row_views(rows@),
            forall|j: int|
                0 <= j < i ==> mac@ != head_mac(dek@, (#[trigger] views[j]).seq, views[j].row_hash),
        decreases rows@.len() - i,
    {
        assert(views[i as int] == rows@[i as int]@);
        let expected: Vec<u8> = audit_head_mac(dek, rows[i].seq, rows[i].row_hash.as_slice());
        if crate::primitives::ct_eq(expected.as_slice(), mac) {
            return true;
        }
        i = i + 1;
    }
    false
}

} // verus!
