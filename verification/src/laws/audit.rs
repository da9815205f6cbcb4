//! What the audit chain and its anchor guarantee.
//!
//! Hash functions collide in principle. Where a law needs that they do not, it names the rows that
//! would have to collide.
use vstd::prelude::*;
use crate::codec;
use crate::engine::model;
use crate::event::{AuditDetail, RowView};
use crate::vault::audit;
use crate::vault::store;
use crate::vault::store::StoreView;

verus! {

/// Whether two rows have the same digest although what is hashed of them differs.
pub open spec fn rows_collide(a: RowView, b: RowView) -> bool {
    &&& audit::row_message(a) != audit::row_message(b)
    &&& audit::row_digest(a) == audit::row_digest(b)
}

/// Whether a row of one chain collides with the row of the other in the same place.
pub open spec fn chains_collide(a: Seq<RowView>, b: Seq<RowView>) -> bool {
    exists|i: int|
        0 <= i < a.len() && i < b.len() && rows_collide(#[trigger] a[i], #[trigger] b[i])
}

/// Whether two different pairs of number and hash have the same anchor MAC.
pub open spec fn anchors_collide(dek: Seq<u8>, s1: i64, h1: Seq<u8>, s2: i64, h2: Seq<u8>) -> bool {
    &&& s1 != s2 || h1 != h2
    &&& audit::head_mac(dek, s1, h1) == audit::head_mac(dek, s2, h2)
}

/// Whether the anchor over a row collides with the anchor over another row of a chain, or over the
/// chain without rows.
pub open spec fn anchor_collides(dek: Seq<u8>, row: RowView, rows: Seq<RowView>) -> bool {
    ||| anchors_collide(dek, row.seq, row.row_hash, 0, Seq::<u8>::empty())
    ||| exists|i: int|
        0 <= i < rows.len() && anchors_collide(
            dek,
            row.seq,
            row.row_hash,
            (#[trigger] rows[i]).seq,
            rows[i].row_hash,
        )
}

/// A row whose fields have lengths that a vector can have.
pub open spec fn row_fits(row: RowView) -> bool {
    &&& codec::fits(row.prev_hash)
    &&& codec::fits(vstd::utf8::encode_utf8(row.ts))
    &&& codec::fits(vstd::utf8::encode_utf8(row.event_type))
    &&& row.subject matches Some(t) ==> codec::fits(vstd::utf8::encode_utf8(t))
}

/// Whether all rows fit.
pub open spec fn rows_fit(rows: Seq<RowView>) -> bool {
    forall|i: int| 0 <= i < rows.len() ==> row_fits(#[trigger] rows[i])
}

proof fn lemma_two_numbers(tag: u8, a: Seq<u8>, x: Seq<u8>, b: Seq<u8>, y: Seq<u8>)
    requires
        seq![tag] + (a + x) == seq![tag] + (b + y),
        a.len() == b.len(),
    ensures
        a == b,
        x == y,
{
    codec::lemma_split(seq![tag], a + x, seq![tag], b + y);
    codec::lemma_split(a, x, b, y);
}

/// The byte that tells the kinds of details apart.
pub open spec fn detail_tag(a: AuditDetail) -> u8 {
    match a {
        AuditDetail::Empty => 0,
        AuditDetail::Init { .. } => 1,
        AuditDetail::Unlocked { .. } => 2,
        AuditDetail::Cause { .. } => 3,
        AuditDetail::TamperedVersion { .. } => 4,
        AuditDetail::Written { .. } => 5,
        AuditDetail::Read { .. } => 6,
        AuditDetail::Minted { .. } => 7,
        AuditDetail::Revoked { .. } => 8,
        AuditDetail::Relayed { .. } => 9,
        AuditDetail::Denied { .. } => 10,
    }
}

proof fn lemma_detail_starts_with_tag(a: AuditDetail)
    ensures
        a.bytes().len() > 0,
        a.bytes()[0] == detail_tag(a),
{
}

/// The canonical bytes of a detail determine it.
pub proof fn law_detail_bytes_bind(a: AuditDetail, b: AuditDetail)
    requires
        a.bytes() == b.bytes(),
    ensures
        a == b,
{
    lemma_detail_starts_with_tag(a);
    lemma_detail_starts_with_tag(b);
    match (a, b) {
        (
            AuditDetail::Init { slots: s1, dek_generation: g1 },
            AuditDetail::Init { slots: s2, dek_generation: g2 },
        ) => {
            lemma_two_numbers(
                1,
                codec::be64(s1),
                codec::be_i64(g1),
                codec::be64(s2),
                codec::be_i64(g2),
            );
            codec::lemma_be64_injective(s1, s2);
            codec::lemma_be_i64_injective(g1, g2);
        },
        (AuditDetail::Unlocked { factor: f1 }, AuditDetail::Unlocked { factor: f2 }) => {
            assert(a.bytes()[1] == b.bytes()[1]);
        },
        (AuditDetail::Cause { reason: r1 }, AuditDetail::Cause { reason: r2 }) => {
            assert(a.bytes()[1] == b.bytes()[1]);
        },
        (
            AuditDetail::TamperedVersion { version: v1 },
            AuditDetail::TamperedVersion { version: v2 },
        ) => {
            codec::lemma_split(seq![4u8], codec::be32(v1), seq![4u8], codec::be32(v2));
            codec::lemma_be32_injective(v1, v2);
        },
        (AuditDetail::Written { version: v1 }, AuditDetail::Written { version: v2 }) => {
            codec::lemma_split(seq![5u8], codec::be32(v1), seq![5u8], codec::be32(v2));
            codec::lemma_be32_injective(v1, v2);
        },
        (
            AuditDetail::Read { version: v1, revealed: r1 },
            AuditDetail::Read { version: v2, revealed: r2 },
        ) => {
            let h1 = seq![6u8, if r1 { 1u8 } else { 0u8 }];
            let h2 = seq![6u8, if r2 { 1u8 } else { 0u8 }];
            codec::lemma_split(h1, codec::be32(v1), h2, codec::be32(v2));
            assert(h1[1] == h2[1]);
            codec::lemma_be32_injective(v1, v2);
        },
        (
            AuditDetail::Minted { policy_id: p1, ttl_secs: t1 },
            AuditDetail::Minted { policy_id: p2, ttl_secs: t2 },
        ) => {
            lemma_two_numbers(
                7,
                codec::be_i64(p1),
                codec::be_i64(t1),
                codec::be_i64(p2),
                codec::be_i64(t2),
            );
            codec::lemma_be_i64_injective(p1, p2);
            codec::lemma_be_i64_injective(t1, t2);
        },
        (AuditDetail::Revoked { count: c1 }, AuditDetail::Revoked { count: c2 }) => {
            codec::lemma_split(seq![8u8], codec::be32(c1), seq![8u8], codec::be32(c2));
            codec::lemma_be32_injective(c1, c2);
        },
        (AuditDetail::Relayed { policy_id: p1 }, AuditDetail::Relayed { policy_id: p2 }) => {
            codec::lemma_split(seq![9u8], codec::be_i64(p1), seq![9u8], codec::be_i64(p2));
            codec::lemma_be_i64_injective(p1, p2);
        },
        (AuditDetail::Denied { reason: r1 }, AuditDetail::Denied { reason: r2 }) => {
            assert(a.bytes()[1] == b.bytes()[1]);
        },
        _ => {},
    }
}

/// What is hashed of a row determines every field of the row but the hash itself.
pub proof fn law_row_message_binds(a: RowView, b: RowView)
    requires
        row_fits(a),
        row_fits(b),
        audit::row_message(a) == audit::row_message(b),
    ensures
        a == (RowView { row_hash: a.row_hash, ..b }),
{
    let oa = seq![audit::outcome_code(a.outcome)];
    let ob = seq![audit::outcome_code(b.outcome)];
    let da = a.detail.bytes() + oa;
    let db = b.detail.bytes() + ob;
    let ua = codec::optional_text(a.subject) + da;
    let ub = codec::optional_text(b.subject) + db;
    let ea = codec::prefixed(vstd::utf8::encode_utf8(a.event_type)) + ua;
    let eb = codec::prefixed(vstd::utf8::encode_utf8(b.event_type)) + ub;
    let ca = codec::optional_u32(a.actor_uid) + ea;
    let cb = codec::optional_u32(b.actor_uid) + eb;
    let ta = codec::prefixed(vstd::utf8::encode_utf8(a.ts)) + ca;
    let tb = codec::prefixed(vstd::utf8::encode_utf8(b.ts)) + cb;
    let sa = codec::be_i64(a.seq) + ta;
    let sb = codec::be_i64(b.seq) + tb;
    codec::lemma_prefixed_split(a.prev_hash, sa, b.prev_hash, sb);
    codec::lemma_split(codec::be_i64(a.seq), ta, codec::be_i64(b.seq), tb);
    codec::lemma_be_i64_injective(a.seq, b.seq);
    codec::lemma_prefixed_split(
        vstd::utf8::encode_utf8(a.ts),
        ca,
        vstd::utf8::encode_utf8(b.ts),
        cb,
    );
    codec::lemma_utf8_injective(a.ts, b.ts);
    codec::lemma_optional_u32_split(a.actor_uid, ea, b.actor_uid, eb);
    codec::lemma_prefixed_split(
        vstd::utf8::encode_utf8(a.event_type),
        ua,
        vstd::utf8::encode_utf8(b.event_type),
        ub,
    );
    codec::lemma_utf8_injective(a.event_type, b.event_type);
    codec::lemma_optional_text_split(a.subject, da, b.subject, db);
    assert(da.len() == db.len());
    codec::lemma_split(a.detail.bytes(), oa, b.detail.bytes(), ob);
    law_detail_bytes_bind(a.detail, b.detail);
    assert(oa[0] == ob[0]);
}

/// Appending to an intact chain leaves an intact chain.
pub proof fn law_append_keeps_chain(rows: Seq<RowView>, row: RowView)
    requires
        audit::chain_intact(rows),
        rows.len() < i64::MAX,
    ensures
        audit::chain_intact(rows.push(audit::linked(rows, row))),
{
    let longer = rows.push(audit::linked(rows, row));
    assert forall|i: int| 0 <= i < longer.len() implies #[trigger] audit::row_holds(longer, i) by {
        if i < rows.len() {
            assert(audit::row_holds(rows, i));
            assert(longer[i] == rows[i]);
            if i > 0 {
                assert(longer[i - 1] == rows[i - 1]);
            }
        } else {
            let placed = RowView {
                seq: (rows.len() + 1) as i64,
                prev_hash: audit::tail_hash(rows),
                ..row
            };
            assert(audit::row_message(longer[i]) == audit::row_message(placed));
            if i > 0 {
                assert(longer[i - 1] == rows.last());
            }
        }
    }
}

/// The chain alone does not show that rows were cut off its end: what is left is intact.
pub proof fn law_truncation_keeps_chain(rows: Seq<RowView>, n: int)
    requires
        audit::chain_intact(rows),
        0 <= n <= rows.len(),
    ensures
        audit::chain_intact(rows.take(n)),
{
    let shorter = rows.take(n);
    assert forall|i: int| 0 <= i < shorter.len() implies #[trigger] audit::row_holds(
        shorter,
        i,
    ) by {
        assert(audit::row_holds(rows, i));
        assert(shorter[i] == rows[i]);
        if i > 0 {
            assert(shorter[i - 1] == rows[i - 1]);
        }
    }
}

/// A row of an intact chain that is changed without a new hash is where the chain breaks, unless it
/// collides with the row that it replaces.
pub proof fn law_tampering_is_found(rows: Seq<RowView>, i: int, changed: RowView)
    requires
        audit::chain_intact(rows),
        rows_fit(rows),
        row_fits(changed),
        0 <= i < rows.len(),
        changed.row_hash == rows[i].row_hash,
        changed != rows[i],
    ensures
        audit::first_break(rows.update(i, changed)) == Some(changed.seq) || rows_collide(
            changed,
            rows[i],
        ),
{
    let t = rows.update(i, changed);
    assert(audit::row_holds(rows, i));
    if audit::row_message(changed) == audit::row_message(rows[i]) {
        law_row_message_binds(changed, rows[i]);
        assert(false);
    }
    if audit::row_digest(changed) == changed.row_hash {
        assert(rows_collide(changed, rows[i]));
    } else {
        assert forall|j: int| 0 <= j < i implies #[trigger] audit::row_holds(t, j) by {
            assert(audit::row_holds(rows, j));
            assert(t[j] == rows[j]);
            if j > 0 {
                assert(t[j - 1] == rows[j - 1]);
            }
        }
        assert(t[i] == changed);
        assert(!audit::row_holds(t, i));
        assert(audit::breaks_at(t, i));
        audit::lemma_break_is_unique(t, i);
    }
}

/// Two intact chains of one length that end in the same hash are the same chain, unless two of
/// their rows collide.
pub proof fn law_last_hash_pins_chain(a: Seq<RowView>, b: Seq<RowView>)
    requires
        audit::chain_intact(a),
        audit::chain_intact(b),
        rows_fit(a),
        rows_fit(b),
        a.len() == b.len(),
        a.len() > 0 ==> a.last().row_hash == b.last().row_hash,
    ensures
        a == b || chains_collide(a, b),
    decreases a.len(),
{
    if a.len() == 0 {
        assert(a =~= b);
    } else {
        let n = a.len() - 1;
        assert(audit::row_holds(a, n));
        assert(audit::row_holds(b, n));
        if audit::row_message(a[n]) != audit::row_message(b[n]) {
            assert(rows_collide(a[n], b[n]));
        } else {
            assert(row_fits(a[n]) && row_fits(b[n]));
            law_row_message_binds(a[n], b[n]);
            assert(a[n] == b[n]);
            law_truncation_keeps_chain(a, n);
            law_truncation_keeps_chain(b, n);
            let a1 = a.take(n);
            let b1 = b.take(n);
            assert forall|i: int| 0 <= i < a1.len() implies row_fits(#[trigger] a1[i]) by {
                assert(a1[i] == a[i]);
            }
            assert forall|i: int| 0 <= i < b1.len() implies row_fits(#[trigger] b1[i]) by {
                assert(b1[i] == b[i]);
            }
            if n > 0 {
                assert(a1.last() == a[n - 1]);
                assert(b1.last() == b[n - 1]);
            }
            law_last_hash_pins_chain(a1, b1);
            if a1 == b1 {
                assert(a =~= a1.push(a[n]));
                assert(b =~= b1.push(b[n]));
            } else {
                let i = choose|i: int|
                    0 <= i < a1.len() && i < b1.len() && rows_collide(
                        #[trigger] a1[i],
                        #[trigger] b1[i],
                    );
                assert(rows_collide(a[i], b[i]));
            }
        }
    }
}

/// The anchor pins history: an intact chain in which the anchor over the end of `rows` is found has
/// all of `rows` at its start, unless there is a collision. Nothing at or before the anchored row
/// can be dropped or rewritten without notice.
pub proof fn law_anchor_pins_history(dek: Seq<u8>, rows: Seq<RowView>, other: Seq<RowView>)
    requires
        audit::chain_intact(rows),
        audit::chain_intact(other),
        rows_fit(rows),
        rows_fit(other),
        rows.len() > 0,
        audit::anchor_found(dek, other, audit::tail_mac(dek, rows)),
    ensures
        (other.len() >= rows.len() && other.take(rows.len() as int) == rows) || chains_collide(
            rows,
            other,
        ) || anchor_collides(dek, rows.last(), other),
{
    let n = rows.len() as int;
    assert(audit::row_holds(rows, n - 1));
    if other.len() > 0 {
        let i = choose|i: int|
            0 <= i < other.len() && audit::tail_mac(dek, rows) == audit::head_mac(
                dek,
                (#[trigger] other[i]).seq,
                other[i].row_hash,
            );
        assert(audit::row_holds(other, i));
        if rows.last().seq == other[i].seq && rows.last().row_hash == other[i].row_hash {
            assert(i == n - 1);
            let start = other.take(n);
            law_truncation_keeps_chain(other, n);
            assert forall|j: int| 0 <= j < start.len() implies row_fits(#[trigger] start[j]) by {
                assert(start[j] == other[j]);
            }
            assert(start.last() == other[i]);
            law_last_hash_pins_chain(rows, start);
            if rows != start {
                let k = choose|k: int|
                    0 <= k < rows.len() && k < start.len() && rows_collide(
                        #[trigger] rows[k],
                        #[trigger] start[k],
                    );
                assert(rows_collide(rows[k], other[k]));
            }
        } else {
            assert(anchors_collide(
                dek,
                rows.last().seq,
                rows.last().row_hash,
                other[i].seq,
                other[i].row_hash,
            ));
        }
    }
}

/// Cutting rows off the end of an anchored chain is found, unless the anchor collides with that of
/// another row, although the chain that is left is intact.
pub proof fn law_truncation_is_found(s: StoreView, dek: Seq<u8>, n: int)
    requires
        audit::chain_intact(s.audit),
        0 <= n < s.audit.len(),
        n <= usize::MAX,
        store::meta_value(s, model::audit_head_key()) == Some(
            codec::hex_text(audit::tail_mac(dek, s.audit)),
        ),
    ensures
        ({
            let cut = StoreView { audit: s.audit.take(n), ..s };
            &&& audit::first_break(cut.audit) is None
            &&& model::audit_fault(cut, dek) == Some(0i64) || anchor_collides(
                dek,
                s.audit.last(),
                cut.audit,
            )
        }),
{
    let cut = StoreView { audit: s.audit.take(n), ..s };
    law_truncation_keeps_chain(s.audit, n);
    lemma_anchor_rows(cut);
    codec::law_hex_round_trip(audit::tail_mac(dek, s.audit));
    assert(store::meta_value(cut, model::audit_head_key()) == store::meta_value(
        s,
        model::audit_head_key(),
    ));
    assert(audit::row_holds(s.audit, s.audit.len() - 1));
    if audit::anchor_found(dek, cut.audit, audit::tail_mac(dek, s.audit)) && n > 0 {
        let i = choose|i: int|
            0 <= i < cut.audit.len() && audit::tail_mac(dek, s.audit) == audit::head_mac(
                dek,
                (#[trigger] cut.audit[i]).seq,
                cut.audit[i].row_hash,
            );
        assert(audit::row_holds(s.audit, i));
        assert(cut.audit[i] == s.audit[i]);
        assert(anchors_collide(
            dek,
            s.audit.last().seq,
            s.audit.last().row_hash,
            cut.audit[i].seq,
            cut.audit[i].row_hash,
        ));
    }
}

/// The anchor guards the rows up to its own, and no others. Whatever becomes of the log while the
/// anchor stays: with those rows as they were and an intact chain there is no fault, be it that
/// rows were added behind them or cut off behind them; with one of them gone or rewritten there is,
/// unless there is a collision.
pub proof fn law_anchor_guards_its_rows(s: StoreView, dek: Seq<u8>, k: int, other: Seq<RowView>)
    requires
        audit::chain_intact(s.audit),
        rows_fit(s.audit),
        rows_fit(other),
        other.len() <= usize::MAX,
        0 < k <= s.audit.len(),
        store::meta_value(s, model::audit_head_key()) == Some(
            codec::hex_text(audit::tail_mac(dek, s.audit.take(k))),
        ),
    ensures
        ({
            let changed = StoreView { audit: other, ..s };
            let guarded = other.len() >= k && other.take(k) == s.audit.take(k);
            &&& guarded && audit::chain_intact(other) ==> model::audit_fault(changed, dek) is None
            &&& !guarded ==> model::audit_fault(changed, dek) is Some || chains_collide(
                s.audit.take(k),
                other,
            ) || anchor_collides(dek, s.audit[k - 1], other)
        }),
{
    let changed = StoreView { audit: other, ..s };
    let rows = s.audit.take(k);
    let mac = audit::tail_mac(dek, rows);
    law_truncation_keeps_chain(s.audit, k);
    codec::law_hex_round_trip(mac);
    assert(store::meta_value(changed, model::audit_head_key()) == Some(codec::hex_text(mac)));
    assert(rows.last() == s.audit[k - 1]);
    if audit::chain_intact(other) {
        lemma_anchor_rows(changed);
        if other.len() >= k && other.take(k) == rows {
            assert(other[k - 1] == other.take(k)[k - 1]);
        } else if audit::anchor_found(dek, other, mac) {
            assert forall|j: int| 0 <= j < rows.len() implies row_fits(#[trigger] rows[j]) by {
                assert(rows[j] == s.audit[j]);
            }
            law_anchor_pins_history(dek, rows, other);
        }
    }
}

/// All rows of an intact chain have a number above zero.
pub proof fn lemma_all_rows(rows: Seq<RowView>)
    requires
        audit::chain_intact(rows),
    ensures
        store::audit_since(rows, 0) == rows,
    decreases rows.len(),
{
    if rows.len() > 0 {
        let n = rows.len() - 1;
        law_truncation_keeps_chain(rows, n);
        assert(rows.take(n) =~= rows.drop_last());
        lemma_all_rows(rows.drop_last());
        assert(audit::row_holds(rows, n));
        assert(rows.drop_last().push(rows.last()) =~= rows);
    }
}

/// The anchor is looked for among all rows of an intact chain.
pub proof fn lemma_anchor_rows(s: StoreView)
    requires
        audit::chain_intact(s.audit),
        s.audit.len() <= usize::MAX,
    ensures
        model::anchor_rows(s) == s.audit,
{
    lemma_all_rows(s.audit);
}

/// An intact chain whose anchor stands at its end has no fault.
pub proof fn law_current_anchor_holds(s: StoreView, dek: Seq<u8>)
    requires
        audit::chain_intact(s.audit),
        s.audit.len() <= usize::MAX,
    ensures
        model::audit_fault(model::anchored(s, Some(dek)), dek) is None,
{
    let t = model::anchored(s, Some(dek));
    let mac = audit::tail_mac(dek, s.audit);
    assert(store::meta_value(t, model::audit_head_key()) == Some(codec::hex_text(mac)));
    codec::law_hex_round_trip(mac);
    lemma_anchor_rows(t);
    if s.audit.len() > 0 {
        assert(s.audit.last() == s.audit[s.audit.len() - 1]);
    }
}

} // verus!
