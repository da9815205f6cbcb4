//! What the canonical encodings of keyslots bind.
use vstd::prelude::*;
use crate::codec;
use crate::keyslot;
use crate::keyslot::{Kdf, SlotView};

verus! {

/// A slot whose fields have lengths that a vector can have.
pub open spec fn slot_fits(slot: SlotView) -> bool {
    &&& codec::fits(slot.salt)
    &&& codec::fits(slot.wrap_nonce)
    &&& codec::fits(slot.wrapped_dek)
    &&& slot.usb_partition_uuid matches Some(u) ==> codec::fits(vstd::utf8::encode_utf8(u))
    &&& codec::fits(keyslot::keyslot_aad_bytes(slot))
}

/// A slot without its label, which is for people and authenticates nothing.
pub open spec fn unlabelled(slot: SlotView) -> SlotView {
    SlotView { label: Seq::<char>::empty(), ..slot }
}

proof fn lemma_kdf_bytes_injective(a: Kdf, b: Kdf)
    requires
        keyslot::kdf_bytes(a) == keyslot::kdf_bytes(b),
    ensures
        a == b,
{
    assert(keyslot::kdf_bytes(a)[0] == keyslot::kdf_bytes(b)[0]);
    assert(a is Argon2id <==> keyslot::kdf_bytes(a)[0] == 1u8);
    assert(b is Argon2id <==> keyslot::kdf_bytes(b)[0] == 1u8);
    match (a, b) {
        (Kdf::Argon2id(p), Kdf::Argon2id(q)) => {
            codec::lemma_split(
                seq![1u8],
                codec::be32(p.m_kib) + (codec::be32(p.t_cost) + codec::be32(p.p_lanes)),
                seq![1u8],
                codec::be32(q.m_kib) + (codec::be32(q.t_cost) + codec::be32(q.p_lanes)),
            );
            codec::lemma_split(
                codec::be32(p.m_kib),
                codec::be32(p.t_cost) + codec::be32(p.p_lanes),
                codec::be32(q.m_kib),
                codec::be32(q.t_cost) + codec::be32(q.p_lanes),
            );
            codec::lemma_split(
                codec::be32(p.t_cost),
                codec::be32(p.p_lanes),
                codec::be32(q.t_cost),
                codec::be32(q.p_lanes),
            );
            codec::lemma_be32_injective(p.m_kib, q.m_kib);
            codec::lemma_be32_injective(p.t_cost, q.t_cost);
            codec::lemma_be32_injective(p.p_lanes, q.p_lanes);
        },
        _ => {},
    }
}

/// The associated data of a keyslot binds its id, its factor, its derivation with all parameters,
/// its salt, its partition and its key generation: a slot that differs in any of them has other
/// associated data.
pub proof fn law_keyslot_aad_binds(a: SlotView, b: SlotView)
    requires
        slot_fits(a),
        slot_fits(b),
        keyslot::keyslot_aad_bytes(a) == keyslot::keyslot_aad_bytes(b),
    ensures
        a.id == b.id,
        a.factor == b.factor,
        a.kdf == b.kdf,
        a.salt == b.salt,
        a.usb_partition_uuid == b.usb_partition_uuid,
        a.dek_generation == b.dek_generation,
{
    let g1 = codec::be_i64(a.dek_generation);
    let g2 = codec::be_i64(b.dek_generation);
    let u1 = codec::optional_text(a.usb_partition_uuid) + g1;
    let u2 = codec::optional_text(b.usb_partition_uuid) + g2;
    let s1 = codec::prefixed(a.salt) + u1;
    let s2 = codec::prefixed(b.salt) + u2;
    let k1 = keyslot::kdf_bytes(a.kdf) + s1;
    let k2 = keyslot::kdf_bytes(b.kdf) + s2;
    let f1 = seq![keyslot::factor_code(a.factor)] + k1;
    let f2 = seq![keyslot::factor_code(b.factor)] + k2;
    codec::lemma_split(codec::be_i64(a.id), f1, codec::be_i64(b.id), f2);
    codec::lemma_be_i64_injective(a.id, b.id);
    codec::lemma_split(
        seq![keyslot::factor_code(a.factor)],
        k1,
        seq![keyslot::factor_code(b.factor)],
        k2,
    );
    assert(seq![keyslot::factor_code(a.factor)][0] == seq![keyslot::factor_code(b.factor)][0]);
    codec::lemma_split(keyslot::kdf_bytes(a.kdf), s1, keyslot::kdf_bytes(b.kdf), s2);
    lemma_kdf_bytes_injective(a.kdf, b.kdf);
    codec::lemma_prefixed_split(a.salt, u1, b.salt, u2);
    codec::lemma_optional_text_split(a.usb_partition_uuid, g1, b.usb_partition_uuid, g2);
    codec::lemma_be_i64_injective(a.dek_generation, b.dek_generation);
}

proof fn lemma_slot_entry_split(a: SlotView, x: Seq<u8>, b: SlotView, y: Seq<u8>)
    requires
        slot_fits(a),
        slot_fits(b),
        keyslot::slot_entry(a) + x == keyslot::slot_entry(b) + y,
    ensures
        unlabelled(a) == unlabelled(b),
        x == y,
{
    let e1 = seq![if a.enabled { 1u8 } else { 0u8 }];
    let e2 = seq![if b.enabled { 1u8 } else { 0u8 }];
    let n1 = codec::prefixed(a.wrap_nonce);
    let n2 = codec::prefixed(b.wrap_nonce);
    let w1 = codec::prefixed(a.wrapped_dek);
    let w2 = codec::prefixed(b.wrapped_dek);
    codec::lemma_assoc(codec::prefixed(keyslot::keyslot_aad_bytes(a)), e1 + (n1 + w1), x);
    codec::lemma_assoc(codec::prefixed(keyslot::keyslot_aad_bytes(b)), e2 + (n2 + w2), y);
    codec::lemma_prefixed_split(
        keyslot::keyslot_aad_bytes(a),
        (e1 + (n1 + w1)) + x,
        keyslot::keyslot_aad_bytes(b),
        (e2 + (n2 + w2)) + y,
    );
    law_keyslot_aad_binds(a, b);
    codec::lemma_assoc(e1, n1 + w1, x);
    codec::lemma_assoc(e2, n2 + w2, y);
    codec::lemma_split(e1, (n1 + w1) + x, e2, (n2 + w2) + y);
    assert(e1[0] == e2[0]);
    codec::lemma_assoc(n1, w1, x);
    codec::lemma_assoc(n2, w2, y);
    codec::lemma_prefixed_split(a.wrap_nonce, w1 + x, b.wrap_nonce, w2 + y);
    codec::lemma_prefixed_split(a.wrapped_dek, x, b.wrapped_dek, y);
}

proof fn lemma_entries_from_front(slots: Seq<SlotView>)
    requires
        slots.len() > 0,
    ensures
        keyslot::slot_entries(slots) == keyslot::slot_entry(slots[0]) + keyslot::slot_entries(
            slots.drop_first(),
        ),
    decreases slots.len(),
{
    if slots.len() == 1 {
        assert(slots.drop_last() =~= Seq::<SlotView>::empty());
        assert(slots.drop_first() =~= Seq::<SlotView>::empty());
        assert(keyslot::slot_entries(slots.drop_last()) =~= Seq::<u8>::empty());
        assert(keyslot::slot_entries(slots) =~= keyslot::slot_entry(slots[0]));
        assert(keyslot::slot_entry(slots[0]) + keyslot::slot_entries(slots.drop_first())
            =~= keyslot::slot_entry(slots[0]));
    } else {
        lemma_entries_from_front(slots.drop_last());
        assert(slots.drop_last().drop_first() =~= slots.drop_first().drop_last());
        codec::lemma_assoc(
            keyslot::slot_entry(slots[0]),
            keyslot::slot_entries(slots.drop_first().drop_last()),
            keyslot::slot_entry(slots.last()),
        );
    }
}

proof fn lemma_entries_bind(a: Seq<SlotView>, b: Seq<SlotView>)
    requires
        a.len() == b.len(),
        forall|i: int| 0 <= i < a.len() ==> slot_fits(#[trigger] a[i]),
        forall|i: int| 0 <= i < b.len() ==> slot_fits(#[trigger] b[i]),
        keyslot::slot_entries(a) == keyslot::slot_entries(b),
    ensures
        forall|i: int| 0 <= i < a.len() ==> unlabelled(#[trigger] a[i]) == unlabelled(b[i]),
    decreases a.len(),
{
    if a.len() > 0 {
        lemma_entries_from_front(a);
        lemma_entries_from_front(b);
        let x = a.drop_first();
        let y = b.drop_first();
        lemma_slot_entry_split(a[0], keyslot::slot_entries(x), b[0], keyslot::slot_entries(y));
        lemma_entries_bind(x, y);
        assert forall|i: int| 0 <= i < a.len() implies unlabelled(#[trigger] a[i]) == unlabelled(
            b[i],
        ) by {
            if i > 0 {
                assert(a[i] == x[i - 1]);
                assert(b[i] == y[i - 1]);
            }
        }
    }
}

/// Ordering by id keeps the slots.
proof fn lemma_insert_keeps(sorted: Seq<SlotView>, slot: SlotView)
    ensures
        keyslot::insert_by_id(sorted, slot).len() == sorted.len() + 1,
        keyslot::insert_by_id(sorted, slot).to_multiset() == sorted.to_multiset().insert(slot),
    decreases sorted.len(),
{
    broadcast use vstd::seq_lib::group_to_multiset_ensures;

    if sorted.len() == 0 || sorted.last().id <= slot.id {
    } else {
        lemma_insert_keeps(sorted.drop_last(), slot);
        assert(sorted =~= sorted.drop_last().push(sorted.last()));
        assert(keyslot::insert_by_id(sorted, slot).to_multiset()
            =~= sorted.to_multiset().insert(slot));
    }
}

/// Ordering by id keeps the slots.
pub proof fn lemma_by_id_keeps(slots: Seq<SlotView>)
    ensures
        keyslot::by_id(slots).len() == slots.len(),
        keyslot::by_id(slots).to_multiset() == slots.to_multiset(),
    decreases slots.len(),
{
    broadcast use vstd::seq_lib::group_to_multiset_ensures;

    if slots.len() > 0 {
        lemma_by_id_keeps(slots.drop_last());
        lemma_insert_keeps(keyslot::by_id(slots.drop_last()), slots.last());
        assert(slots =~= slots.drop_last().push(slots.last()));
    }
}

/// Whether ids never decrease.
pub open spec fn ascending(slots: Seq<SlotView>) -> bool {
    forall|i: int, j: int| 0 <= i <= j < slots.len() ==> (#[trigger] slots[i]).id <= (
    #[trigger] slots[j]).id
}

proof fn lemma_insert_ascends(sorted: Seq<SlotView>, slot: SlotView)
    requires
        ascending(sorted),
    ensures
        ascending(keyslot::insert_by_id(sorted, slot)),
        forall|top: i64|
            #![trigger ids_up_to(sorted, top)]
            ids_up_to(sorted, top) && slot.id <= top ==> ids_up_to(
                keyslot::insert_by_id(sorted, slot),
                top,
            ),
    decreases sorted.len(),
{
    if sorted.len() == 0 || sorted.last().id <= slot.id {
        let out = keyslot::insert_by_id(sorted, slot);
        assert forall|i: int, j: int| 0 <= i <= j < out.len() implies (#[trigger] out[i]).id <= (
        #[trigger] out[j]).id by {
            if i < sorted.len() {
                assert(sorted[i].id <= sorted.last().id);
            }
        }
        assert forall|top: i64|
            #![trigger ids_up_to(sorted, top)]
            ids_up_to(sorted, top) && slot.id <= top implies ids_up_to(out, top) by {
            assert forall|i: int| 0 <= i < out.len() implies (#[trigger] out[i]).id <= top by {
                if i < sorted.len() {
                    assert(out[i] == sorted[i]);
                }
            }
        }
    } else {
        let shorter = sorted.drop_last();
        let inner = keyslot::insert_by_id(shorter, slot);
        let out = keyslot::insert_by_id(sorted, slot);
        lemma_insert_ascends(shorter, slot);
        assert forall|i: int| 0 <= i < shorter.len() implies (#[trigger] shorter[i]).id
            <= sorted.last().id by {
            assert(shorter[i] == sorted[i]);
        }
        assert(ids_up_to(shorter, sorted.last().id));
        assert(ids_up_to(inner, sorted.last().id));
        assert forall|i: int, j: int| 0 <= i <= j < out.len() implies (#[trigger] out[i]).id <= (
        #[trigger] out[j]).id by {
            if j < inner.len() {
                assert(out[i] == inner[i] && out[j] == inner[j]);
            } else if i < inner.len() {
                assert(out[i] == inner[i]);
            }
        }
        assert forall|top: i64|
            #![trigger ids_up_to(sorted, top)]
            ids_up_to(sorted, top) && slot.id <= top implies ids_up_to(out, top) by {
            assert(sorted[sorted.len() - 1].id <= top);
            assert forall|i: int| 0 <= i < shorter.len() implies (#[trigger] shorter[i]).id
                <= top by {
                assert(shorter[i] == sorted[i]);
            }
            assert(ids_up_to(shorter, top));
            assert(ids_up_to(inner, top));
            assert forall|i: int| 0 <= i < out.len() implies (#[trigger] out[i]).id <= top by {
                if i < inner.len() {
                    assert(out[i] == inner[i]);
                }
            }
        }
    }
}

/// Whether no id is above `top`.
pub open spec fn ids_up_to(slots: Seq<SlotView>, top: i64) -> bool {
    forall|i: int| 0 <= i < slots.len() ==> (#[trigger] slots[i]).id <= top
}

proof fn lemma_by_id_ascends(slots: Seq<SlotView>)
    ensures
        ascending(keyslot::by_id(slots)),
    decreases slots.len(),
{
    if slots.len() > 0 {
        lemma_by_id_ascends(slots.drop_last());
        lemma_insert_ascends(keyslot::by_id(slots.drop_last()), slots.last());
    }
}

/// Whether no two slots share an id.
pub open spec fn distinct_ids(slots: Seq<SlotView>) -> bool {
    forall|i: int, j: int|
        0 <= i < j < slots.len() ==> (#[trigger] slots[i]).id != (#[trigger] slots[j]).id
}

proof fn lemma_ascending_unique(a: Seq<SlotView>, b: Seq<SlotView>)
    requires
        ascending(a),
        ascending(b),
        a.to_multiset() == b.to_multiset(),
        forall|x: SlotView, y: SlotView|
            a.contains(x) && a.contains(y) && x.id == y.id ==> x == y,
    ensures
        a == b,
    decreases a.len(),
{
    broadcast use vstd::seq_lib::group_to_multiset_ensures;

    a.to_multiset_ensures();
    b.to_multiset_ensures();
    if a.len() == 0 {
        assert(b.len() == 0);
        assert(a =~= b);
    } else {
        assert(b.len() > 0);
        let x = a.last();
        let y = b.last();
        assert(a.contains(x));
        assert(b.contains(y));
        assert(b.to_multiset().count(x) > 0);
        assert(b.contains(x));
        assert(a.to_multiset().count(y) > 0);
        assert(a.contains(y));
        let i = choose|i: int| 0 <= i < b.len() && b[i] == x;
        let j = choose|j: int| 0 <= j < a.len() && a[j] == y;
        assert(b[i].id <= b[b.len() - 1].id);
        assert(a[j].id <= a[a.len() - 1].id);
        assert(x == y);
        let a1 = a.drop_last();
        let b1 = b.drop_last();
        assert(a =~= a1.push(x));
        assert(b =~= b1.push(y));
        a1.to_multiset_ensures();
        b1.to_multiset_ensures();
        assert(a1.to_multiset() =~= a.to_multiset().remove(x));
        assert(b1.to_multiset() =~= b.to_multiset().remove(x));
        assert forall|p: SlotView, q: SlotView|
            a1.contains(p) && a1.contains(q) && p.id == q.id implies p == q by {
            let m = choose|m: int| 0 <= m < a1.len() && a1[m] == p;
            let n = choose|n: int| 0 <= n < a1.len() && a1[n] == q;
            assert(a[m] == p && a[n] == q);
            assert(a.contains(p) && a.contains(q));
        }
        assert forall|m: int, n: int| 0 <= m <= n < a1.len() implies (#[trigger] a1[m]).id <= (
        #[trigger] a1[n]).id by {
            assert(a1[m] == a[m] && a1[n] == a[n]);
        }
        assert forall|m: int, n: int| 0 <= m <= n < b1.len() implies (#[trigger] b1[m]).id <= (
        #[trigger] b1[n]).id by {
            assert(b1[m] == b[m] && b1[n] == b[n]);
        }
        lemma_ascending_unique(a1, b1);
    }
}

/// The header MAC is over the set of keyslots: the order in which a store hands them out does not
/// matter.
pub proof fn law_header_mac_ignores_order(
    dek: Seq<u8>,
    a: Seq<SlotView>,
    b: Seq<SlotView>,
    issuance_floor_ms: i64,
)
    requires
        a.to_multiset() == b.to_multiset(),
        distinct_ids(a),
    ensures
        keyslot::header_mac_bytes(dek, a, issuance_floor_ms) == keyslot::header_mac_bytes(
            dek,
            b,
            issuance_floor_ms,
        ),
{
    broadcast use vstd::seq_lib::group_to_multiset_ensures;

    a.to_multiset_ensures();
    b.to_multiset_ensures();
    lemma_by_id_keeps(a);
    lemma_by_id_keeps(b);
    lemma_by_id_ascends(a);
    lemma_by_id_ascends(b);
    let s = keyslot::by_id(a);
    s.to_multiset_ensures();
    assert forall|x: SlotView, y: SlotView|
        s.contains(x) && s.contains(y) && x.id == y.id implies x == y by {
        assert(s.to_multiset().count(x) > 0);
        assert(s.to_multiset().count(y) > 0);
        assert(a.contains(x));
        assert(a.contains(y));
        let m = choose|m: int| 0 <= m < a.len() && a[m] == x;
        let n = choose|n: int| 0 <= n < a.len() && a[n] == y;
        if m < n {
            assert(a[m].id != a[n].id);
        } else if n < m {
            assert(a[n].id != a[m].id);
        }
    }
    lemma_ascending_unique(s, keyslot::by_id(b));
}

/// What is under the header MAC determines the issuance floor and every keyslot but for its label:
/// tampering with the slot set, the wrapped keys or the floor changes the authenticated message.
pub proof fn law_header_message_binds(
    a: Seq<SlotView>,
    floor_a: i64,
    b: Seq<SlotView>,
    floor_b: i64,
)
    requires
        a.len() <= u64::MAX,
        b.len() <= u64::MAX,
        forall|i: int| 0 <= i < a.len() ==> slot_fits(#[trigger] a[i]),
        forall|i: int| 0 <= i < b.len() ==> slot_fits(#[trigger] b[i]),
        keyslot::header_message(a, floor_a) == keyslot::header_message(b, floor_b),
    ensures
        floor_a == floor_b,
        a.len() == b.len(),
        forall|i: int|
            0 <= i < a.len() ==> unlabelled(#[trigger] keyslot::by_id(a)[i]) == unlabelled(
                keyslot::by_id(b)[i],
            ),
{
    broadcast use vstd::seq_lib::group_to_multiset_ensures;

    let domain = vstd::utf8::encode_utf8("env-ctl/v1/header-mac"@);
    let ea = keyslot::slot_entries(keyslot::by_id(a));
    let eb = keyslot::slot_entries(keyslot::by_id(b));
    let na = codec::be64(a.len() as u64);
    let nb = codec::be64(b.len() as u64);
    codec::lemma_split(
        domain,
        codec::be_i64(floor_a) + (na + ea),
        domain,
        codec::be_i64(floor_b) + (nb + eb),
    );
    codec::lemma_split(codec::be_i64(floor_a), na + ea, codec::be_i64(floor_b), nb + eb);
    codec::lemma_split(na, ea, nb, eb);
    codec::lemma_be_i64_injective(floor_a, floor_b);
    codec::lemma_be64_injective(a.len() as u64, b.len() as u64);
    lemma_by_id_keeps(a);
    lemma_by_id_keeps(b);
    lemma_sorted_slots_fit(a);
    lemma_sorted_slots_fit(b);
    lemma_entries_bind(keyslot::by_id(a), keyslot::by_id(b));
}

proof fn lemma_sorted_slots_fit(a: Seq<SlotView>)
    requires
        forall|i: int| 0 <= i < a.len() ==> slot_fits(#[trigger] a[i]),
    ensures
        forall|i: int|
            0 <= i < keyslot::by_id(a).len() ==> slot_fits(#[trigger] keyslot::by_id(a)[i]),
{
    lemma_by_id_keeps(a);
    let s = keyslot::by_id(a);
    a.to_multiset_ensures();
    s.to_multiset_ensures();
    assert forall|i: int| 0 <= i < s.len() implies slot_fits(#[trigger] s[i]) by {
        assert(s.contains(s[i]));
        assert(s.to_multiset().count(s[i]) > 0);
        assert(a.contains(s[i]));
        let k = choose|k: int| 0 <= k < a.len() && a[k] == s[i];
        assert(slot_fits(a[k]));
    }
}

} // verus!
