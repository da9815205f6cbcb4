//! What a store gives back of what it was given.
use vstd::prelude::*;
use crate::codec;
use crate::error::StoreError;
use crate::event;
use crate::event::{AuditRecord, RowView};
use crate::keyslot;
use crate::keyslot::{Keyslot, SlotView};
use crate::laws;
use crate::vault::audit;
use crate::vault::mem::InMemStore;
use crate::vault::store;
use crate::vault::store::{SecretRow, SecretView, Store, StoreCall, StoreView};

verus! {

/// A metadata key that was set is read back with its value, and every other key as before.
pub proof fn law_metadata_comes_back<S: Store>(
    a: &mut S,
    k: &str,
    v: &str,
    b: &S,
    other: &str,
    read: Option<String>,
    earlier: Option<String>,
    first: &S,
)
    requires
        call_ensures(S::put_meta, (a, k, v), Ok::<(), StoreError>(())),
        b.state() == final(a).state(),
        first.state() == old(a).state(),
        call_ensures(S::get_meta, (b, other), Ok::<Option<String>, StoreError>(read)),
        call_ensures(S::get_meta, (first, other), Ok::<Option<String>, StoreError>(earlier)),
    ensures
        other@ == k@ ==> (read matches Some(text) && text@ == v@),
        other@ != k@ ==> codec::text_view(read) == codec::text_view(earlier),
{
}

/// Whether a row is the last one of a name.
pub open spec fn last_of(secrets: Seq<SecretView>, name: Seq<char>, i: int) -> bool {
    &&& 0 <= i < secrets.len()
    &&& secrets[i].name == name
    &&& forall|j: int| i < j < secrets.len() ==> (#[trigger] secrets[j]).name != name
}

pub proof fn lemma_latest_is_last(secrets: Seq<SecretView>, name: Seq<char>)
    ensures
        match store::latest(secrets, name) {
            Some(row) => exists|i: int| #[trigger] last_of(secrets, name, i) && secrets[i] == row,
            None => forall|i: int|
                0 <= i < secrets.len() ==> (#[trigger] secrets[i]).name != name,
        },
        forall|i: int| #[trigger]
            last_of(secrets, name, i) ==> store::latest(secrets, name) == Some(secrets[i]),
    decreases secrets.len(),
{
    if secrets.len() > 0 {
        let n = secrets.len() - 1;
        let rest = secrets.drop_last();
        if secrets.last().name == name {
            assert(last_of(secrets, name, n));
            assert forall|i: int| #[trigger] last_of(secrets, name, i) implies i == n by {
                if i < n {
                    assert(secrets[n].name != name);
                }
            }
        } else {
            lemma_latest_is_last(rest, name);
            match store::latest(rest, name) {
                Some(row) => {
                    let i = choose|i: int| #[trigger] last_of(rest, name, i) && rest[i] == row;
                    assert forall|j: int| i < j < secrets.len() implies (
                    #[trigger] secrets[j]).name != name by {
                        if j < n {
                            assert(rest[j] == secrets[j]);
                        }
                    }
                    assert(secrets[i] == rest[i]);
                    assert(last_of(secrets, name, i));
                },
                None => {
                    assert forall|i: int| 0 <= i < secrets.len() implies (
                    #[trigger] secrets[i]).name != name by {
                        if i < n {
                            assert(rest[i] == secrets[i]);
                        }
                    }
                },
            }
            assert forall|i: int| #[trigger] last_of(secrets, name, i) implies store::latest(
                secrets,
                name,
            ) == Some(secrets[i]) by {
                assert(secrets[i] == rest[i]);
                assert forall|j: int| i < j < rest.len() implies (
                #[trigger] rest[j]).name != name by {
                    assert(rest[j] == secrets[j]);
                }
                assert(last_of(rest, name, i));
            }
        }
    }
}

/// The version that a name is read in is the one that was written last under that very name, and
/// its number is the one that is reported.
pub proof fn law_latest_is_what_was_written_last<S: Store>(
    s: &S,
    name: &str,
    row: Option<SecretRow>,
    version: u32,
)
    requires
        call_ensures(S::get_secret_latest, (s, name), Ok::<Option<SecretRow>, StoreError>(row)),
        call_ensures(S::max_secret_version, (s, name), Ok::<u32, StoreError>(version)),
    ensures
        match row {
            Some(r) => {
                &&& exists|i: int| #[trigger]
                    last_of(s.state().secrets, name@, i) && s.state().secrets[i] == r@
                &&& version == r.version
            },
            None => {
                &&& forall|i: int|
                    0 <= i < s.state().secrets.len() ==> (
                    #[trigger] s.state().secrets[i]).name != name@
                &&& version == 0
            },
        },
{
    lemma_latest_is_last(s.state().secrets, name@);
    assert(row is Some ==> row.unwrap().version == row.unwrap()@.version);
}

pub proof fn lemma_at_version_is_there(secrets: Seq<SecretView>, name: Seq<char>, version: u32)
    ensures
        match store::at_version(secrets, name, version) {
            Some(row) => row.name == name && row.version == version && secrets.contains(row),
            None => forall|i: int|
                0 <= i < secrets.len() ==> (#[trigger] secrets[i]).name != name
                    || secrets[i].version != version,
        },
    decreases secrets.len(),
{
    if secrets.len() > 0 {
        let n = secrets.len() - 1;
        let rest = secrets.drop_last();
        if secrets.last().name == name && secrets.last().version == version {
            assert(secrets[n] == secrets.last());
        } else {
            lemma_at_version_is_there(rest, name, version);
            match store::at_version(rest, name, version) {
                Some(row) => {
                    let i = choose|i: int| 0 <= i < rest.len() && rest[i] == row;
                    assert(secrets[i] == row);
                },
                None => {
                    assert forall|i: int| 0 <= i < secrets.len() implies (
                    #[trigger] secrets[i]).name != name || secrets[i].version != version by {
                        if i < n {
                            assert(rest[i] == secrets[i]);
                        }
                    }
                },
            }
        }
    }
}

/// A version that is asked for is a row of that very name and version, and is missing only where
/// there is none.
pub proof fn law_version_is_the_one_asked_for<S: Store>(
    s: &S,
    name: &str,
    version: u32,
    row: Option<SecretRow>,
)
    requires
        call_ensures(
            S::get_secret_version,
            (s, name, version),
            Ok::<Option<SecretRow>, StoreError>(row),
        ),
    ensures
        match row {
            Some(r) => r.name@ == name@ && r.version == version && s.state().secrets.contains(r@),
            None => forall|i: int|
                0 <= i < s.state().secrets.len() ==> (#[trigger] s.state().secrets[i]).name != name@
                    || s.state().secrets[i].version != version,
        },
{
    lemma_at_version_is_there(s.state().secrets, name@, version);
    if row is Some {
        assert(row.unwrap().name@ == row.unwrap()@.name);
        assert(row.unwrap().version == row.unwrap()@.version);
    }
}

/// Names are listed once each, in the order in which they were first written.
pub proof fn law_names_are_listed_once(secrets: Seq<SecretView>, row: SecretView)
    ensures
        ({
            let names = store::names_of(secrets);
            let more = store::names_of(secrets.push(row));
            &&& names.no_duplicates()
            &&& forall|i: int|
                0 <= i < secrets.len() ==> names.contains((#[trigger] secrets[i]).name)
            &&& forall|j: int|
                0 <= j < names.len() ==> exists|i: int|
                    0 <= i < secrets.len() && (#[trigger] secrets[i]).name == #[trigger] names[j]
            &&& more.len() >= names.len()
            &&& more.take(names.len() as int) == names
            &&& more.len() <= names.len() + 1
        }),
    decreases secrets.len(),
{
    let names = store::names_of(secrets);
    let more = store::names_of(secrets.push(row));
    assert(secrets.push(row).drop_last() =~= secrets);
    assert(more.take(names.len() as int) =~= names);
    if secrets.len() > 0 {
        let rest = secrets.drop_last();
        let last = secrets.last();
        let fewer = store::names_of(rest);
        law_names_are_listed_once(rest, last);
        assert forall|i: int| 0 <= i < secrets.len() implies names.contains(
            (#[trigger] secrets[i]).name,
        ) by {
            if i < rest.len() {
                assert(rest[i] == secrets[i]);
                assert(fewer.contains(rest[i].name));
                let k = choose|k: int| 0 <= k < fewer.len() && fewer[k] == rest[i].name;
                assert(names[k] == fewer[k]);
            } else if !fewer.contains(last.name) {
                assert(names[fewer.len() as int] == last.name);
            }
        }
        assert forall|j: int| 0 <= j < names.len() implies exists|i: int|
            0 <= i < secrets.len() && (#[trigger] secrets[i]).name == #[trigger] names[j] by {
            if j < fewer.len() {
                assert(names[j] == fewer[j]);
                let i = choose|i: int|
                    0 <= i < rest.len() && (#[trigger] rest[i]).name == fewer[j];
                assert(secrets[i] == rest[i]);
            } else {
                assert(secrets[secrets.len() - 1].name == names[j]);
            }
        }
    }
}

/// The names that are listed are those of the rows.
pub proof fn law_listed_names_are_those_of_the_rows<S: Store>(s: &S, names: Vec<String>)
    requires
        call_ensures(S::list_secret_names, (s,), Ok::<Vec<String>, StoreError>(names)),
    ensures
        forall|i: int|
            0 <= i < s.state().secrets.len() ==> exists|j: int|
                0 <= j < names@.len() && (#[trigger] names@[j])@ == (
                #[trigger] s.state().secrets[i]).name,
        forall|j: int|
            0 <= j < names@.len() ==> exists|i: int|
                0 <= i < s.state().secrets.len() && (#[trigger] s.state().secrets[i]).name == (
                #[trigger] names@[j])@,
        forall|a: int, b: int|
            0 <= a < b < names@.len() ==> (#[trigger] names@[a])@ != (#[trigger] names@[b])@,
{
    let secrets = s.state().secrets;
    let views = crate::broker::policy::texts(names@);
    law_names_are_listed_once(secrets, arbitrary());
    assert forall|i: int| 0 <= i < secrets.len() implies exists|j: int|
        0 <= j < names@.len() && (#[trigger] names@[j])@ == (#[trigger] secrets[i]).name by {
        assert(views.contains(secrets[i].name));
        let j = choose|j: int| 0 <= j < views.len() && views[j] == secrets[i].name;
        assert(names@[j]@ == views[j]);
    }
    assert forall|j: int| 0 <= j < names@.len() implies exists|i: int|
        0 <= i < secrets.len() && (#[trigger] secrets[i]).name == (#[trigger] names@[j])@ by {
        assert(views[j] == names@[j]@);
    }
    assert forall|a: int, b: int| 0 <= a < b < names@.len() implies (#[trigger] names@[a])@ != (
    #[trigger] names@[b])@ by {
        assert(views[a] != views[b]);
    }
}

/// The versions of a name are listed row by row: none to start with, one more for every row of that
/// name, and none for a row of another.
pub proof fn law_versions_are_listed_row_by_row(
    secrets: Seq<SecretView>,
    row: SecretView,
    name: Seq<char>,
)
    ensures
        store::versions_of(Seq::<SecretView>::empty(), name).len() == 0,
        ({
            let versions = store::versions_of(secrets, name);
            let more = store::versions_of(secrets.push(row), name);
            if row.name == name {
                more == versions + seq![row.version]
            } else {
                more == versions
            }
        }),
{
    assert(secrets.push(row).drop_last() =~= secrets);
    let versions = store::versions_of(secrets, name);
    if row.name == name {
        assert(versions.push(row.version) =~= versions + seq![row.version]);
    }
}

/// A slot that was saved is there in every field; slots with other ids stay where they are; and a
/// slot replaces the one with its id, or comes last.
pub proof fn law_saved_slot_is_there<S: Store>(a: &mut S, slot: &Keyslot)
    requires
        call_ensures(S::save_keyslot, (a, slot), Ok::<(), StoreError>(())),
    ensures
        ({
            let before = old(a).state().slots;
            let after = final(a).state().slots;
            &&& after.len() >= before.len()
            &&& forall|i: int|
                0 <= i < before.len() ==> #[trigger] after[i] == if before[i].id == slot.id {
                    slot@
                } else {
                    before[i]
                }
            &&& (forall|i: int| 0 <= i < before.len() ==> (#[trigger] before[i]).id != slot.id)
                ==> after.len() == before.len() + 1 && after[before.len() as int] == slot@
            &&& (exists|i: int| 0 <= i < before.len() && (#[trigger] before[i]).id == slot.id)
                ==> after.len() == before.len()
        }),
        final(a).state().meta == old(a).state().meta,
        final(a).state().secrets == old(a).state().secrets,
        final(a).state().audit == old(a).state().audit,
        final(a).state().next_row_id == old(a).state().next_row_id,
{
    let before = old(a).state().slots;
    assert(slot@.id == slot.id);
}

/// All slots are given back, each in every field and in place.
pub proof fn law_slots_come_back<S: Store>(s: &S, slots: Vec<Keyslot>)
    requires
        call_ensures(S::load_keyslots, (s,), Ok::<Vec<Keyslot>, StoreError>(slots)),
    ensures
        slots@.len() == s.state().slots.len(),
        forall|i: int| 0 <= i < slots@.len() ==> (#[trigger] slots@[i])@ == s.state().slots[i],
{
    assert forall|i: int| 0 <= i < slots@.len() implies (#[trigger] slots@[i])@
        == s.state().slots[i] by {
        assert(keyslot::slot_views(slots@)[i] == slots@[i]@);
    }
    assert(keyslot::slot_views(slots@).len() == slots@.len());
}

pub proof fn lemma_slot_with_id(slots: Seq<SlotView>, id: i64)
    ensures
        match store::slot_with_id(slots, id) {
            Some(s) => s.id == id && slots.contains(s),
            None => forall|i: int| 0 <= i < slots.len() ==> (#[trigger] slots[i]).id != id,
        },
    decreases slots.len(),
{
    if slots.len() > 0 {
        if slots[0].id != id {
            let rest = slots.drop_first();
            lemma_slot_with_id(rest, id);
            match store::slot_with_id(rest, id) {
                Some(s) => {
                    let i = choose|i: int| 0 <= i < rest.len() && rest[i] == s;
                    assert(slots[i + 1] == s);
                },
                None => {
                    assert forall|i: int| 0 <= i < slots.len() implies (
                    #[trigger] slots[i]).id != id by {
                        if i > 0 {
                            assert(rest[i - 1] == slots[i]);
                        }
                    }
                },
            }
        }
    }
}

/// A slot is found by its id, and missing only where none has it.
pub proof fn law_slot_is_found_by_its_id<S: Store>(s: &S, id: i64, slot: Option<Keyslot>)
    requires
        call_ensures(S::load_keyslot, (s, id), Ok::<Option<Keyslot>, StoreError>(slot)),
    ensures
        match slot {
            Some(k) => k.id == id && s.state().slots.contains(k@),
            None => forall|i: int|
                0 <= i < s.state().slots.len() ==> (#[trigger] s.state().slots[i]).id != id,
        },
{
    lemma_slot_with_id(s.state().slots, id);
    if slot is Some {
        assert(slot.unwrap().id == slot.unwrap()@.id);
    }
}

/// Row ids are handed out one by one, each above all that are in use, and nothing else changes.
pub proof fn law_row_ids_are_handed_out_once<S: Store>(
    a: &mut S,
    b: &mut S,
    first: i64,
    second: i64,
)
    requires
        call_ensures(S::reserve_secret_row_id, (a,), Ok::<i64, StoreError>(first)),
        call_ensures(S::reserve_secret_row_id, (b,), Ok::<i64, StoreError>(second)),
        old(b).state() == final(a).state(),
    ensures
        first >= 1,
        second == first + 1,
        forall|i: int|
            0 <= i < old(a).state().secrets.len() ==> (
            #[trigger] old(a).state().secrets[i]).row_id != first,
        final(a).state().secrets == old(a).state().secrets,
        final(a).state().meta == old(a).state().meta,
        final(a).state().slots == old(a).state().slots,
        final(a).state().audit == old(a).state().audit,
{
}

/// A version is taken exactly where its row id was handed out and is free, and its number is above
/// the last one of its name. It is then there in every field, behind all the others.
pub proof fn law_put_is_taken_or_rejected(
    a: &mut InMemStore,
    row: SecretRow,
    id: Result<i64, StoreError>,
)
    requires
        call_ensures(InMemStore::put_secret, (a, row), id),
    ensures
        ({
            let s = old(a).state();
            let t = final(a).state();
            let handed_out = 1 <= row.row_id < s.next_row_id;
            let free = forall|i: int|
                0 <= i < s.secrets.len() ==> (#[trigger] s.secrets[i]).row_id != row.row_id;
            let above = match store::latest(s.secrets, row.name@) {
                Some(r) => row.version > r.version,
                None => row.version > 0,
            };
            &&& id is Ok <==> handed_out && free && above
            &&& !handed_out ==> id == Err::<i64, StoreError>(
                StoreError::UnreservedRowId(row.row_id),
            )
            &&& handed_out && !free ==> id == Err::<i64, StoreError>(
                StoreError::RowIdCollision(row.row_id),
            )
            &&& handed_out && free && !above ==> id == Err::<i64, StoreError>(
                StoreError::VersionNotMonotonic(row.version),
            )
            &&& id is Err ==> t == s
            &&& id matches Ok(n) ==> {
                &&& n == row.row_id
                &&& t.secrets.len() == s.secrets.len() + 1
                &&& t.secrets.last() == row@
                &&& forall|i: int|
                    0 <= i < s.secrets.len() ==> #[trigger] t.secrets[i] == s.secrets[i]
                &&& t.meta == s.meta && t.slots == s.slots && t.audit == s.audit && t.next_row_id
                    == s.next_row_id
            }
        }),
{
    assert(row@.row_id == row.row_id);
    assert(row@.version == row.version);
    assert(row@.name == row.name@);
}

/// An audit row is appended with the next number, linked to the row before it, with all that it
/// says.
pub proof fn law_append_adds_one_standing_row<S: Store>(a: &mut S, rec: &AuditRecord, seq: i64)
    requires
        call_ensures(S::append_audit, (a, rec), Ok::<i64, StoreError>(seq)),
        old(a).state().audit.len() < i64::MAX,
    ensures
        ({
            let s = old(a).state();
            let t = final(a).state();
            let n = s.audit.len() as int;
            &&& seq == n + 1
            &&& t.audit.len() == n + 1
            &&& forall|i: int| 0 <= i < n ==> #[trigger] t.audit[i] == s.audit[i]
            &&& laws::logging::stands(t.audit, n)
            &&& t.audit[n].ts == rec.ts@
            &&& t.audit[n].actor_uid == rec.actor_uid
            &&& t.audit[n].event_type == rec.event_type@
            &&& t.audit[n].subject == codec::text_view(rec.subject)
            &&& t.audit[n].detail == rec.detail
            &&& t.audit[n].outcome == rec.outcome
            &&& t.meta == s.meta && t.slots == s.slots && t.secrets == s.secrets && t.next_row_id
                == s.next_row_id
        }),
{
    let n = old(a).state().audit.len() as int;
    assert(rec@.ts == rec.ts@);
    assert(rec@.event_type == rec.event_type@);
    assert(rec@.subject == codec::text_view(rec.subject));
}

pub proof fn lemma_rows_since(rows: Seq<RowView>, since: i64)
    requires
        audit::chain_intact(rows),
        0 <= since <= rows.len(),
    ensures
        store::audit_since(rows, since) == rows.skip(since as int),
    decreases rows.len(),
{
    if rows.len() > 0 {
        let n = rows.len() - 1;
        let rest = rows.drop_last();
        laws::audit::law_truncation_keeps_chain(rows, n);
        assert(rows.take(n) =~= rest);
        assert(audit::row_holds(rows, n));
        if since <= n {
            lemma_rows_since(rest, since);
            assert(rest.skip(since as int).push(rows.last()) =~= rows.skip(since as int));
        } else {
            lemma_rows_since(rest, n as i64);
            lemma_none_above(rest, since);
            assert(rows.skip(since as int) =~= Seq::<RowView>::empty());
        }
    } else {
        assert(rows.skip(0) =~= rows);
    }
}

proof fn lemma_none_above(rows: Seq<RowView>, since: i64)
    requires
        audit::chain_intact(rows),
        since >= rows.len(),
    ensures
        store::audit_since(rows, since).len() == 0,
    decreases rows.len(),
{
    if rows.len() > 0 {
        let n = rows.len() - 1;
        laws::audit::law_truncation_keeps_chain(rows, n);
        assert(rows.take(n) =~= rows.drop_last());
        assert(audit::row_holds(rows, n));
        lemma_none_above(rows.drop_last(), since);
    }
}

/// A query gives the rows of a sound log from behind a number on, in order, and no more than it was
/// asked for.
pub proof fn law_query_gives_the_rows_behind<S: Store>(
    s: &S,
    since_seq: i64,
    limit: usize,
    rows: Vec<AuditRecord>,
)
    requires
        call_ensures(
            S::query_audit,
            (s, since_seq, limit),
            Ok::<Vec<AuditRecord>, StoreError>(rows),
        ),
        audit::chain_intact(s.state().audit),
        0 <= since_seq <= s.state().audit.len(),
    ensures
        ({
            let behind = s.state().audit.len() - since_seq;
            &&& rows@.len() == if behind <= limit {
                behind
            } else {
                limit as int
            }
            &&& forall|i: int|
                0 <= i < rows@.len() ==> (#[trigger] rows@[i])@ == s.state().audit[since_seq + i]
        }),
{
    lemma_rows_since(s.state().audit, since_seq);
    let views = event::row_views(rows@);
    assert(views.len() == rows@.len());
    assert forall|i: int| 0 <= i < rows@.len() implies (#[trigger] rows@[i])@
        == s.state().audit[since_seq + i] by {
        assert(views[i] == rows@[i]@);
    }
}

/// The last audit row is the one behind all the others.
pub proof fn law_last_row_is_the_last<S: Store>(s: &S, row: Option<AuditRecord>)
    requires
        call_ensures(S::last_audit, (s,), Ok::<Option<AuditRecord>, StoreError>(row)),
    ensures
        match row {
            Some(r) => s.state().audit.len() > 0 && r@ == s.state().audit[s.state().audit.len()
                - 1],
            None => s.state().audit.len() == 0,
        },
{
}

/// A store in memory never fails by itself, and starts without anything.
pub proof fn law_memory_store_starts_empty(s: InMemStore, c: StoreCall)
    requires
        call_ensures(InMemStore::new, (), s),
    ensures
        s.reliable(c),
        s.state().meta =~= Map::<Seq<char>, Seq<char>>::empty(),
        s.state().slots.len() == 0,
        s.state().secrets.len() == 0,
        s.state().audit.len() == 0,
        s.state().next_row_id == 1,
{
}

/// Cutting rows off takes the last ones, rewriting changes the subject of the row with the number
/// and no hash, and setting a metadata key sets that key; nothing else of the store changes.
pub proof fn law_tampering_touches_what_it_names(
    cut: &mut InMemStore,
    n: usize,
    rewritten: &mut InMemStore,
    seq: i64,
    set: &mut InMemStore,
    key: &str,
    value: &str,
)
    requires
        call_ensures(InMemStore::truncate_audit_tail, (cut, n), ()),
        call_ensures(InMemStore::tamper_audit_subject, (rewritten, seq), ()),
        call_ensures(InMemStore::tamper_meta, (set, key, value), ()),
    ensures
        ({
            let s = old(cut).state();
            let t = final(cut).state();
            &&& n <= s.audit.len() ==> t.audit.len() + n == s.audit.len()
            &&& n > s.audit.len() ==> t.audit.len() == 0
            &&& forall|i: int| 0 <= i < t.audit.len() ==> #[trigger] t.audit[i] == s.audit[i]
            &&& t == (StoreView { audit: t.audit, ..s })
        }),
        ({
            let s = old(rewritten).state();
            let t = final(rewritten).state();
            &&& t.audit.len() == s.audit.len()
            &&& forall|i: int|
                0 <= i < s.audit.len() ==> {
                    &&& (#[trigger] t.audit[i]).row_hash == s.audit[i].row_hash
                    &&& s.audit[i].seq != seq ==> t.audit[i] == s.audit[i]
                    &&& s.audit[i].seq == seq ==> t.audit[i].subject == Some("tampered"@)
                }
            &&& t == (StoreView { audit: t.audit, ..s })
        }),
        ({
            let s = old(set).state();
            let t = final(set).state();
            &&& t.meta.dom().contains(key@) && t.meta[key@] == value@
            &&& forall|k: Seq<char>|
                k != key@ ==> (#[trigger] t.meta.dom().contains(k) <==> s.meta.dom().contains(k))
                    && (s.meta.dom().contains(k) ==> t.meta[k] == s.meta[k])
            &&& t == (StoreView { meta: t.meta, ..s })
        }),
{
}

/// The rows that a store in memory hands out are all of its rows, in their order.
pub proof fn law_rows_are_handed_out_in_order(s: &InMemStore, rows: Vec<AuditRecord>)
    requires
        call_ensures(InMemStore::audit_rows, (s,), rows),
    ensures
        rows@.len() == s.state().audit.len(),
        forall|i: int| 0 <= i < rows@.len() ==> (#[trigger] rows@[i])@ == s.state().audit[i],
{
    assert forall|i: int| 0 <= i < rows@.len() implies (#[trigger] rows@[i])@
        == s.state().audit[i] by {
        assert(crate::event::row_views(rows@)[i] == rows@[i]@);
    }
}

} // verus!
