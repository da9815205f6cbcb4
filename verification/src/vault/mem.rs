//! The store that lives in memory.
use vstd::prelude::*;
use crate::codec;
use crate::error::{EngineError, StoreError};
use crate::event::{AuditRecord, RowView};
use crate::keyslot::{Keyslot, SlotView};
use crate::vault::audit::{genesis_hash, link_row, verify_chain};
use crate::vault::store;
use crate::vault::store::{SecretRow, SecretView, Store, StoreCall, StoreView};

verus! {

/// A store without a backend. Nothing outlives it.
pub struct InMemStore {
    metas: Vec<(String, String)>,
    slots: Vec<Keyslot>,
    secrets: Vec<SecretRow>,
    next_row_id: i64,
    rows: Vec<AuditRecord>,
}

/// The map that a list of pairs stands for; the last pair of a key counts.
pub open spec fn meta_map(metas: Seq<(String, String)>) -> Map<Seq<char>, Seq<char>>
    decreases metas.len(),
{
    if metas.len() == 0 {
        Map::empty()
    } else {
        meta_map(metas.drop_last()).insert(metas.last().0@, metas.last().1@)
    }
}

/// A key that occurs behind `n` in no pair is looked up among the first `n` pairs.
proof fn lemma_meta_prefix(metas: Seq<(String, String)>, n: int, key: Seq<char>)
    requires
        0 <= n <= metas.len(),
        forall|i: int| n <= i < metas.len() ==> (#[trigger] metas[i]).0@ != key,
    ensures
        meta_map(metas).dom().contains(key) == meta_map(metas.take(n)).dom().contains(key),
        meta_map(metas).dom().contains(key) ==> meta_map(metas)[key] == meta_map(
            metas.take(n),
        )[key],
    decreases metas.len() - n,
{
    if n == metas.len() {
        assert(metas.take(n) =~= metas);
    } else {
        lemma_meta_prefix(metas, n + 1, key);
        assert(metas.take(n + 1).drop_last() =~= metas.take(n));
        assert(metas.take(n + 1).last() == metas[n]);
    }
}

/// Replacing the last pair of a key sets the key.
proof fn lemma_meta_update(metas: Seq<(String, String)>, at: int, pair: (String, String))
    requires
        0 <= at < metas.len(),
        metas[at].0@ == pair.0@,
        forall|i: int| at < i < metas.len() ==> (#[trigger] metas[i]).0@ != pair.0@,
    ensures
        meta_map(metas.update(at, pair)) == meta_map(metas).insert(pair.0@, pair.1@),
    decreases metas.len(),
{
    let changed = metas.update(at, pair);
    if at == metas.len() - 1 {
        assert(changed.drop_last() =~= metas.drop_last());
        assert(meta_map(changed) =~= meta_map(metas).insert(pair.0@, pair.1@));
    } else {
        let shorter = metas.drop_last();
        assert forall|i: int| at < i < shorter.len() implies (#[trigger] shorter[i]).0@
            != pair.0@ by {
            assert(shorter[i] == metas[i]);
        }
        lemma_meta_update(shorter, at, pair);
        assert(changed.drop_last() =~= shorter.update(at, pair));
        assert(changed.last() == metas.last());
        assert(metas.last().0@ != pair.0@);
        assert(meta_map(changed) =~= meta_map(metas).insert(pair.0@, pair.1@));
    }
}

/// A name that no row behind the first `n` has is looked up among the first `n` rows.
proof fn lemma_latest_prefix(secrets: Seq<SecretView>, n: int, name: Seq<char>)
    requires
        0 <= n <= secrets.len(),
        forall|i: int| n <= i < secrets.len() ==> (#[trigger] secrets[i]).name != name,
    ensures
        store::latest(secrets, name) == store::latest(secrets.take(n), name),
    decreases secrets.len() - n,
{
    if n == secrets.len() {
        assert(secrets.take(n) =~= secrets);
    } else {
        lemma_latest_prefix(secrets, n + 1, name);
        assert(secrets.take(n + 1).drop_last() =~= secrets.take(n));
        assert(secrets.take(n + 1).last() == secrets[n]);
    }
}

proof fn lemma_version_prefix(secrets: Seq<SecretView>, n: int, name: Seq<char>, version: u32)
    requires
        0 <= n <= secrets.len(),
        forall|i: int|
            n <= i < secrets.len() ==> !((#[trigger] secrets[i]).name == name && secrets[i].version
                == version),
    ensures
        store::at_version(secrets, name, version) == store::at_version(
            secrets.take(n),
            name,
            version,
        ),
    decreases secrets.len() - n,
{
    if n == secrets.len() {
        assert(secrets.take(n) =~= secrets);
    } else {
        lemma_version_prefix(secrets, n + 1, name, version);
        assert(secrets.take(n + 1).drop_last() =~= secrets.take(n));
        assert(secrets.take(n + 1).last() == secrets[n]);
    }
}

/// Why a row is rejected.
pub open spec fn put_error(s: StoreView, row: SecretView) -> StoreError {
    if !(1 <= row.row_id < s.next_row_id) {
        StoreError::UnreservedRowId(row.row_id)
    } else if !store::row_id_free(s.secrets, row.row_id) {
        StoreError::RowIdCollision(row.row_id)
    } else {
        StoreError::VersionNotMonotonic(row.version)
    }
}

impl InMemStore {
    /// An empty store.
    pub fn new() -> (store: InMemStore)
        ensures
            store.state() == (StoreView {
                meta: Map::empty(),
                slots: Seq::empty(),
                secrets: Seq::empty(),
                next_row_id: 1,
                audit: Seq::empty(),
            }),
            store::store_ordered(store.state()),
            forall|c: StoreCall| #[trigger] store.reliable(c),
    {
        let store = InMemStore {
            metas: Vec::new(),
            slots: Vec::new(),
            secrets: Vec::new(),
            next_row_id: 1,
            rows: Vec::new(),
        };
        proof {
            assert(store.state().slots =~= Seq::<SlotView>::empty());
            assert(store.state().secrets =~= Seq::<SecretView>::empty());
            assert(store.state().audit =~= Seq::<RowView>::empty());
        }
        store
    }

    /// The index of the last pair of a key.
    fn find_meta(&self, k: &str) -> (at: Option<usize>)
        ensures
            match at {
                Some(i) => {
                    &&& i < self.metas@.len()
                    &&& self.metas@[i as int].0@ == k@
                    &&& forall|j: int|
                        i < j < self.metas@.len() ==> (#[trigger] self.metas@[j]).0@ != k@
                },
                None => forall|j: int|
                    0 <= j < self.metas@.len() ==> (#[trigger] self.metas@[j]).0@ != k@,
            },
    {
        let mut n: usize = self.metas.len();
        while n > 0
            invariant
                n <= self.metas@.len(),
                forall|j: int| n <= j < self.metas@.len() ==> (#[trigger] self.metas@[j]).0@ != k@,
            decreases n,
        {
            n = n - 1;
            if codec::str_eq(self.metas[n].0.as_str(), k) {
                return Some(n);
            }
        }
        None
    }

    /// Sets a metadata key.
    fn set_meta(&mut self, k: &str, v: &str)
        ensures
            final(self).state() == store::with_meta(old(self).state(), k@, v@),
    {
        let pair: (String, String) = (k.to_owned(), v.to_owned());
        match self.find_meta(k) {
            Some(i) => {
                proof {
                    lemma_meta_update(self.metas@, i as int, pair);
                }
                self.metas.set(i, pair);
            },
            None => {
                self.metas.push(pair);
                assert(self.metas@.drop_last() =~= old(self).metas@);
            },
        }
    }

    /// The index of the last row of a name.
    fn find_latest(&self, name: &str) -> (at: Option<usize>)
        ensures
            match at {
                Some(i) => i < self.secrets@.len() && store::latest(self.state().secrets, name@)
                    == Some(self.secrets@[i as int]@),
                None => store::latest(self.state().secrets, name@) is None,
            },
    {
        let ghost views = self.state().secrets;
        let mut n: usize = self.secrets.len();
        while n > 0
            invariant
                n <= self.secrets@.len(),
                views == store::secret_views(self.secrets@),
                forall|j: int| n <= j < views.len() ==> (#[trigger] views[j]).name != name@,
            decreases n,
        {
            n = n - 1;
            assert(views[n as int] == self.secrets@[n as int]@);
            if codec::str_eq(self.secrets[n].name.as_str(), name) {
                proof {
                    lemma_latest_prefix(views, n + 1, name@);
                    assert(views.take(n + 1).last() == views[n as int]);
                }
                return Some(n);
            }
        }
        proof {
            lemma_latest_prefix(views, 0, name@);
        }
        None
    }

    /// The audit rows, in order.
    pub fn audit_rows(&self) -> (rows: Vec<AuditRecord>)
        ensures
            crate::event::row_views(rows@) == self.state().audit,
    {
        let ghost views = self.state().audit;
        let mut rows: Vec<AuditRecord> = Vec::new();
        let mut i: usize = 0;
        while i < self.rows.len()
            invariant
                i <= self.rows@.len(),
                views == crate::event::row_views(self.rows@),
                rows@.len() == i,
                forall|j: int| 0 <= j < i ==> (#[trigger] rows@[j])@ == views[j],
            decreases self.rows@.len() - i,
        {
            rows.push(self.rows[i].duplicate());
            i = i + 1;
        }
        assert(crate::event::row_views(rows@) =~= views);
        rows
    }

    /// Cuts the last `n` rows off the audit log, as someone with access to the backend could.
    pub fn truncate_audit_tail(&mut self, n: usize)
        ensures
            final(self).state() == (StoreView {
                audit: old(self).state().audit.take(
                    if n <= old(self).state().audit.len() {
                        old(self).state().audit.len() - n
                    } else {
                        0
                    },
                ),
                ..old(self).state()
            }),
    {
        let len: usize = self.rows.len();
        let keep: usize = if n <= len {
            len - n
        } else {
            0
        };
        self.rows.truncate(keep);
        assert(self.state().audit =~= old(self).state().audit.take(keep as int));
    }

    /// Overwrites a metadata key, as someone with access to the backend could.
    pub fn tamper_meta(&mut self, k: &str, v: &str)
        ensures
            final(self).state() == store::with_meta(old(self).state(), k@, v@),
    {
        self.set_meta(k, v);
    }

    /// Rewrites the subject of each row with the given number and leaves its hash, as someone with
    /// access to the backend could.
    pub fn tamper_audit_subject(&mut self, seq: i64)
        ensures
            final(self).state() == (StoreView {
                audit: old(self).state().audit.map_values(
                    |r: RowView|
                        if r.seq == seq {
                            RowView { subject: Some("tampered"@), ..r }
                        } else {
                            r
                        },
                ),
                ..old(self).state()
            }),
    {
        let ghost rewrite = |r: RowView|
            if r.seq == seq {
                RowView { subject: Some("tampered"@), ..r }
            } else {
                r
            };
        let ghost before = old(self).state().audit;
        let mut rows: Vec<AuditRecord> = Vec::new();
        let mut i: usize = 0;
        while i < self.rows.len()
            invariant
                i <= self.rows@.len(),
                before == crate::event::row_views(self.rows@),
                rows@.len() == i,
                rewrite == (|r: RowView|
                    if r.seq == seq {
                        RowView { subject: Some("tampered"@), ..r }
                    } else {
                        r
                    }),
                forall|j: int| 0 <= j < i ==> (#[trigger] rows@[j])@ == rewrite(before[j]),
            decreases self.rows@.len() - i,
        {
            let mut row: AuditRecord = self.rows[i].duplicate();
            assert(before[i as int] == self.rows@[i as int]@);
            if row.seq == seq {
                row.subject = Some("tampered".to_owned());
            }
            assert(row@ == rewrite(before[i as int]));
            rows.push(row);
            i = i + 1;
        }
        self.rows = rows;
        assert(self.state().audit =~= before.map_values(rewrite));
    }
}

impl Store for InMemStore {
    closed spec fn state(&self) -> StoreView {
        StoreView {
            meta: meta_map(self.metas@),
            slots: crate::keyslot::slot_views(self.slots@),
            secrets: store::secret_views(self.secrets@),
            next_row_id: self.next_row_id,
            audit: crate::event::row_views(self.rows@),
        }
    }

    open spec fn reliable(&self, call: StoreCall) -> bool {
        true
    }

    fn get_meta(&self, k: &str) -> (value: Result<Option<String>, StoreError>)
        ensures
            value is Ok,
    {
        match self.find_meta(k) {
            Some(i) => {
                proof {
                    lemma_meta_prefix(self.metas@, i + 1, k@);
                    assert(self.metas@.take(i + 1).last() == self.metas@[i as int]);
                }
                Ok(Some(self.metas[i].1.clone()))
            },
            None => {
                proof {
                    lemma_meta_prefix(self.metas@, 0, k@);
                    assert(self.metas@.take(0).len() == 0);
                }
                Ok(None)
            },
        }
    }

    fn put_meta(&mut self, k: &str, v: &str) -> (done: Result<(), StoreError>)
        ensures
            done is Ok,
    {
        self.set_meta(k, v);
        Ok(())
    }

    fn reserve_secret_row_id(&mut self) -> (id: Result<i64, StoreError>)
        ensures
            id matches Err(e) ==> {
                &&& final(self).state() == old(self).state()
                &&& store::store_ordered(old(self).state()) ==> e == StoreError::Exhausted
            },
    {
        let id: i64 = self.next_row_id;
        if id == i64::MAX || id < 1 {
            return Err(StoreError::Exhausted);
        }
        let ghost views = self.state().secrets;
        let mut i: usize = 0;
        while i < self.secrets.len()
            invariant
                i <= self.secrets@.len(),
                *self == *old(self),
                views == store::secret_views(self.secrets@),
                id == self.next_row_id,
                forall|j: int| 0 <= j < i ==> (#[trigger] views[j]).row_id != id,
            decreases self.secrets@.len() - i,
        {
            assert(views[i as int] == self.secrets@[i as int]@);
            if self.secrets[i].row_id == id {
                assert(!store::store_ordered(self.state()));
                return Err(StoreError::RowIdCollision(id));
            }
            i = i + 1;
        }
        self.next_row_id = id + 1;
        assert(self.state().secrets == views);
        Ok(id)
    }

    fn put_secret(&mut self, row: SecretRow) -> (id: Result<i64, StoreError>)
        ensures
            match id {
                Ok(n) => n == row.row_id,
                Err(e) => {
                    &&& e == put_error(old(self).state(), row@)
                    &&& final(self).state() == old(self).state()
                },
            },
            id is Ok <==> store::acceptable(old(self).state(), row@),
    {
        let id: i64 = row.row_id;
        if id < 1 || id >= self.next_row_id {
            return Err(StoreError::UnreservedRowId(id));
        }
        let ghost views = self.state().secrets;
        let mut i: usize = 0;
        while i < self.secrets.len()
            invariant
                i <= self.secrets@.len(),
                *self == *old(self),
                views == store::secret_views(self.secrets@),
                1 <= id < self.next_row_id,
                id == row.row_id,
                forall|j: int| 0 <= j < i ==> (#[trigger] views[j]).row_id != id,
            decreases self.secrets@.len() - i,
        {
            assert(views[i as int] == self.secrets@[i as int]@);
            if self.secrets[i].row_id == id {
                assert(!store::row_id_free(views, id));
                return Err(StoreError::RowIdCollision(id));
            }
            i = i + 1;
        }
        let last: u32 = match self.find_latest(row.name.as_str()) {
            Some(i) => self.secrets[i].version,
            None => 0,
        };
        if row.version <= last {
            return Err(StoreError::VersionNotMonotonic(row.version));
        }
        let ghost added = row@;
        self.secrets.push(row);
        proof {
            assert(self.state().secrets =~= views.push(added));
        }
        Ok(id)
    }

    fn get_secret_latest(&self, name: &str) -> (row: Result<Option<SecretRow>, StoreError>)
        ensures
            row is Ok,
    {
        match self.find_latest(name) {
            Some(i) => Ok(Some(self.secrets[i].duplicate())),
            None => Ok(None),
        }
    }

    fn get_secret_version(&self, name: &str, version: u32) -> (row: Result<
        Option<SecretRow>,
        StoreError,
    >)
        ensures
            row is Ok,
    {
        let ghost views = self.state().secrets;
        let mut n: usize = self.secrets.len();
        while n > 0
            invariant
                n <= self.secrets@.len(),
                views == store::secret_views(self.secrets@),
                forall|j: int|
                    n <= j < views.len() ==> !((#[trigger] views[j]).name == name@
                        && views[j].version == version),
            decreases n,
        {
            n = n - 1;
            assert(views[n as int] == self.secrets@[n as int]@);
            if self.secrets[n].version == version && codec::str_eq(
                self.secrets[n].name.as_str(),
                name,
            ) {
                proof {
                    lemma_version_prefix(views, n + 1, name@, version);
                    assert(views.take(n + 1).last() == views[n as int]);
                }
                return Ok(Some(self.secrets[n].duplicate()));
            }
        }
        proof {
            lemma_version_prefix(views, 0, name@, version);
        }
        Ok(None)
    }

    fn max_secret_version(&self, name: &str) -> (version: Result<u32, StoreError>)
        ensures
            version is Ok,
    {
        match self.find_latest(name) {
            Some(i) => Ok(self.secrets[i].version),
            None => Ok(0),
        }
    }

    fn list_secret_names(&self) -> (names: Result<Vec<String>, StoreError>)
        ensures
            names is Ok,
    {
        let ghost views = self.state().secrets;
        let ghost text = |s: String| s@;
        let mut names: Vec<String> = Vec::new();
        let mut i: usize = 0;
        proof {
            assert(names@.map_values(text) =~= store::names_of(views.take(0)));
        }
        while i < self.secrets.len()
            invariant
                i <= self.secrets@.len(),
                views == store::secret_views(self.secrets@),
                text == (|s: String| s@),
                names@.map_values(text) == store::names_of(views.take(i as int)),
            decreases self.secrets@.len() - i,
        {
            let ghost known = names@.map_values(text);
            proof {
                assert(views[i as int] == self.secrets@[i as int]@);
                assert(views.take(i + 1).drop_last() =~= views.take(i as int));
                assert(views.take(i + 1).last() == views[i as int]);
            }
            let mut found: bool = false;
            let mut j: usize = 0;
            while j < names.len() && !found
                invariant
                    i < self.secrets@.len(),
                    j <= names@.len(),
                    text == (|s: String| s@),
                    known == names@.map_values(text),
                    found ==> known.contains(self.secrets@[i as int].name@),
                    !found ==> forall|k: int|
                        0 <= k < j ==> (#[trigger] known[k]) != self.secrets@[i as int].name@,
                decreases names@.len() - j + if found { 0int } else { 1int },
            {
                assert(known[j as int] == names@[j as int]@);
                if codec::str_eq(names[j].as_str(), self.secrets[i].name.as_str()) {
                    found = true;
                } else {
                    j = j + 1;
                }
            }
            if !found {
                names.push(self.secrets[i].name.clone());
                assert(names@.map_values(text) =~= known.push(self.secrets@[i as int].name@));
            }
            i = i + 1;
        }
        assert(views.take(i as int) =~= views);
        Ok(names)
    }

    fn list_secret_versions(&self, name: &str) -> (versions: Result<Vec<u32>, StoreError>)
        ensures
            versions is Ok,
    {
        let ghost views = self.state().secrets;
        let mut versions: Vec<u32> = Vec::new();
        let mut i: usize = 0;
        proof {
            assert(versions@ =~= store::versions_of(views.take(0), name@));
        }
        while i < self.secrets.len()
            invariant
                i <= self.secrets@.len(),
                views == store::secret_views(self.secrets@),
                versions@ == store::versions_of(views.take(i as int), name@),
            decreases self.secrets@.len() - i,
        {
            proof {
                assert(views[i as int] == self.secrets@[i as int]@);
                assert(views.take(i + 1).drop_last() =~= views.take(i as int));
                assert(views.take(i + 1).last() == views[i as int]);
            }
            if codec::str_eq(self.secrets[i].name.as_str(), name) {
                versions.push(self.secrets[i].version);
            }
            i = i + 1;
        }
        assert(views.take(i as int) =~= views);
        Ok(versions)
    }

    fn save_keyslot(&mut self, slot: &Keyslot) -> (done: Result<(), StoreError>)
        ensures
            done is Ok,
    {
        let ghost before = old(self).state().slots;
        let ghost place = |s: SlotView|
            if s.id == slot.id {
                slot@
            } else {
                s
            };
        let mut slots: Vec<Keyslot> = Vec::new();
        let mut found: bool = false;
        let mut i: usize = 0;
        while i < self.slots.len()
            invariant
                i <= self.slots@.len(),
                *self == *old(self),
                before == crate::keyslot::slot_views(self.slots@),
                slots@.len() == i,
                place == (|s: SlotView|
                    if s.id == slot.id {
                        slot@
                    } else {
                        s
                    }),
                forall|j: int| 0 <= j < i ==> (#[trigger] slots@[j])@ == place(before[j]),
                found ==> store::has_slot(before, slot.id),
                !found ==> forall|j: int| 0 <= j < i ==> (#[trigger] before[j]).id != slot.id,
            decreases self.slots@.len() - i,
        {
            assert(before[i as int] == self.slots@[i as int]@);
            if self.slots[i].id == slot.id {
                found = true;
                slots.push(slot.duplicate());
            } else {
                slots.push(self.slots[i].duplicate());
            }
            assert(slots@[i as int]@ == place(before[i as int]));
            i = i + 1;
        }
        let ghost replaced = slots@;
        if !found {
            slots.push(slot.duplicate());
        }
        self.slots = slots;
        proof {
            let after = crate::keyslot::slot_views(self.slots@);
            if found {
                assert(after =~= before.map_values(place));
            } else {
                assert(!store::has_slot(before, slot.id));
                assert forall|j: int| 0 <= j < before.len() implies after[j] == before[j] by {
                    assert(replaced[j]@ == place(before[j]));
                    assert(before[j].id != slot.id);
                }
                assert(after =~= before.push(slot@));
            }
        }
        Ok(())
    }

    fn load_keyslots(&self) -> (slots: Result<Vec<Keyslot>, StoreError>)
        ensures
            slots is Ok,
    {
        let ghost views = self.state().slots;
        let mut slots: Vec<Keyslot> = Vec::new();
        let mut i: usize = 0;
        while i < self.slots.len()
            invariant
                i <= self.slots@.len(),
                views == crate::keyslot::slot_views(self.slots@),
                slots@.len() == i,
                forall|j: int| 0 <= j < i ==> (#[trigger] slots@[j])@ == views[j],
            decreases self.slots@.len() - i,
        {
            slots.push(self.slots[i].duplicate());
            i = i + 1;
        }
        assert(crate::keyslot::slot_views(slots@) =~= views);
        Ok(slots)
    }

    fn load_keyslot(&self, id: i64) -> (slot: Result<Option<Keyslot>, StoreError>)
        ensures
            slot is Ok,
    {
        let ghost views = self.state().slots;
        let mut i: usize = 0;
        assert(views.skip(0) =~= views);
        while i < self.slots.len()
            invariant
                i <= self.slots@.len(),
                views == crate::keyslot::slot_views(self.slots@),
                store::slot_with_id(views, id) == store::slot_with_id(views.skip(i as int), id),
            decreases self.slots@.len() - i,
        {
            assert(views.skip(i as int)[0] == self.slots@[i as int]@);
            assert(views.skip(i as int).drop_first() =~= views.skip(i + 1));
            if self.slots[i].id == id {
                return Ok(Some(self.slots[i].duplicate()));
            }
            i = i + 1;
        }
        Ok(None)
    }

    fn append_audit(&mut self, rec: &AuditRecord) -> (seq: Result<i64, StoreError>)
        ensures
            seq matches Err(e) ==> {
                &&& e == StoreError::Exhausted
                &&& final(self).state() == old(self).state()
            },
            seq is Ok <==> old(self).state().audit.len() < i64::MAX,
    {
        let len: usize = self.rows.len();
        if len as u64 >= i64::MAX as u64 {
            return Err(StoreError::Exhausted);
        }
        let seq: i64 = (len as i64) + 1;
        let ghost before = self.state().audit;
        let row: AuditRecord = if len == 0 {
            let root: [u8; 32] = genesis_hash();
            link_row(rec, seq, root.as_slice())
        } else {
            assert(before.last() == self.rows@[len - 1]@);
            link_row(rec, seq, self.rows[len - 1].row_hash.as_slice())
        };
        assert(row@ == crate::vault::audit::linked(before, rec@));
        self.rows.push(row);
        assert(self.state().audit =~= before.push(row@));
        Ok(seq)
    }

    fn verify_audit_chain(&self) -> (verdict: Result<(), EngineError>)
        ensures
            verdict matches Err(e) ==> e is AuditChainBroken,
    {
        verify_chain(self.rows.as_slice())
    }

    fn last_audit(&self) -> (row: Result<Option<AuditRecord>, StoreError>)
        ensures
            row is Ok,
    {
        let len: usize = self.rows.len();
        if len == 0 {
            return Ok(None);
        }
        assert(self.state().audit.last() == self.rows@[len - 1]@);
        Ok(Some(self.rows[len - 1].duplicate()))
    }

    fn query_audit(&self, since_seq: i64, limit: usize) -> (rows: Result<
        Vec<AuditRecord>,
        StoreError,
    >)
        ensures
            rows is Ok,
    {
        let ghost views = self.state().audit;
        let mut rows: Vec<AuditRecord> = Vec::new();
        let mut i: usize = 0;
        proof {
            assert(crate::event::row_views(rows@) =~= store::at_most(
                store::audit_since(views.take(0), since_seq),
                limit,
            ));
        }
        while i < self.rows.len()
            invariant
                i <= self.rows@.len(),
                views == crate::event::row_views(self.rows@),
                crate::event::row_views(rows@) == store::at_most(
                    store::audit_since(views.take(i as int), since_seq),
                    limit,
                ),
            decreases self.rows@.len() - i,
        {
            let ghost kept = store::audit_since(views.take(i as int), since_seq);
            let ghost before = crate::event::row_views(rows@);
            proof {
                assert(views[i as int] == self.rows@[i as int]@);
                assert(views.take(i + 1).drop_last() =~= views.take(i as int));
                assert(views.take(i + 1).last() == views[i as int]);
            }
            if self.rows[i].seq > since_seq && rows.len() < limit {
                assert(before.len() == rows@.len());
                assert(kept.len() < limit);
                rows.push(self.rows[i].duplicate());
                assert(crate::event::row_views(rows@) =~= before.push(views[i as int]));
            } else if self.rows[i].seq > since_seq {
                assert(before.len() == rows@.len());
                assert(store::at_most(kept.push(views[i as int]), limit) =~= store::at_most(
                    kept,
                    limit,
                ));
            }
            i = i + 1;
        }
        assert(views.take(i as int) =~= views);
        Ok(rows)
    }
}

} // verus!
