//! Persistence behind a trait. Encryption happens above it: a store only ever sees ciphertext and
//! metadata that is not secret.
use vstd::prelude::*;
use crate::broker::policy::Provider;
use crate::codec;
use crate::error::{EngineError, StoreError};
use crate::event::{AuditRecord, RowView};
use crate::keyslot::{Keyslot, SlotView};

verus! {

/// One sealed version of a secret.
#[derive(Clone, Debug)]
pub struct SecretRow {
    pub row_id: i64,
    pub name: String,
    pub version: u32,
    pub provider: Provider,
    pub note: String,
    pub broker_only: bool,
    pub dek_generation: i64,
    pub nonce: Vec<u8>,
    pub ct_tag: Vec<u8>,
    pub created_ts: String,
}

/// What a sealed version of a secret holds.
#[verifier::ext_equal]
pub struct SecretView {
    pub row_id: i64,
    pub name: Seq<char>,
    pub version: u32,
    pub provider: Provider,
    pub note: Seq<char>,
    pub broker_only: bool,
    pub dek_generation: i64,
    pub nonce: Seq<u8>,
    pub ct_tag: Seq<u8>,
    pub created_ts: Seq<char>,
}

impl View for SecretRow {
    type V = SecretView;

    open spec fn view(&self) -> SecretView {
        SecretView {
            row_id: self.row_id,
            name: self.name@,
            version: self.version,
            provider: self.provider,
            note: self.note@,
            broker_only: self.broker_only,
            dek_generation: self.dek_generation,
            nonce: self.nonce@,
            ct_tag: self.ct_tag@,
            created_ts: self.created_ts@,
        }
    }
}

impl SecretRow {
    /// Another row with the same contents.
    pub fn duplicate(&self) -> (copy: SecretRow)
        ensures
            copy@ == self@,
    {
        SecretRow {
            row_id: self.row_id,
            name: self.name.clone(),
            version: self.version,
            provider: self.provider,
            note: self.note.clone(),
            broker_only: self.broker_only,
            dek_generation: self.dek_generation,
            nonce: codec::copy_bytes(self.nonce.as_slice()),
            ct_tag: codec::copy_bytes(self.ct_tag.as_slice()),
            created_ts: self.created_ts.clone(),
        }
    }
}

/// What each of a list of rows holds.
pub open spec fn secret_views(rows: Seq<SecretRow>) -> Seq<SecretView> {
    rows.map_values(|r: SecretRow| r@)
}

/// What an optional row holds.
pub open spec fn secret_view(row: Option<SecretRow>) -> Option<SecretView> {
    match row {
        Some(r) => Some(r@),
        None => None,
    }
}

/// What an optional keyslot holds.
pub open spec fn slot_view(slot: Option<Keyslot>) -> Option<SlotView> {
    match slot {
        Some(s) => Some(s@),
        None => None,
    }
}

/// What an optional audit record holds.
pub open spec fn row_view(row: Option<AuditRecord>) -> Option<RowView> {
    match row {
        Some(r) => Some(r@),
        None => None,
    }
}

/// Everything that a store holds. Secrets stand in the order in which they were written, audit rows
/// in the order in which they were appended.
#[verifier::ext_equal]
pub struct StoreView {
    pub meta: Map<Seq<char>, Seq<char>>,
    pub slots: Seq<SlotView>,
    pub secrets: Seq<SecretView>,
    pub next_row_id: i64,
    pub audit: Seq<RowView>,
}

/// The value of a metadata key.
pub open spec fn meta_value(s: StoreView, key: Seq<char>) -> Option<Seq<char>> {
    if s.meta.dom().contains(key) {
        Some(s.meta[key])
    } else {
        None
    }
}

/// The store after a metadata key was set.
pub open spec fn with_meta(s: StoreView, key: Seq<char>, value: Seq<char>) -> StoreView {
    StoreView { meta: s.meta.insert(key, value), ..s }
}

/// Whether some slot has the id.
pub open spec fn has_slot(slots: Seq<SlotView>, id: i64) -> bool {
    exists|i: int| 0 <= i < slots.len() && (#[trigger] slots[i]).id == id
}

/// The slots after one was saved: in the place of the slot with its id, else at the end.
pub open spec fn put_slot(slots: Seq<SlotView>, slot: SlotView) -> Seq<SlotView> {
    if has_slot(slots, slot.id) {
        slots.map_values(
            |s: SlotView|
                if s.id == slot.id {
                    slot
                } else {
                    s
                },
        )
    } else {
        slots.push(slot)
    }
}

/// The store after a slot was saved.
pub open spec fn with_slot(s: StoreView, slot: SlotView) -> StoreView {
    StoreView { slots: put_slot(s.slots, slot), ..s }
}

/// The first slot with the id.
pub open spec fn slot_with_id(slots: Seq<SlotView>, id: i64) -> Option<SlotView>
    decreases slots.len(),
{
    if slots.len() == 0 {
        None
    } else if slots[0].id == id {
        Some(slots[0])
    } else {
        slot_with_id(slots.drop_first(), id)
    }
}

/// The row that was written last under a name.
pub open spec fn latest(secrets: Seq<SecretView>, name: Seq<char>) -> Option<SecretView>
    decreases secrets.len(),
{
    if secrets.len() == 0 {
        None
    } else if secrets.last().name == name {
        Some(secrets.last())
    } else {
        latest(secrets.drop_last(), name)
    }
}

/// The version that was written last under a name, zero if there is none.
pub open spec fn latest_version(secrets: Seq<SecretView>, name: Seq<char>) -> u32 {
    match latest(secrets, name) {
        Some(r) => r.version,
        None => 0,
    }
}

/// The row that was written last under a name with the given version.
pub open spec fn at_version(secrets: Seq<SecretView>, name: Seq<char>, version: u32) -> Option<
    SecretView,
>
    decreases secrets.len(),
{
    if secrets.len() == 0 {
        None
    } else if secrets.last().name == name && secrets.last().version == version {
        Some(secrets.last())
    } else {
        at_version(secrets.drop_last(), name, version)
    }
}

/// The names that occur, each once, in the order of their first row.
pub open spec fn names_of(secrets: Seq<SecretView>) -> Seq<Seq<char>>
    decreases secrets.len(),
{
    if secrets.len() == 0 {
        Seq::empty()
    } else {
        let names = names_of(secrets.drop_last());
        if names.contains(secrets.last().name) {
            names
        } else {
            names.push(secrets.last().name)
        }
    }
}

/// The versions that a name has, in the order in which they were written.
pub open spec fn versions_of(secrets: Seq<SecretView>, name: Seq<char>) -> Seq<u32>
    decreases secrets.len(),
{
    if secrets.len() == 0 {
        Seq::empty()
    } else {
        let versions = versions_of(secrets.drop_last(), name);
        if secrets.last().name == name {
            versions.push(secrets.last().version)
        } else {
            versions
        }
    }
}

/// Whether no row carries the row id.
pub open spec fn row_id_free(secrets: Seq<SecretView>, row_id: i64) -> bool {
    forall|i: int| 0 <= i < secrets.len() ==> (#[trigger] secrets[i]).row_id != row_id
}

/// Whether a row may be added: its id was handed out and is not in use, and its version is above
/// the last one of its name.
pub open spec fn acceptable(s: StoreView, row: SecretView) -> bool {
    &&& 1 <= row.row_id < s.next_row_id
    &&& row_id_free(s.secrets, row.row_id)
    &&& row.version > latest_version(s.secrets, row.name)
}

/// The store after a row was added.
pub open spec fn with_secret(s: StoreView, row: SecretView) -> StoreView {
    StoreView { secrets: s.secrets.push(row), ..s }
}

/// The store after an audit row was appended.
pub open spec fn with_audit(s: StoreView, row: RowView) -> StoreView {
    StoreView { audit: s.audit.push(crate::vault::audit::linked(s.audit, row)), ..s }
}

/// The rows with a number above `since`.
pub open spec fn audit_since(rows: Seq<RowView>, since: i64) -> Seq<RowView>
    decreases rows.len(),
{
    if rows.len() == 0 {
        rows
    } else {
        let before = audit_since(rows.drop_last(), since);
        if rows.last().seq > since {
            before.push(rows.last())
        } else {
            before
        }
    }
}

/// At most `limit` elements from the front.
pub open spec fn at_most(rows: Seq<RowView>, limit: usize) -> Seq<RowView> {
    if rows.len() <= limit {
        rows
    } else {
        rows.take(limit as int)
    }
}

/// The store with one more row id handed out.
pub open spec fn with_row_id_taken(s: StoreView) -> StoreView {
    StoreView { next_row_id: (s.next_row_id + 1) as i64, ..s }
}

/// What the methods of a store keep up among themselves: row ids in use were handed out and are in
/// use once, and under one name later rows have larger versions.
pub open spec fn store_ordered(s: StoreView) -> bool {
    &&& 1 <= s.next_row_id
    &&& forall|i: int|
        0 <= i < s.secrets.len() ==> 1 <= (#[trigger] s.secrets[i]).row_id < s.next_row_id
    &&& forall|i: int, j: int|
        0 <= i < j < s.secrets.len() ==> (#[trigger] s.secrets[i]).row_id != (
        #[trigger] s.secrets[j]).row_id
    &&& forall|i: int, j: int|
        0 <= i < j < s.secrets.len() && s.secrets[i].name == s.secrets[j].name ==> (
        #[trigger] s.secrets[i]).version < (#[trigger] s.secrets[j]).version
}

/// Under one name the last row has the largest version.
pub proof fn lemma_latest_is_largest(s: StoreView, name: Seq<char>)
    requires
        store_ordered(s),
    ensures
        forall|i: int|
            0 <= i < s.secrets.len() && (#[trigger] s.secrets[i]).name == name
                ==> s.secrets[i].version <= latest_version(s.secrets, name),
    decreases s.secrets.len(),
{
    if s.secrets.len() > 0 && s.secrets.last().name != name {
        let shorter = StoreView { secrets: s.secrets.drop_last(), ..s };
        assert forall|i: int| 0 <= i < shorter.secrets.len() implies 1 <= (
        #[trigger] shorter.secrets[i]).row_id < shorter.next_row_id by {
            assert(shorter.secrets[i] == s.secrets[i]);
        }
        assert(store_ordered(shorter)) by {
            assert forall|i: int, j: int| 0 <= i < j < shorter.secrets.len() implies (
            #[trigger] shorter.secrets[i]).row_id != (#[trigger] shorter.secrets[j]).row_id && (
            shorter.secrets[i].name == shorter.secrets[j].name ==> shorter.secrets[i].version
                < shorter.secrets[j].version) by {
                assert(shorter.secrets[i] == s.secrets[i]);
                assert(shorter.secrets[j] == s.secrets[j]);
            }
        }
        lemma_latest_is_largest(shorter, name);
        assert forall|i: int|
            0 <= i < s.secrets.len() && (#[trigger] s.secrets[i]).name
                == name implies s.secrets[i].version <= latest_version(
            s.secrets,
            name,
        ) by {
            assert(shorter.secrets[i] == s.secrets[i]);
        }
    }
}

/// A row that a store accepts keeps the store ordered.
pub proof fn lemma_accepting_keeps_order(s: StoreView, row: SecretView)
    requires
        store_ordered(s),
        acceptable(s, row),
    ensures
        store_ordered(with_secret(s, row)),
{
    lemma_latest_is_largest(s, row.name);
    let t = with_secret(s, row);
    assert forall|i: int, j: int| 0 <= i < j < t.secrets.len() implies (
    #[trigger] t.secrets[i]).row_id != (#[trigger] t.secrets[j]).row_id && (t.secrets[i].name
        == t.secrets[j].name ==> t.secrets[i].version < t.secrets[j].version) by {
        assert(t.secrets[i] == s.secrets[i]);
        if j < s.secrets.len() {
            assert(t.secrets[j] == s.secrets[j]);
        }
    }
    assert forall|i: int| 0 <= i < t.secrets.len() implies 1 <= (#[trigger] t.secrets[i]).row_id
        < t.next_row_id by {
        if i < s.secrets.len() {
            assert(t.secrets[i] == s.secrets[i]);
        }
    }
}

/// The methods of a store.
#[derive(Clone, Copy, Debug, PartialEq, Eq, Structural)]
pub enum StoreCall {
    GetMeta,
    PutMeta,
    ReserveRowId,
    PutSecret,
    GetSecretLatest,
    GetSecretVersion,
    MaxSecretVersion,
    ListSecretNames,
    ListSecretVersions,
    SaveKeyslot,
    LoadKeyslots,
    LoadKeyslot,
    AppendAudit,
    VerifyAuditChain,
    LastAudit,
    QueryAudit,
}

/// The persistence of the vault. Every method may fail for reasons of the backend, unless it is
/// `reliable`; a reliable one fails only where its contract says so. A write that fails either
/// happened or did not, and never touches anything else.
pub trait Store {
    /// What the store holds.
    spec fn state(&self) -> StoreView;

    /// Whether a method does not fail by itself.
    spec fn reliable(&self, call: StoreCall) -> bool;

    /// Reads a metadata key.
    fn get_meta(&self, k: &str) -> (value: Result<Option<String>, StoreError>)
        ensures
            value matches Ok(v) ==> codec::text_view(v) == meta_value(self.state(), k@),
            self.reliable(StoreCall::GetMeta) ==> value is Ok,
    ;

    /// Sets a metadata key.
    fn put_meta(&mut self, k: &str, v: &str) -> (done: Result<(), StoreError>)
        ensures
            done is Ok ==> final(self).state() == with_meta(old(self).state(), k@, v@),
            done is Err ==> final(self).state() == old(self).state() || final(self).state()
                == with_meta(old(self).state(), k@, v@),
            old(self).reliable(StoreCall::PutMeta) ==> done is Ok,
            forall|c: StoreCall| #[trigger] final(self).reliable(c) == old(self).reliable(c),
    ;

    /// Hands out a row id that was never handed out before.
    fn reserve_secret_row_id(&mut self) -> (id: Result<i64, StoreError>)
        ensures
            id matches Ok(n) ==> {
                &&& 1 <= n == old(self).state().next_row_id
                &&& row_id_free(old(self).state().secrets, n)
                &&& final(self).state() == with_row_id_taken(old(self).state())
                &&& n < i64::MAX
            },
            id is Err ==> {
                ||| final(self).state() == old(self).state()
                ||| {
                    &&& old(self).state().next_row_id < i64::MAX
                    &&& final(self).state() == with_row_id_taken(old(self).state())
                }
            },
            old(self).reliable(StoreCall::ReserveRowId) && store_ordered(old(self).state()) ==> (
            id is Ok <==> old(self).state().next_row_id < i64::MAX),
            forall|c: StoreCall| #[trigger] final(self).reliable(c) == old(self).reliable(c),
    ;

    /// Adds a row under the row id that it carries, and gives the id under which it is filed. A row
    /// id that was never handed out or is in use, or a version that is not above the last one, is
    /// rejected. Only a store that is not reliable files a row under another id.
    fn put_secret(&mut self, row: SecretRow) -> (id: Result<i64, StoreError>)
        ensures
            id matches Ok(n) ==> {
                let filed = SecretView { row_id: n, ..row@ };
                &&& acceptable(old(self).state(), filed)
                &&& final(self).state() == with_secret(old(self).state(), filed)
            },
            id is Err ==> final(self).state() == old(self).state() || (acceptable(
                old(self).state(),
                row@,
            ) && final(self).state() == with_secret(old(self).state(), row@)),
            old(self).reliable(StoreCall::PutSecret) ==> {
                &&& id is Ok <==> acceptable(old(self).state(), row@)
                &&& id matches Ok(n) ==> n == row.row_id
                &&& id is Err ==> final(self).state() == old(self).state()
            },
            forall|c: StoreCall| #[trigger] final(self).reliable(c) == old(self).reliable(c),
    ;

    /// The row that was written last under a name.
    fn get_secret_latest(&self, name: &str) -> (row: Result<Option<SecretRow>, StoreError>)
        ensures
            row matches Ok(r) ==> secret_view(r) == latest(self.state().secrets, name@),
            self.reliable(StoreCall::GetSecretLatest) ==> row is Ok,
    ;

    /// The row of a name with the given version.
    fn get_secret_version(&self, name: &str, version: u32) -> (row: Result<
        Option<SecretRow>,
        StoreError,
    >)
        ensures
            row matches Ok(r) ==> secret_view(r) == at_version(
                self.state().secrets,
                name@,
                version,
            ),
            self.reliable(StoreCall::GetSecretVersion) ==> row is Ok,
    ;

    /// The version that was written last under a name, zero if there is none.
    fn max_secret_version(&self, name: &str) -> (version: Result<u32, StoreError>)
        ensures
            version matches Ok(v) ==> v == latest_version(self.state().secrets, name@),
            self.reliable(StoreCall::MaxSecretVersion) ==> version is Ok,
    ;

    /// The names that occur, each once.
    fn list_secret_names(&self) -> (names: Result<Vec<String>, StoreError>)
        ensures
            names matches Ok(n) ==> n@.map_values(|s: String| s@) == names_of(
                self.state().secrets,
            ),
            self.reliable(StoreCall::ListSecretNames) ==> names is Ok,
    ;

    /// The versions that a name has.
    fn list_secret_versions(&self, name: &str) -> (versions: Result<Vec<u32>, StoreError>)
        ensures
            versions matches Ok(v) ==> v@ == versions_of(self.state().secrets, name@),
            self.reliable(StoreCall::ListSecretVersions) ==> versions is Ok,
    ;

    /// Saves a keyslot in the place of the one with its id, or at the end.
    fn save_keyslot(&mut self, slot: &Keyslot) -> (done: Result<(), StoreError>)
        ensures
            done is Ok ==> final(self).state() == with_slot(old(self).state(), slot@),
            done is Err ==> final(self).state() == old(self).state() || final(self).state()
                == with_slot(old(self).state(), slot@),
            old(self).reliable(StoreCall::SaveKeyslot) ==> done is Ok,
            forall|c: StoreCall| #[trigger] final(self).reliable(c) == old(self).reliable(c),
    ;

    /// All keyslots.
    fn load_keyslots(&self) -> (slots: Result<Vec<Keyslot>, StoreError>)
        ensures
            slots matches Ok(v) ==> crate::keyslot::slot_views(v@) == self.state().slots,
            self.reliable(StoreCall::LoadKeyslots) ==> slots is Ok,
    ;

    /// The keyslot with the id.
    fn load_keyslot(&self, id: i64) -> (slot: Result<Option<Keyslot>, StoreError>)
        ensures
            slot matches Ok(s) ==> slot_view(s) == slot_with_id(self.state().slots, id),
            self.reliable(StoreCall::LoadKeyslot) ==> slot is Ok,
    ;

    /// Numbers, links and appends an audit row, and gives its number.
    fn append_audit(&mut self, rec: &AuditRecord) -> (seq: Result<i64, StoreError>)
        ensures
            seq matches Ok(n) ==> {
                &&& n == old(self).state().audit.len() + 1
                &&& final(self).state() == with_audit(old(self).state(), rec@)
            },
            seq is Err ==> {
                ||| final(self).state() == old(self).state()
                ||| {
                    &&& old(self).state().audit.len() < i64::MAX
                    &&& final(self).state() == with_audit(old(self).state(), rec@)
                }
            },
            old(self).reliable(StoreCall::AppendAudit) ==> (
            seq is Ok <==> old(self).state().audit.len() < i64::MAX),
            forall|c: StoreCall| #[trigger] final(self).reliable(c) == old(self).reliable(c),
    ;

    /// Walks the audit chain from its first row.
    fn verify_audit_chain(&self) -> (verdict: Result<(), EngineError>)
        ensures
            match verdict {
                Ok(_) => crate::vault::audit::first_break(self.state().audit) is None,
                Err(EngineError::AuditChainBroken(seq)) => crate::vault::audit::first_break(
                    self.state().audit,
                ) == Some(seq),
                Err(e) => e is Store && !self.reliable(StoreCall::VerifyAuditChain),
            },
    ;

    /// The last audit row.
    fn last_audit(&self) -> (row: Result<Option<AuditRecord>, StoreError>)
        ensures
            row matches Ok(r) ==> row_view(r) == (if self.state().audit.len() == 0 {
                None
            } else {
                Some(self.state().audit.last())
            }),
            self.reliable(StoreCall::LastAudit) ==> row is Ok,
    ;

    /// At most `limit` audit rows with a number above `since_seq`, in order.
    fn query_audit(&self, since_seq: i64, limit: usize) -> (rows: Result<
        Vec<AuditRecord>,
        StoreError,
    >)
        ensures
            rows matches Ok(v) ==> crate::event::row_views(v@) == at_most(
                audit_since(self.state().audit, since_seq),
                limit,
            ),
            self.reliable(StoreCall::QueryAudit) ==> rows is Ok,
    ;
}

} // verus!
