//! The record store: an in-memory keyed store over the two record tables,
//! with the invariants the vault relies on — distinct ids, uniqueness of
//! `(title, username)` among active records, and a single well-formed
//! bootstrap record.  The host persists the two vectors however it likes;
//! every operation on them is verified here.

use vstd::multiset::Multiset;
use vstd::prelude::*;
use vstd::string::*;

use crate::crypto::{decrypt, derive_key, encrypt, key_of, opens_to, sealable, Key};
use crate::errors::VaultError;
use crate::forms::EditForm;
use crate::models::{
    copy_opt_bytes, edit_matches, edit_matches_hist, lemma_snapshot_wf, opt_bytes_eq,
    simple_matches, snapshot_matches, HistoryItem, MimaItem,
};
use crate::text::{dec_str, lemma_trim_spec_len, trim, trim_spec, u64_to_dec};

verus! {

/// The reserved id of the bootstrap record, which stores only the login
/// verification ciphertext and is excluded from every record operation.
pub open spec fn spec_bootstrap_id() -> Seq<char> {
    "00000000000000000000000000000000"@
}

/// The reserved bootstrap id as a string slice.
pub fn bootstrap_id_str() -> (r: &'static str)
    ensures
        r@ == spec_bootstrap_id(),
{
    "00000000000000000000000000000000"
}

/// Whether a record is the bootstrap record.
pub open spec fn is_bootstrap(m: MimaItem) -> bool {
    m.id@ == spec_bootstrap_id()
}

/// Some record in `rs` carries this id.
pub open spec fn has_id(rs: Seq<MimaItem>, id: Seq<char>) -> bool {
    exists|i: int| 0 <= i < rs.len() && (#[trigger] rs[i]).id@ == id
}

/// Some snapshot in `hs` carries this id.
pub open spec fn has_hist_id(hs: Seq<HistoryItem>, id: Seq<char>) -> bool {
    exists|i: int| 0 <= i < hs.len() && (#[trigger] hs[i]).id@ == id
}

/// `m` is an active record under the given title and username, other than
/// the record excluded by id (if any).  Such a record blocks an insert or
/// update under the same pair.
pub open spec fn conflicts(
    m: MimaItem,
    title: Seq<char>,
    username: Seq<char>,
    excl: Option<Seq<char>>,
) -> bool {
    &&& m.active()
    &&& m.title@ == title
    &&& m.username@ == username
    &&& (excl matches Some(e) ==> m.id@ != e)
}

/// Some record in `rs` conflicts with the given title and username.
pub open spec fn has_conflict(
    rs: Seq<MimaItem>,
    title: Seq<char>,
    username: Seq<char>,
    excl: Option<Seq<char>>,
) -> bool {
    exists|i: int| 0 <= i < rs.len() && conflicts(#[trigger] rs[i], title, username, excl)
}

/// The in-memory store: the record table and the history table.
pub struct Store {
    pub mimas: Vec<MimaItem>,
    pub history: Vec<HistoryItem>,
}

/// A record fit to stand under the bootstrap id: active, carrying a
/// password envelope, with empty title and username.
pub open spec fn bootstrap_shape(m: MimaItem) -> bool {
    &&& m.active()
    &&& m.password is Some
    &&& m.title@ == Seq::<char>::empty()
    &&& m.username@ == Seq::<char>::empty()
}

/// The record table's invariant: every record well formed, ids unique, no
/// two active records sharing a title and username, and any record under
/// the reserved bootstrap id of bootstrap shape.
pub open spec fn mimas_wf(rs: Seq<MimaItem>) -> bool {
    &&& forall|i: int| 0 <= i < rs.len() ==> (#[trigger] rs[i]).wf()
    &&& forall|i: int, j: int| 0 <= i < j < rs.len() ==> rs[i].id@ != rs[j].id@
    &&& forall|i: int, j: int|
        0 <= i < j < rs.len() && rs[i].active() && rs[j].active() ==> !(rs[i].title@
            == rs[j].title@ && rs[i].username@ == rs[j].username@)
    &&& forall|i: int|
        0 <= i < rs.len() && is_bootstrap(#[trigger] rs[i]) ==> bootstrap_shape(rs[i])
}

/// The history table's invariant: every snapshot well formed, ids unique.
pub open spec fn hist_wf(hs: Seq<HistoryItem>) -> bool {
    &&& forall|i: int| 0 <= i < hs.len() ==> (#[trigger] hs[i]).wf()
    &&& forall|i: int, j: int| 0 <= i < j < hs.len() ==> hs[i].id@ != hs[j].id@
}

impl Store {
    /// The store's invariant: both tables well formed.
    pub open spec fn wf(&self) -> bool {
        &&& mimas_wf(self.mimas@)
        &&& hist_wf(self.history@)
    }

    /// An empty store: no vault has been created yet.
    pub fn new() -> (s: Store)
        ensures
            s.wf(),
            s.mimas@.len() == 0,
            s.history@.len() == 0,
    {
        Store { mimas: Vec::new(), history: Vec::new() }
    }
}

/// Whether two string slices hold the same characters.
pub fn str_eq(a: &str, b: &str) -> (r: bool)
    ensures
        r == (a@ == b@),
{
    let sa = a.to_owned();
    let sb = b.to_owned();
    sa == sb
}

/// The index of the record carrying `id`, if any.
pub fn find_index(mimas: &Vec<MimaItem>, id: &str) -> (r: Option<usize>)
    ensures
        match r {
            Some(i) => i < mimas@.len() && mimas@[i as int].id@ == id@,
            None => forall|i: int| 0 <= i < mimas@.len() ==> (#[trigger] mimas@[i]).id@ != id@,
        },
{
    let mut i: usize = 0;
    while i < mimas.len()
        invariant
            i <= mimas@.len(),
            forall|j: int| 0 <= j < i ==> (#[trigger] mimas@[j]).id@ != id@,
        decreases mimas@.len() - i,
    {
        if str_eq(mimas[i].id.as_str(), id) {
            return Some(i);
        }
        i = i + 1;
    }
    None
}

/// The index of the snapshot carrying `id`, if any.
pub fn find_hist_index(history: &Vec<HistoryItem>, id: &str) -> (r: Option<usize>)
    ensures
        match r {
            Some(i) => i < history@.len() && history@[i as int].id@ == id@,
            None => forall|i: int|
                0 <= i < history@.len() ==> (#[trigger] history@[i]).id@ != id@,
        },
{
    let mut i: usize = 0;
    while i < history.len()
        invariant
            i <= history@.len(),
            forall|j: int| 0 <= j < i ==> (#[trigger] history@[j]).id@ != id@,
        decreases history@.len() - i,
    {
        if str_eq(history[i].id.as_str(), id) {
            return Some(i);
        }
        i = i + 1;
    }
    None
}

/// The view of an optional excluded id.
pub open spec fn excl_view(excl: Option<&String>) -> Option<Seq<char>> {
    match excl {
        Option::Some(e) => Some(e@),
        Option::None => None,
    }
}

/// Whether some active record other than the excluded one carries this
/// title and username.
fn find_conflict(
    mimas: &Vec<MimaItem>,
    title: &str,
    username: &str,
    excl: Option<&String>,
) -> (r: bool)
    ensures
        r == has_conflict(mimas@, title@, username@, excl_view(excl)),
{
    let mut i: usize = 0;
    while i < mimas.len()
        invariant
            i <= mimas@.len(),
            forall|j: int|
                0 <= j < i ==> !conflicts(#[trigger] mimas@[j], title@, username@, excl_view(excl)),
        decreases mimas@.len() - i,
    {
        let m = &mimas[i];
        if m.deleted.is_none() && str_eq(m.title.as_str(), title) && str_eq(
            m.username.as_str(),
            username,
        ) {
            let excluded = match excl {
                Some(e) => str_eq(m.id.as_str(), e.as_str()),
                None => false,
            };
            if !excluded {
                return true;
            }
        }
        i = i + 1;
    }
    false
}

proof fn lemma_mimas_wf_push(rs: Seq<MimaItem>, m: MimaItem)
    requires
        mimas_wf(rs),
        m.wf(),
        !has_id(rs, m.id@),
        is_bootstrap(m) ==> bootstrap_shape(m),
        m.active() ==> !has_conflict(rs, m.title@, m.username@, None),
    ensures
        mimas_wf(rs.push(m)),
{
    let t = rs.push(m);
    assert forall|i: int, j: int| 0 <= i < j < t.len() implies t[i].id@ != t[j].id@ by {
        if j < rs.len() {
        } else {
            assert(t[j] == m);
            assert(t[i] == rs[i]);
        }
    }
    assert forall|i: int, j: int|
        0 <= i < j < t.len() && t[i].active() && t[j].active() implies !(t[i].title@
        == t[j].title@ && t[i].username@ == t[j].username@) by {
        if j < rs.len() {
        } else {
            assert(t[j] == m);
            assert(t[i] == rs[i]);
            if m.active() && t[i].title@ == m.title@ && t[i].username@ == m.username@ {
                assert(conflicts(rs[i], m.title@, m.username@, None));
                assert(has_conflict(rs, m.title@, m.username@, None));
            }
        }
    }
    assert forall|i: int| 0 <= i < t.len() implies (#[trigger] t[i]).wf() by {
        if i < rs.len() {
            assert(t[i] == rs[i]);
        } else {
            assert(t[i] == m);
        }
    }
    assert forall|i: int|
        0 <= i < t.len() && is_bootstrap(#[trigger] t[i]) implies bootstrap_shape(t[i]) by {
        if i < rs.len() {
            assert(t[i] == rs[i]);
        } else {
            assert(t[i] == m);
        }
    }
}

proof fn lemma_mimas_wf_update(rs: Seq<MimaItem>, at: int, m: MimaItem)
    requires
        mimas_wf(rs),
        0 <= at < rs.len(),
        m.wf(),
        m.id@ == rs[at].id@,
        !is_bootstrap(m),
        m.active() ==> !has_conflict(rs, m.title@, m.username@, Some(m.id@)),
    ensures
        mimas_wf(rs.update(at, m)),
{
    let t = rs.update(at, m);
    assert forall|i: int, j: int| 0 <= i < j < t.len() implies t[i].id@ != t[j].id@ by {
        assert(rs[i].id@ != rs[j].id@);
    }
    assert forall|i: int, j: int|
        0 <= i < j < t.len() && t[i].active() && t[j].active() implies !(t[i].title@
        == t[j].title@ && t[i].username@ == t[j].username@) by {
        if i != at && j != at {
        } else {
            let other = if i == at { j } else { i };
            if m.active() && t[other].active() && t[other].title@ == m.title@
                && t[other].username@ == m.username@ {
                assert(t[other] == rs[other]);
                assert(rs[other].id@ != rs[at].id@);
                assert(conflicts(rs[other], m.title@, m.username@, Some(m.id@)));
                assert(has_conflict(rs, m.title@, m.username@, Some(m.id@)));
            }
        }
    }
    assert forall|i: int| 0 <= i < t.len() implies (#[trigger] t[i]).wf() by {
        if i != at {
            assert(t[i] == rs[i]);
        }
    }
    assert forall|i: int|
        0 <= i < t.len() && is_bootstrap(#[trigger] t[i]) implies bootstrap_shape(t[i]) by {
        if i != at {
            assert(t[i] == rs[i]);
        }
    }
}

proof fn lemma_mimas_wf_remove(rs: Seq<MimaItem>, at: int)
    requires
        mimas_wf(rs),
        0 <= at < rs.len(),
    ensures
        mimas_wf(rs.remove(at)),
{
    let t = rs.remove(at);
    assert forall|i: int| 0 <= i < t.len() implies (#[trigger] t[i]).wf()
        && (is_bootstrap(t[i]) ==> bootstrap_shape(t[i])) by {
        if i < at {
            assert(t[i] == rs[i]);
        } else {
            assert(t[i] == rs[i + 1]);
        }
    }
    assert forall|i: int, j: int|
        0 <= i < j < t.len() implies t[i].id@ != t[j].id@ && (t[i].active() && t[j].active()
        ==> !(t[i].title@ == t[j].title@ && t[i].username@ == t[j].username@)) by {
        let i0 = if i < at { i } else { i + 1 };
        let j0 = if j < at { j } else { j + 1 };
        assert(t[i] == rs[i0]);
        assert(t[j] == rs[j0]);
        assert(rs[i0].id@ != rs[j0].id@);
    }
}

proof fn lemma_hist_wf_push(hs: Seq<HistoryItem>, h: HistoryItem)
    requires
        hist_wf(hs),
        h.wf(),
        !has_hist_id(hs, h.id@),
    ensures
        hist_wf(hs.push(h)),
{
    let t = hs.push(h);
    assert forall|i: int| 0 <= i < t.len() implies (#[trigger] t[i]).wf() by {
        if i < hs.len() {
            assert(t[i] == hs[i]);
        } else {
            assert(t[i] == h);
        }
    }
    assert forall|i: int, j: int| 0 <= i < j < t.len() implies t[i].id@ != t[j].id@ by {
        if j < hs.len() {
        } else {
            assert(t[j] == h);
            assert(t[i] == hs[i]);
        }
    }
}

proof fn lemma_hist_wf_remove(hs: Seq<HistoryItem>, at: int)
    requires
        hist_wf(hs),
        0 <= at < hs.len(),
    ensures
        hist_wf(hs.remove(at)),
{
    let t = hs.remove(at);
    assert forall|i: int| 0 <= i < t.len() implies (#[trigger] t[i]).wf() by {
        if i < at {
            assert(t[i] == hs[i]);
        } else {
            assert(t[i] == hs[i + 1]);
        }
    }
    assert forall|i: int, j: int| 0 <= i < j < t.len() implies t[i].id@ != t[j].id@ by {
        let i0 = if i < at { i } else { i + 1 };
        let j0 = if j < at { j } else { j + 1 };
        assert(t[i] == hs[i0]);
        assert(t[j] == hs[j0]);
        assert(hs[i0].id@ != hs[j0].id@);
    }
}

/// Why an insert of `m` into the records `rs` is refused, if it is: a
/// reserved or colliding id is a store failure; an active record under an
/// already taken title and username is a duplicate.
pub open spec fn spec_insert_err(rs: Seq<MimaItem>, m: MimaItem) -> Option<VaultError> {
    if is_bootstrap(m) || has_id(rs, m.id@) {
        Some(VaultError::StoreError)
    } else if m.active() && has_conflict(rs, m.title@, m.username@, None) {
        Some(VaultError::DuplicateRecordError)
    } else {
        None
    }
}

impl MimaItem {
    /// Insert a new record.
    ///
    /// Fails with `DuplicateRecordError` exactly when an active record
    /// already carries the same title and username, and with `StoreError`
    /// exactly when the id is reserved or already taken; on failure the
    /// store is unchanged.
    pub fn insert(self, store: &mut Store) -> (r: Result<(), VaultError>)
        requires
            old(store).wf(),
            self.wf(),
        ensures
            final(store).wf(),
            match r {
                Ok(()) => {
                    &&& spec_insert_err(old(store).mimas@, self) is None
                    &&& final(store).mimas@ == old(store).mimas@.push(self)
                    &&& final(store).history@ == old(store).history@
                },
                Err(e) => {
                    &&& Some(e) == spec_insert_err(old(store).mimas@, self)
                    &&& *final(store) == *old(store)
                },
            },
    {
        if str_eq(self.id.as_str(), bootstrap_id_str()) {
            return Err(VaultError::StoreError);
        }
        match find_index(&store.mimas, self.id.as_str()) {
            Some(_) => {
                return Err(VaultError::StoreError);
            },
            None => {},
        }
        proof {
            assert(!has_id(old(store).mimas@, self.id@));
        }
        if self.deleted.is_none() {
            if find_conflict(&store.mimas, self.title.as_str(), self.username.as_str(), None) {
                return Err(VaultError::DuplicateRecordError);
            }
        }
        let ghost s0 = self;
        let ghost old_rs = store.mimas@;
        store.mimas.push(self);
        proof {
            lemma_mimas_wf_push(old_rs, s0);
        }
        Ok(())
    }
}

/// Why an update by `m` is refused, if it is: the record must exist and not
/// be the bootstrap record, and an active record may not take the title and
/// username of another active record.
pub open spec fn spec_update_err(rs: Seq<MimaItem>, m: MimaItem) -> Option<VaultError> {
    if is_bootstrap(m) || !has_id(rs, m.id@) {
        Some(VaultError::NotFoundError)
    } else if m.active() && has_conflict(rs, m.title@, m.username@, Some(m.id@)) {
        Some(VaultError::DuplicateRecordError)
    } else {
        None
    }
}

/// The suffix appended to a recovered record's title: the recovery time in
/// parentheses, so that the recovered record cannot collide with an active
/// record that reused its old title.
pub open spec fn recover_suffix(now: u64) -> Seq<char> {
    " ("@ + dec_str(now as int) + ")"@
}

/// `m` is the record `item` as overwritten from an edit form under key `k`:
/// title and username replaced (trimmed), each envelope kept byte for byte
/// when it already decrypts to the submitted plaintext and resealed
/// otherwise.
pub open spec fn updated_from(m: MimaItem, item: MimaItem, form: EditForm, k: Seq<u8>) -> bool {
    &&& m.id@ == item.id@
    &&& m.title@ == trim_spec(form.title@)
    &&& m.username@ == trim_spec(form.username@)
    &&& m.favorite == item.favorite
    &&& m.created == item.created
    &&& m.deleted == item.deleted
    &&& if opens_to(item.password, item.p_nonce, k) == Some(form.password@) {
        opt_bytes_eq(m.password, item.password) && opt_bytes_eq(m.p_nonce, item.p_nonce)
    } else {
        opens_to(m.password, m.p_nonce, k) == Some(form.password@) && ((m.password is Some)
            <==> form.password@.len() > 0)
    }
    &&& if opens_to(item.notes, item.n_nonce, k) == Some(form.notes@) {
        opt_bytes_eq(m.notes, item.notes) && opt_bytes_eq(m.n_nonce, item.n_nonce)
    } else {
        opens_to(m.notes, m.n_nonce, k) == Some(trim_spec(form.notes@)) && ((m.notes is Some)
            <==> trim_spec(form.notes@).len() > 0)
    }
}

impl MimaItem {
    /// Overwrite the stored record that carries this record's id.
    ///
    /// Fails with `NotFoundError` exactly when no such record exists (or the
    /// id is the reserved bootstrap id), and with `DuplicateRecordError`
    /// exactly when another active record carries the same title and
    /// username; on failure the store is unchanged.
    pub fn update(self, store: &mut Store) -> (r: Result<(), VaultError>)
        requires
            old(store).wf(),
            self.wf(),
        ensures
            final(store).wf(),
            match r {
                Ok(()) => {
                    &&& spec_update_err(old(store).mimas@, self) is None
                    &&& exists|i: int|
                        #![trigger old(store).mimas@[i]]
                        0 <= i < old(store).mimas@.len() && old(store).mimas@[i].id@ == self.id@
                            && final(store).mimas@ == old(store).mimas@.update(i, self)
                    &&& final(store).history@ == old(store).history@
                },
                Err(e) => {
                    &&& Some(e) == spec_update_err(old(store).mimas@, self)
                    &&& *final(store) == *old(store)
                },
            },
    {
        if str_eq(self.id.as_str(), bootstrap_id_str()) {
            return Err(VaultError::NotFoundError);
        }
        let idx = match find_index(&store.mimas, self.id.as_str()) {
            None => {
                return Err(VaultError::NotFoundError);
            },
            Some(i) => i,
        };
        proof {
            assert(has_id(store.mimas@, self.id@));
        }
        if self.deleted.is_none() {
            if find_conflict(
                &store.mimas,
                self.title.as_str(),
                self.username.as_str(),
                Some(&self.id),
            ) {
                return Err(VaultError::DuplicateRecordError);
            }
        }
        let ghost s0 = self;
        let ghost old_rs = store.mimas@;
        store.mimas.set(idx, self);
        proof {
            lemma_mimas_wf_update(old_rs, idx as int, s0);
        }
        Ok(())
    }

    /// The decrypted view of the record carrying `id`.
    pub fn get_by_id(id: &str, store: &Store, key: &Key) -> (r: Result<EditForm, VaultError>)
        requires
            store.wf(),
            key.wf(),
        ensures
            match r {
                Ok(f) => exists|i: int|
                    #![trigger store.mimas@[i]]
                    0 <= i < store.mimas@.len() && store.mimas@[i].id@ == id@ && !is_bootstrap(
                        store.mimas@[i],
                    ) && edit_matches(f, store.mimas@[i], key.bytes@),
                Err(e) => {
                    &&& (e == VaultError::NotFoundError <==> (id@ == spec_bootstrap_id()
                        || !has_id(store.mimas@, id@)))
                    &&& (e == VaultError::NotFoundError || e == VaultError::DecryptionError)
                    &&& (e == VaultError::DecryptionError ==> exists|i: int|
                        #![trigger store.mimas@[i]]
                        0 <= i < store.mimas@.len() && store.mimas@[i].id@ == id@ && (opens_to(
                            store.mimas@[i].password,
                            store.mimas@[i].p_nonce,
                            key.bytes@,
                        ) is None || opens_to(
                            store.mimas@[i].notes,
                            store.mimas@[i].n_nonce,
                            key.bytes@,
                        ) is None))
                },
            },
    {
        if str_eq(id, bootstrap_id_str()) {
            return Err(VaultError::NotFoundError);
        }
        match find_index(&store.mimas, id) {
            None => Err(VaultError::NotFoundError),
            Some(i) => {
                proof {
                    assert(has_id(store.mimas@, id@));
                }
                let item = &store.mimas[i];
                item.to_edit_form(key)
            },
        }
    }

    /// Rebuild the record named by an edit form: title and username
    /// overwritten (trimmed), password and notes re-encrypted only when the
    /// submitted plaintext differs from the stored one, so unchanged secrets
    /// keep their envelope bytes and see no needless nonce churn.
    pub fn from_edit_form(form: EditForm, store: &Store, key: &Key) -> (r: Result<
        MimaItem,
        VaultError,
    >)
        requires
            store.wf(),
            key.wf(),
            sealable(form.password@),
            sealable(form.notes@),
        ensures
            match r {
                Ok(m) => {
                    &&& m.wf()
                    &&& exists|i: int|
                        #![trigger store.mimas@[i]]
                        0 <= i < store.mimas@.len() && store.mimas@[i].id@ == form.id@
                            && !is_bootstrap(store.mimas@[i]) && updated_from(
                            m,
                            store.mimas@[i],
                            form,
                            key.bytes@,
                        )
                },
                Err(e) => {
                    &&& (e == VaultError::NotFoundError <==> (form.id@ == spec_bootstrap_id()
                        || !has_id(store.mimas@, form.id@)))
                    &&& (e == VaultError::NotFoundError || e == VaultError::DecryptionError)
                    &&& (e == VaultError::DecryptionError ==> exists|i: int|
                        #![trigger store.mimas@[i]]
                        0 <= i < store.mimas@.len() && store.mimas@[i].id@ == form.id@ && (
                        opens_to(
                            store.mimas@[i].password,
                            store.mimas@[i].p_nonce,
                            key.bytes@,
                        ) is None || opens_to(
                            store.mimas@[i].notes,
                            store.mimas@[i].n_nonce,
                            key.bytes@,
                        ) is None))
                },
            },
    {
        if str_eq(form.id.as_str(), bootstrap_id_str()) {
            return Err(VaultError::NotFoundError);
        }
        let idx = match find_index(&store.mimas, form.id.as_str()) {
            None => {
                return Err(VaultError::NotFoundError);
            },
            Some(i) => i,
        };
        proof {
            assert(has_id(store.mimas@, form.id@));
        }
        let item = &store.mimas[idx];
        let cur_pwd = match decrypt(&item.password, &item.p_nonce, key) {
            Ok(s) => s,
            Err(e) => {
                return Err(e);
            },
        };
        let cur_notes = match decrypt(&item.notes, &item.n_nonce, key) {
            Ok(s) => s,
            Err(e) => {
                return Err(e);
            },
        };
        let (password, p_nonce) = if str_eq(cur_pwd.as_str(), form.password.as_str()) {
            (copy_opt_bytes(&item.password), copy_opt_bytes(&item.p_nonce))
        } else {
            encrypt(form.password.as_str(), key)
        };
        let (notes, n_nonce) = if str_eq(cur_notes.as_str(), form.notes.as_str()) {
            (copy_opt_bytes(&item.notes), copy_opt_bytes(&item.n_nonce))
        } else {
            let trimmed = trim(form.notes.as_str());
            proof {
                lemma_trim_spec_len(form.notes@);
            }
            encrypt(trimmed.as_str(), key)
        };
        Ok(
            MimaItem {
                id: item.id.clone(),
                title: trim(form.title.as_str()),
                username: trim(form.username.as_str()),
                password,
                p_nonce,
                notes,
                n_nonce,
                favorite: item.favorite,
                created: item.created,
                deleted: item.deleted,
            },
        )
    }

    /// Soft-delete the record carrying `id`: set its deletion time and
    /// append a history snapshot of its pre-deletion state.
    pub fn mark_as_deleted(id: &str, store: &mut Store, now: u64) -> (r: Result<(), VaultError>)
        requires
            old(store).wf(),
        ensures
            final(store).wf(),
            match r {
                Ok(()) => {
                    &&& final(store).history@.len() == old(store).history@.len() + 1
                    &&& final(store).history@ == old(store).history@.push(
                        final(store).history@.last(),
                    )
                    &&& exists|i: int|
                        #![trigger old(store).mimas@[i]]
                        0 <= i < old(store).mimas@.len() && old(store).mimas@[i].id@ == id@
                            && !is_bootstrap(old(store).mimas@[i]) && final(store).mimas@ == old(
                            store,
                        ).mimas@.update(
                            i,
                            MimaItem { deleted: Some(now), ..old(store).mimas@[i] },
                        ) && snapshot_matches(
                            final(store).history@.last(),
                            old(store).mimas@[i],
                            now,
                        )
                },
                Err(e) => {
                    &&& *final(store) == *old(store)
                    &&& (e == VaultError::NotFoundError <==> (id@ == spec_bootstrap_id()
                        || !has_id(old(store).mimas@, id@)))
                    &&& (e == VaultError::NotFoundError || e == VaultError::StoreError)
                },
            },
    {
        if str_eq(id, bootstrap_id_str()) {
            return Err(VaultError::NotFoundError);
        }
        let idx = match find_index(&store.mimas, id) {
            None => {
                return Err(VaultError::NotFoundError);
            },
            Some(i) => i,
        };
        proof {
            assert(has_id(store.mimas@, id@));
        }
        let item_ref = &store.mimas[idx];
        let h = item_ref.snapshot(now);
        match find_hist_index(&store.history, h.id.as_str()) {
            Some(_) => {
                return Err(VaultError::StoreError);
            },
            None => {},
        }
        let ghost old_rs = store.mimas@;
        let ghost old_hs = store.history@;
        let mut item = store.mimas.remove(idx);
        let ghost item0 = item;
        item.deleted = Some(now);
        store.mimas.insert(idx, item);
        store.history.push(h);
        proof {
            let updated = MimaItem { deleted: Some(now), ..item0 };
            assert(store.mimas@ =~= old_rs.update(idx as int, updated));
            lemma_mimas_wf_update(old_rs, idx as int, updated);
            lemma_snapshot_wf(h, old_rs[idx as int], now);
            lemma_hist_wf_push(old_hs, h);
            assert(store.history@.last() == h);
        }
        Ok(())
    }

    /// Recover the record carrying `id` from the recycle bin: clear its
    /// deletion mark, reset its creation time (for ordering), and append
    /// the recovery time to its title so it cannot collide with an active
    /// record that reused the old title and username.
    pub fn recover(id: &str, store: &mut Store, now: u64) -> (r: Result<(), VaultError>)
        requires
            old(store).wf(),
        ensures
            final(store).wf(),
            final(store).history@ == old(store).history@,
            match r {
                Ok(()) => exists|i: int|
                    #![trigger old(store).mimas@[i]]
                    {
                        &&& 0 <= i < old(store).mimas@.len()
                        &&& old(store).mimas@[i].id@ == id@
                        &&& !is_bootstrap(old(store).mimas@[i])
                        &&& final(store).mimas@ == old(store).mimas@.update(
                            i,
                            final(store).mimas@[i],
                        )
                        &&& final(store).mimas@[i].id == old(store).mimas@[i].id
                        &&& final(store).mimas@[i].title@ == old(store).mimas@[i].title@
                            + recover_suffix(now)
                        &&& final(store).mimas@[i].username == old(store).mimas@[i].username
                        &&& final(store).mimas@[i].password == old(store).mimas@[i].password
                        &&& final(store).mimas@[i].p_nonce == old(store).mimas@[i].p_nonce
                        &&& final(store).mimas@[i].notes == old(store).mimas@[i].notes
                        &&& final(store).mimas@[i].n_nonce == old(store).mimas@[i].n_nonce
                        &&& final(store).mimas@[i].favorite == old(store).mimas@[i].favorite
                        &&& final(store).mimas@[i].created == now
                        &&& final(store).mimas@[i].deleted is None
                    },
                Err(e) => {
                    &&& *final(store) == *old(store)
                    &&& (e == VaultError::NotFoundError <==> (id@ == spec_bootstrap_id()
                        || !has_id(old(store).mimas@, id@)))
                    &&& (e == VaultError::NotFoundError || e == VaultError::DuplicateRecordError)
                    &&& (e == VaultError::DuplicateRecordError ==> exists|i: int|
                        #![trigger old(store).mimas@[i]]
                        0 <= i < old(store).mimas@.len() && old(store).mimas@[i].id@ == id@
                            && has_conflict(
                            old(store).mimas@,
                            old(store).mimas@[i].title@ + recover_suffix(now),
                            old(store).mimas@[i].username@,
                            Some(id@),
                        ))
                },
            },
    {
        if str_eq(id, bootstrap_id_str()) {
            return Err(VaultError::NotFoundError);
        }
        let idx = match find_index(&store.mimas, id) {
            None => {
                return Err(VaultError::NotFoundError);
            },
            Some(i) => i,
        };
        proof {
            assert(has_id(store.mimas@, id@));
        }
        let ts = u64_to_dec(now);
        let t1 = store.mimas[idx].title.clone();
        let t2 = t1.concat(" (");
        let t3 = t2.concat(ts.as_str());
        let new_title = t3.concat(")");
        proof {
            assert(new_title@ =~= store.mimas@[idx as int].title@ + recover_suffix(now));
        }
        if find_conflict(
            &store.mimas,
            new_title.as_str(),
            store.mimas[idx].username.as_str(),
            Some(&store.mimas[idx].id),
        ) {
            return Err(VaultError::DuplicateRecordError);
        }
        let ghost old_rs = store.mimas@;
        let mut item = store.mimas.remove(idx);
        item.title = new_title;
        item.created = now;
        item.deleted = None;
        store.mimas.insert(idx, item);
        proof {
            assert(store.mimas@ =~= old_rs.update(idx as int, store.mimas@[idx as int]));
            lemma_mimas_wf_update(old_rs, idx as int, store.mimas@[idx as int]);
        }
        Ok(())
    }

    /// Irreversibly remove the record carrying `id`.  History entries for it
    /// are kept.
    pub fn delete_forever(id: &str, store: &mut Store) -> (r: Result<(), VaultError>)
        requires
            old(store).wf(),
        ensures
            final(store).wf(),
            final(store).history@ == old(store).history@,
            match r {
                Ok(()) => exists|i: int|
                    #![trigger old(store).mimas@[i]]
                    0 <= i < old(store).mimas@.len() && old(store).mimas@[i].id@ == id@
                        && !is_bootstrap(old(store).mimas@[i]) && final(store).mimas@ == old(
                        store,
                    ).mimas@.remove(i),
                Err(e) => {
                    &&& *final(store) == *old(store)
                    &&& e == VaultError::NotFoundError
                    &&& (id@ == spec_bootstrap_id() || !has_id(old(store).mimas@, id@))
                },
            },
    {
        if str_eq(id, bootstrap_id_str()) {
            return Err(VaultError::NotFoundError);
        }
        let idx = match find_index(&store.mimas, id) {
            None => {
                return Err(VaultError::NotFoundError);
            },
            Some(i) => i,
        };
        let ghost old_rs = store.mimas@;
        let _ = store.mimas.remove(idx);
        proof {
            lemma_mimas_wf_remove(old_rs, idx as int);
        }
        Ok(())
    }
}

impl HistoryItem {
    /// Insert a new history snapshot.  Fails with `StoreError` exactly when
    /// the snapshot id is already taken.
    pub fn insert(self, store: &mut Store) -> (r: Result<(), VaultError>)
        requires
            old(store).wf(),
            self.wf(),
        ensures
            final(store).wf(),
            final(store).mimas@ == old(store).mimas@,
            match r {
                Ok(()) => !has_hist_id(old(store).history@, self.id@) && final(store).history@
                    == old(store).history@.push(self),
                Err(e) => e == VaultError::StoreError && has_hist_id(
                    old(store).history@,
                    self.id@,
                ) && *final(store) == *old(store),
            },
    {
        match find_hist_index(&store.history, self.id.as_str()) {
            Some(_) => {
                proof {
                    assert(has_hist_id(store.history@, self.id@));
                }
                Err(VaultError::StoreError)
            },
            None => {
                let ghost s0 = self;
                let ghost old_hs = store.history@;
                store.history.push(self);
                proof {
                    lemma_hist_wf_push(old_hs, s0);
                }
                Ok(())
            },
        }
    }

    /// The decrypted view of the history entry carrying `id`.
    pub fn get_by_id(id: &str, store: &Store, key: &Key) -> (r: Result<EditForm, VaultError>)
        requires
            store.wf(),
            key.wf(),
        ensures
            match r {
                Ok(f) => exists|i: int|
                    #![trigger store.history@[i]]
                    0 <= i < store.history@.len() && store.history@[i].id@ == id@
                        && edit_matches_hist(f, store.history@[i], key.bytes@),
                Err(e) => {
                    &&& (e == VaultError::NotFoundError <==> !has_hist_id(store.history@, id@))
                    &&& (e == VaultError::NotFoundError || e == VaultError::DecryptionError)
                    &&& (e == VaultError::DecryptionError ==> exists|i: int|
                        #![trigger store.history@[i]]
                        0 <= i < store.history@.len() && store.history@[i].id@ == id@ && (
                        opens_to(
                            store.history@[i].password,
                            store.history@[i].p_nonce,
                            key.bytes@,
                        ) is None || opens_to(
                            store.history@[i].notes,
                            store.history@[i].n_nonce,
                            key.bytes@,
                        ) is None))
                },
            },
    {
        match find_hist_index(&store.history, id) {
            None => Err(VaultError::NotFoundError),
            Some(i) => {
                proof {
                    assert(has_hist_id(store.history@, id@));
                }
                let item = &store.history[i];
                item.to_edit_form(key)
            },
        }
    }

    /// The id of the record a history entry snapshots.
    pub fn get_mima_id(history_id: &str, store: &Store) -> (r: Result<String, VaultError>)
        requires
            store.wf(),
        ensures
            match r {
                Ok(s) => exists|i: int|
                    #![trigger store.history@[i]]
                    0 <= i < store.history@.len() && store.history@[i].id@ == history_id@ && s@
                        == store.history@[i].mima_id@,
                Err(e) => e == VaultError::NotFoundError && !has_hist_id(
                    store.history@,
                    history_id@,
                ),
            },
    {
        match find_hist_index(&store.history, history_id) {
            None => Err(VaultError::NotFoundError),
            Some(i) => {
                proof {
                    assert(has_hist_id(store.history@, history_id@));
                }
                Ok(store.history[i].mima_id.clone())
            },
        }
    }

    /// Irreversibly remove the history entry carrying `id`.  The record it
    /// snapshots is unaffected.
    pub fn delete_forever(id: &str, store: &mut Store) -> (r: Result<(), VaultError>)
        requires
            old(store).wf(),
        ensures
            final(store).wf(),
            final(store).mimas@ == old(store).mimas@,
            match r {
                Ok(()) => exists|i: int|
                    #![trigger old(store).history@[i]]
                    0 <= i < old(store).history@.len() && old(store).history@[i].id@ == id@
                        && final(store).history@ == old(store).history@.remove(i),
                Err(e) => {
                    &&& *final(store) == *old(store)
                    &&& e == VaultError::NotFoundError
                    &&& !has_hist_id(old(store).history@, id@)
                },
            },
    {
        let idx = match find_hist_index(&store.history, id) {
            None => {
                return Err(VaultError::NotFoundError);
            },
            Some(i) => i,
        };
        let ghost old_hs = store.history@;
        let _ = store.history.remove(idx);
        proof {
            lemma_hist_wf_remove(old_hs, idx as int);
        }
        Ok(())
    }
}

/// Whether a record belongs to a listing: the active listing or the
/// recycle bin, the bootstrap record excluded from both.
pub open spec fn listed(m: MimaItem, in_bin: bool) -> bool {
    if in_bin {
        !m.active() && !is_bootstrap(m)
    } else {
        m.active() && !is_bootstrap(m)
    }
}

/// The sort key of a listed record: deletion time for the recycle bin,
/// creation time for the active listing.
pub open spec fn rec_key(m: MimaItem, in_bin: bool) -> int {
    if in_bin {
        match m.deleted {
            Option::Some(d) => d as int,
            Option::None => -1,
        }
    } else {
        m.created as int
    }
}

/// A listing pair `(key, index)` is sound for the records `rs`.
pub open spec fn pair_ok(p: (u64, usize), rs: Seq<MimaItem>, in_bin: bool) -> bool {
    &&& (p.1 as int) < rs.len()
    &&& listed(rs[p.1 as int], in_bin)
    &&& p.0 as int == rec_key(rs[p.1 as int], in_bin)
}

/// `ps` enumerates exactly the listed records of `rs`, each index once, in
/// descending key order.
pub open spec fn listing_perm(ps: Seq<(u64, usize)>, rs: Seq<MimaItem>, in_bin: bool) -> bool {
    &&& forall|t: int| 0 <= t < ps.len() ==> pair_ok(#[trigger] ps[t], rs, in_bin)
    &&& forall|j: int|
        0 <= j < rs.len() && listed(#[trigger] rs[j], in_bin) ==> exists|t: int|
            0 <= t < ps.len() && (#[trigger] ps[t]).1 as int == j
    &&& forall|t1: int, t2: int|
        0 <= t1 < t2 < ps.len() ==> (#[trigger] ps[t1]).0 >= (#[trigger] ps[t2]).0
    &&& forall|t1: int, t2: int|
        0 <= t1 < t2 < ps.len() ==> (#[trigger] ps[t1]).1 != (#[trigger] ps[t2]).1
}

/// A history pair `(deletion time, index)` is sound for snapshots of the
/// record `mid`.
pub open spec fn hist_pair_ok(p: (u64, usize), hs: Seq<HistoryItem>, mid: Seq<char>) -> bool {
    &&& (p.1 as int) < hs.len()
    &&& hs[p.1 as int].mima_id@ == mid
    &&& p.0 == hs[p.1 as int].deleted
}

/// `ps` enumerates exactly the snapshots of record `mid`, each index once,
/// most recently deleted first.
pub open spec fn hist_listing_perm(
    ps: Seq<(u64, usize)>,
    hs: Seq<HistoryItem>,
    mid: Seq<char>,
) -> bool {
    &&& forall|t: int| 0 <= t < ps.len() ==> hist_pair_ok(#[trigger] ps[t], hs, mid)
    &&& forall|j: int|
        0 <= j < hs.len() && (#[trigger] hs[j]).mima_id@ == mid ==> exists|t: int|
            0 <= t < ps.len() && (#[trigger] ps[t]).1 as int == j
    &&& forall|t1: int, t2: int|
        0 <= t1 < t2 < ps.len() ==> (#[trigger] ps[t1]).0 >= (#[trigger] ps[t2]).0
    &&& forall|t1: int, t2: int|
        0 <= t1 < t2 < ps.len() ==> (#[trigger] ps[t1]).1 != (#[trigger] ps[t2]).1
}

/// Whether a record belongs to the given listing.
fn is_listed(m: &MimaItem, in_bin: bool) -> (r: bool)
    ensures
        r == listed(*m, in_bin),
{
    let boot = str_eq(m.id.as_str(), bootstrap_id_str());
    if in_bin {
        m.deleted.is_some() && !boot
    } else {
        m.deleted.is_none() && !boot
    }
}

/// The `(key, index)` pairs of the listed records, in index order.
fn collect_pairs(mimas: &Vec<MimaItem>, in_bin: bool) -> (ps: Vec<(u64, usize)>)
    ensures
        forall|t: int| 0 <= t < ps@.len() ==> pair_ok(#[trigger] ps@[t], mimas@, in_bin),
        forall|j: int|
            0 <= j < mimas@.len() && listed(#[trigger] mimas@[j], in_bin) ==> exists|t: int|
                0 <= t < ps@.len() && (#[trigger] ps@[t]).1 as int == j,
        forall|t1: int, t2: int|
            0 <= t1 < t2 < ps@.len() ==> (#[trigger] ps@[t1]).1 < (#[trigger] ps@[t2]).1,
{
    let mut ps: Vec<(u64, usize)> = Vec::new();
    let mut i: usize = 0;
    while i < mimas.len()
        invariant
            i <= mimas@.len(),
            forall|t: int| 0 <= t < ps@.len() ==> pair_ok(#[trigger] ps@[t], mimas@, in_bin),
            forall|t: int| 0 <= t < ps@.len() ==> (#[trigger] ps@[t]).1 < i,
            forall|j: int|
                0 <= j < i && listed(#[trigger] mimas@[j], in_bin) ==> exists|t: int|
                    0 <= t < ps@.len() && (#[trigger] ps@[t]).1 as int == j,
            forall|t1: int, t2: int|
                0 <= t1 < t2 < ps@.len() ==> (#[trigger] ps@[t1]).1 < (#[trigger] ps@[t2]).1,
        decreases mimas@.len() - i,
    {
        let m = &mimas[i];
        if is_listed(m, in_bin) {
            let k: u64 = if in_bin {
                match &m.deleted {
                    Some(d) => *d,
                    None => 0,
                }
            } else {
                m.created
            };
            let ghost old_ps = ps@;
            ps.push((k, i));
            proof {
                assert forall|j: int| 0 <= j < i + 1 && listed(#[trigger] mimas@[j], in_bin)
                    implies exists|t: int|
                    0 <= t < ps@.len() && (#[trigger] ps@[t]).1 as int == j by {
                    if j < i {
                        let t = choose|t: int|
                            0 <= t < old_ps.len() && (#[trigger] old_ps[t]).1 as int == j;
                        assert((ps@[t]).1 as int == j);
                    } else {
                        assert((ps@[ps@.len() - 1]).1 as int == j);
                    }
                }
            }
        }
        i = i + 1;
    }
    ps
}

/// The `(deletion time, index)` pairs of the snapshots of record `mid`, in
/// index order.
fn collect_hist_pairs(history: &Vec<HistoryItem>, mid: &str) -> (ps: Vec<(u64, usize)>)
    ensures
        forall|t: int| 0 <= t < ps@.len() ==> hist_pair_ok(#[trigger] ps@[t], history@, mid@),
        forall|j: int|
            0 <= j < history@.len() && (#[trigger] history@[j]).mima_id@ == mid@ ==> exists|
                t: int,
            |
                0 <= t < ps@.len() && (#[trigger] ps@[t]).1 as int == j,
        forall|t1: int, t2: int|
            0 <= t1 < t2 < ps@.len() ==> (#[trigger] ps@[t1]).1 < (#[trigger] ps@[t2]).1,
{
    let mut ps: Vec<(u64, usize)> = Vec::new();
    let mut i: usize = 0;
    while i < history.len()
        invariant
            i <= history@.len(),
            forall|t: int| 0 <= t < ps@.len() ==> hist_pair_ok(#[trigger] ps@[t], history@, mid@),
            forall|t: int| 0 <= t < ps@.len() ==> (#[trigger] ps@[t]).1 < i,
            forall|j: int|
                0 <= j < i && (#[trigger] history@[j]).mima_id@ == mid@ ==> exists|t: int|
                    0 <= t < ps@.len() && (#[trigger] ps@[t]).1 as int == j,
            forall|t1: int, t2: int|
                0 <= t1 < t2 < ps@.len() ==> (#[trigger] ps@[t1]).1 < (#[trigger] ps@[t2]).1,
        decreases history@.len() - i,
    {
        let h = &history[i];
        if str_eq(h.mima_id.as_str(), mid) {
            let ghost old_ps = ps@;
            ps.push((h.deleted, i));
            proof {
                assert forall|j: int|
                    0 <= j < i + 1 && (#[trigger] history@[j]).mima_id@ == mid@ implies exists|
                    t: int,
                | 0 <= t < ps@.len() && (#[trigger] ps@[t]).1 as int == j by {
                    if j < i {
                        let t = choose|t: int|
                            0 <= t < old_ps.len() && (#[trigger] old_ps[t]).1 as int == j;
                        assert((ps@[t]).1 as int == j);
                    } else {
                        assert((ps@[ps@.len() - 1]).1 as int == j);
                    }
                }
            }
        }
        i = i + 1;
    }
    ps
}

/// Sort `(key, index)` pairs by key, descending: the result is a
/// permutation (same multiset) of the input in descending key order.
fn sort_pairs_desc(v: Vec<(u64, usize)>) -> (r: Vec<(u64, usize)>)
    ensures
        r@.to_multiset() == v@.to_multiset(),
        r@.len() == v@.len(),
        forall|t1: int, t2: int|
            0 <= t1 < t2 < r@.len() ==> (#[trigger] r@[t1]).0 >= (#[trigger] r@[t2]).0,
{
    let ghost v0 = v@;
    let mut rest = v;
    let mut out: Vec<(u64, usize)> = Vec::new();
    proof {
        broadcast use vstd::seq_lib::group_to_multiset_ensures;
        broadcast use vstd::multiset::group_multiset_axioms;

        assert(out@.to_multiset().add(rest@.to_multiset()) =~= v0.to_multiset());
    }
    while rest.len() > 0
        invariant
            out@.to_multiset().add(rest@.to_multiset()) == v0.to_multiset(),
            out@.len() + rest@.len() == v0.len(),
            forall|t1: int, t2: int|
                0 <= t1 < t2 < out@.len() ==> (#[trigger] out@[t1]).0 >= (#[trigger] out@[t2]).0,
            forall|a: int, b: int|
                0 <= a < out@.len() && 0 <= b < rest@.len() ==> (#[trigger] out@[a]).0
                    >= (#[trigger] rest@[b]).0,
        decreases rest@.len(),
    {
        let mut best: usize = 0;
        let mut q: usize = 1;
        while q < rest.len()
            invariant
                0 < rest@.len(),
                best < q,
                q <= rest@.len(),
                forall|t: int|
                    0 <= t < q ==> rest@[best as int].0 >= (#[trigger] rest@[t]).0,
            decreases rest@.len() - q,
        {
            if rest[q].0 > rest[best].0 {
                best = q;
            }
            q = q + 1;
        }
        let ghost old_rest = rest@;
        let ghost old_out = out@;
        let chosen = rest.remove(best);
        out.push(chosen);
        proof {
            broadcast use vstd::seq_lib::group_to_multiset_ensures;
            broadcast use vstd::multiset::group_multiset_axioms;

            assert(chosen == old_rest[best as int]);
            assert(rest@.to_multiset() =~= old_rest.to_multiset().remove(chosen));
            assert(out@.to_multiset() =~= old_out.to_multiset().insert(chosen));
            assert(old_rest.to_multiset().count(chosen) > 0) by {
                assert(old_rest.contains(chosen));
            }
            assert(out@.to_multiset().add(rest@.to_multiset()) =~= v0.to_multiset());
            assert forall|a: int, b: int|
                0 <= a < out@.len() && 0 <= b < rest@.len() implies (#[trigger] out@[a]).0
                >= (#[trigger] rest@[b]).0 by {
                let b0 = if b < best { b } else { b + 1 };
                assert(rest@[b] == old_rest[b0]);
                if a < old_out.len() {
                    assert(out@[a] == old_out[a]);
                } else {
                    assert(out@[a] == chosen);
                    assert(chosen.0 >= old_rest[b0].0);
                }
            }
            assert forall|t1: int, t2: int|
                0 <= t1 < t2 < out@.len() implies (#[trigger] out@[t1]).0
                >= (#[trigger] out@[t2]).0 by {
                if t2 < old_out.len() {
                } else {
                    assert(out@[t2] == chosen);
                    assert(out@[t1] == old_out[t1]);
                    assert(old_out[t1].0 >= old_rest[best as int].0);
                }
            }
        }
    }
    proof {
        broadcast use vstd::seq_lib::group_to_multiset_ensures;
        broadcast use vstd::multiset::group_multiset_axioms;

        assert forall|x: (u64, usize)| rest@.to_multiset().count(x) == 0 by {
            if rest@.to_multiset().count(x) > 0 {
                assert(rest@.contains(x));
            }
        }
        assert(rest@.to_multiset() =~= Multiset::<(u64, usize)>::empty());
        assert(out@.to_multiset() =~= v0.to_multiset());
    }
    out
}

proof fn lemma_sorted_listing(
    v: Seq<(u64, usize)>,
    s: Seq<(u64, usize)>,
    rs: Seq<MimaItem>,
    in_bin: bool,
)
    requires
        s.to_multiset() == v.to_multiset(),
        s.len() == v.len(),
        forall|t: int| 0 <= t < v.len() ==> pair_ok(#[trigger] v[t], rs, in_bin),
        forall|j: int|
            0 <= j < rs.len() && listed(#[trigger] rs[j], in_bin) ==> exists|t: int|
                0 <= t < v.len() && (#[trigger] v[t]).1 as int == j,
        forall|t1: int, t2: int|
            0 <= t1 < t2 < v.len() ==> (#[trigger] v[t1]).1 < (#[trigger] v[t2]).1,
        forall|t1: int, t2: int|
            0 <= t1 < t2 < s.len() ==> (#[trigger] s[t1]).0 >= (#[trigger] s[t2]).0,
    ensures
        listing_perm(s, rs, in_bin),
{
    broadcast use vstd::seq_lib::group_to_multiset_ensures;
    broadcast use vstd::multiset::group_multiset_axioms;

    assert forall|t: int| 0 <= t < s.len() implies pair_ok(#[trigger] s[t], rs, in_bin) by {
        assert(s.contains(s[t]));
        assert(s.to_multiset().count(s[t]) > 0);
        assert(v.to_multiset().count(s[t]) > 0);
        assert(v.contains(s[t]));
        let a = choose|a: int| 0 <= a < v.len() && v[a] == s[t];
        assert(pair_ok(v[a], rs, in_bin));
    }
    assert forall|j: int| 0 <= j < rs.len() && listed(#[trigger] rs[j], in_bin) implies exists|
        t: int,
    | 0 <= t < s.len() && (#[trigger] s[t]).1 as int == j by {
        let t0 = choose|t0: int| 0 <= t0 < v.len() && (#[trigger] v[t0]).1 as int == j;
        assert(v.contains(v[t0]));
        assert(v.to_multiset().count(v[t0]) > 0);
        assert(s.to_multiset().count(v[t0]) > 0);
        assert(s.contains(v[t0]));
        let t1 = choose|t1: int| 0 <= t1 < s.len() && s[t1] == v[t0];
        assert(0 <= t1 < s.len() && (s[t1]).1 as int == j);
    }
    assert(v.no_duplicates()) by {
        assert forall|i: int, j: int|
            0 <= i < v.len() && 0 <= j < v.len() && i != j implies v[i] != v[j] by {
            if i < j {
                assert(v[i].1 < v[j].1);
            } else {
                assert(v[j].1 < v[i].1);
            }
        }
    }
    v.lemma_multiset_has_no_duplicates();
    s.lemma_multiset_has_no_duplicates_conv();
    assert forall|t1: int, t2: int|
        0 <= t1 < t2 < s.len() implies (#[trigger] s[t1]).1 != (#[trigger] s[t2]).1 by {
        assert(s[t1] != s[t2]);
        if s[t1].1 == s[t2].1 {
            assert(s.contains(s[t1]));
            assert(s.to_multiset().count(s[t1]) > 0);
            assert(v.to_multiset().count(s[t1]) > 0);
            assert(v.contains(s[t1]));
            assert(s.contains(s[t2]));
            assert(s.to_multiset().count(s[t2]) > 0);
            assert(v.to_multiset().count(s[t2]) > 0);
            assert(v.contains(s[t2]));
            let a = choose|a: int| 0 <= a < v.len() && v[a] == s[t1];
            let b = choose|b: int| 0 <= b < v.len() && v[b] == s[t2];
            assert(a != b);
            if a < b {
                assert(v[a].1 < v[b].1);
            } else {
                assert(v[b].1 < v[a].1);
            }
        }
    }
}

proof fn lemma_sorted_hist_listing(
    v: Seq<(u64, usize)>,
    s: Seq<(u64, usize)>,
    hs: Seq<HistoryItem>,
    mid: Seq<char>,
)
    requires
        s.to_multiset() == v.to_multiset(),
        s.len() == v.len(),
        forall|t: int| 0 <= t < v.len() ==> hist_pair_ok(#[trigger] v[t], hs, mid),
        forall|j: int|
            0 <= j < hs.len() && (#[trigger] hs[j]).mima_id@ == mid ==> exists|t: int|
                0 <= t < v.len() && (#[trigger] v[t]).1 as int == j,
        forall|t1: int, t2: int|
            0 <= t1 < t2 < v.len() ==> (#[trigger] v[t1]).1 < (#[trigger] v[t2]).1,
        forall|t1: int, t2: int|
            0 <= t1 < t2 < s.len() ==> (#[trigger] s[t1]).0 >= (#[trigger] s[t2]).0,
    ensures
        hist_listing_perm(s, hs, mid),
{
    broadcast use vstd::seq_lib::group_to_multiset_ensures;
    broadcast use vstd::multiset::group_multiset_axioms;

    assert forall|t: int| 0 <= t < s.len() implies hist_pair_ok(#[trigger] s[t], hs, mid) by {
        assert(s.contains(s[t]));
        assert(s.to_multiset().count(s[t]) > 0);
        assert(v.to_multiset().count(s[t]) > 0);
        assert(v.contains(s[t]));
        let a = choose|a: int| 0 <= a < v.len() && v[a] == s[t];
        assert(hist_pair_ok(v[a], hs, mid));
    }
    assert forall|j: int| 0 <= j < hs.len() && (#[trigger] hs[j]).mima_id@ == mid implies exists|
        t: int,
    | 0 <= t < s.len() && (#[trigger] s[t]).1 as int == j by {
        let t0 = choose|t0: int| 0 <= t0 < v.len() && (#[trigger] v[t0]).1 as int == j;
        assert(v.contains(v[t0]));
        assert(v.to_multiset().count(v[t0]) > 0);
        assert(s.to_multiset().count(v[t0]) > 0);
        assert(s.contains(v[t0]));
        let t1 = choose|t1: int| 0 <= t1 < s.len() && s[t1] == v[t0];
        assert(0 <= t1 < s.len() && (s[t1]).1 as int == j);
    }
    assert(v.no_duplicates()) by {
        assert forall|i: int, j: int|
            0 <= i < v.len() && 0 <= j < v.len() && i != j implies v[i] != v[j] by {
            if i < j {
                assert(v[i].1 < v[j].1);
            } else {
                assert(v[j].1 < v[i].1);
            }
        }
    }
    v.lemma_multiset_has_no_duplicates();
    s.lemma_multiset_has_no_duplicates_conv();
    assert forall|t1: int, t2: int|
        0 <= t1 < t2 < s.len() implies (#[trigger] s[t1]).1 != (#[trigger] s[t2]).1 by {
        assert(s[t1] != s[t2]);
        if s[t1].1 == s[t2].1 {
            assert(s.contains(s[t1]));
            assert(s.to_multiset().count(s[t1]) > 0);
            assert(v.to_multiset().count(s[t1]) > 0);
            assert(v.contains(s[t1]));
            assert(s.contains(s[t2]));
            assert(s.to_multiset().count(s[t2]) > 0);
            assert(v.to_multiset().count(s[t2]) > 0);
            assert(v.contains(s[t2]));
            let a = choose|a: int| 0 <= a < v.len() && v[a] == s[t1];
            let b = choose|b: int| 0 <= b < v.len() && v[b] == s[t2];
            assert(a != b);
            if a < b {
                assert(v[a].1 < v[b].1);
            } else {
                assert(v[b].1 < v[a].1);
            }
        }
    }
}

impl MimaItem {
    /// The active records, most recently created first, as masked views:
    /// no key is needed, secrets show only as present or absent.  The
    /// bootstrap record and soft-deleted records are excluded.
    pub fn all(store: &Store) -> (r: Vec<EditForm>)
        requires
            store.wf(),
        ensures
            exists|ps: Seq<(u64, usize)>|
                #![trigger listing_perm(ps, store.mimas@, false)]
                {
                    &&& listing_perm(ps, store.mimas@, false)
                    &&& r@.len() == ps.len()
                    &&& forall|t: int|
                        0 <= t < ps.len() ==> simple_matches(
                            #[trigger] r@[t],
                            store.mimas@[ps[t].1 as int],
                        )
                },
    {
        let pairs = collect_pairs(&store.mimas, false);
        let ghost v0 = pairs@;
        let sorted = sort_pairs_desc(pairs);
        proof {
            lemma_sorted_listing(v0, sorted@, store.mimas@, false);
        }
        let mut out: Vec<EditForm> = Vec::new();
        let mut t: usize = 0;
        while t < sorted.len()
            invariant
                store.wf(),
                listing_perm(sorted@, store.mimas@, false),
                t <= sorted@.len(),
                out@.len() == t,
                forall|u: int|
                    0 <= u < t ==> simple_matches(
                        #[trigger] out@[u],
                        store.mimas@[sorted@[u].1 as int],
                    ),
            decreases sorted@.len() - t,
        {
            let idx = sorted[t].1;
            let item = &store.mimas[idx];
            out.push(item.to_simple());
            t = t + 1;
        }
        proof {
            assert(listing_perm(sorted@, store.mimas@, false));
        }
        out
    }

    /// The soft-deleted records, most recently deleted first, decrypted
    /// under `key`.  The bootstrap record is excluded.
    pub fn recyclebin(store: &Store, key: &Key) -> (r: Result<Vec<EditForm>, VaultError>)
        requires
            store.wf(),
            key.wf(),
        ensures
            match r {
                Ok(v) => exists|ps: Seq<(u64, usize)>|
                    #![trigger listing_perm(ps, store.mimas@, true)]
                    {
                        &&& listing_perm(ps, store.mimas@, true)
                        &&& v@.len() == ps.len()
                        &&& forall|t: int|
                            0 <= t < ps.len() ==> edit_matches(
                                #[trigger] v@[t],
                                store.mimas@[ps[t].1 as int],
                                key.bytes@,
                            )
                    },
                Err(e) => e == VaultError::DecryptionError && exists|i: int|
                    #![trigger store.mimas@[i]]
                    0 <= i < store.mimas@.len() && listed(store.mimas@[i], true) && (opens_to(
                        store.mimas@[i].password,
                        store.mimas@[i].p_nonce,
                        key.bytes@,
                    ) is None || opens_to(
                        store.mimas@[i].notes,
                        store.mimas@[i].n_nonce,
                        key.bytes@,
                    ) is None),
            },
    {
        let pairs = collect_pairs(&store.mimas, true);
        let ghost v0 = pairs@;
        let sorted = sort_pairs_desc(pairs);
        proof {
            lemma_sorted_listing(v0, sorted@, store.mimas@, true);
        }
        let mut out: Vec<EditForm> = Vec::new();
        let mut t: usize = 0;
        while t < sorted.len()
            invariant
                store.wf(),
                key.wf(),
                listing_perm(sorted@, store.mimas@, true),
                t <= sorted@.len(),
                out@.len() == t,
                forall|u: int|
                    0 <= u < t ==> edit_matches(
                        #[trigger] out@[u],
                        store.mimas@[sorted@[u].1 as int],
                        key.bytes@,
                    ),
            decreases sorted@.len() - t,
        {
            let idx = sorted[t].1;
            let item = &store.mimas[idx];
            match item.to_edit_form(key) {
                Ok(f) => {
                    out.push(f);
                },
                Err(e) => {
                    return Err(e);
                },
            }
            t = t + 1;
        }
        proof {
            assert(listing_perm(sorted@, store.mimas@, true));
        }
        Ok(out)
    }
}

impl HistoryItem {
    /// All snapshots of the record carrying `id`, most recently deleted
    /// first, decrypted under `key`.
    pub fn get_by_mima_id(id: &str, store: &Store, key: &Key) -> (r: Result<
        Vec<EditForm>,
        VaultError,
    >)
        requires
            store.wf(),
            key.wf(),
        ensures
            match r {
                Ok(v) => exists|ps: Seq<(u64, usize)>|
                    #![trigger hist_listing_perm(ps, store.history@, id@)]
                    {
                        &&& hist_listing_perm(ps, store.history@, id@)
                        &&& v@.len() == ps.len()
                        &&& forall|t: int|
                            0 <= t < ps.len() ==> edit_matches_hist(
                                #[trigger] v@[t],
                                store.history@[ps[t].1 as int],
                                key.bytes@,
                            )
                    },
                Err(e) => e == VaultError::DecryptionError && exists|i: int|
                    #![trigger store.history@[i]]
                    0 <= i < store.history@.len() && store.history@[i].mima_id@ == id@ && (
                    opens_to(
                        store.history@[i].password,
                        store.history@[i].p_nonce,
                        key.bytes@,
                    ) is None || opens_to(
                        store.history@[i].notes,
                        store.history@[i].n_nonce,
                        key.bytes@,
                    ) is None),
            },
    {
        let pairs = collect_hist_pairs(&store.history, id);
        let ghost v0 = pairs@;
        let sorted = sort_pairs_desc(pairs);
        proof {
            lemma_sorted_hist_listing(v0, sorted@, store.history@, id@);
        }
        let mut out: Vec<EditForm> = Vec::new();
        let mut t: usize = 0;
        while t < sorted.len()
            invariant
                store.wf(),
                key.wf(),
                hist_listing_perm(sorted@, store.history@, id@),
                t <= sorted@.len(),
                out@.len() == t,
                forall|u: int|
                    0 <= u < t ==> edit_matches_hist(
                        #[trigger] out@[u],
                        store.history@[sorted@[u].1 as int],
                        key.bytes@,
                    ),
            decreases sorted@.len() - t,
        {
            let idx = sorted[t].1;
            let item = &store.history[idx];
            match item.to_edit_form(key) {
                Ok(f) => {
                    out.push(f);
                },
                Err(e) => {
                    return Err(e);
                },
            }
            t = t + 1;
        }
        proof {
            assert(hist_listing_perm(sorted@, store.history@, id@));
        }
        Ok(out)
    }
}

/// The fixed known plaintext sealed into the bootstrap record; decrypting
/// it verifies a passphrase at login.
pub open spec fn spec_probe_text() -> Seq<char> {
    "mima account probe"@
}

/// The bootstrap probe plaintext.
pub fn probe_text() -> (r: &'static str)
    ensures
        r@ == spec_probe_text(),
        0 < r@.len() <= 100,
{
    let s = "mima account probe";
    proof {
        reveal_strlit("mima account probe");
    }
    s
}

impl Store {
    /// Whether a vault has been created: the bootstrap record exists.
    pub fn is_initialized(&self) -> (r: bool)
        ensures
            r == has_id(self.mimas@, spec_bootstrap_id()),
    {
        match find_index(&self.mimas, bootstrap_id_str()) {
            Some(i) => {
                proof {
                    assert(has_id(self.mimas@, spec_bootstrap_id()));
                }
                true
            },
            None => false,
        }
    }

    /// Create the account: seal the fixed probe text under the key derived
    /// from `passphrase` and store it in the bootstrap record.  Fails with
    /// `DuplicateRecordError` when the vault already exists (or an active
    /// record blocks the bootstrap record's empty title and username).
    pub fn create_account(&mut self, passphrase: &str, now: u64) -> (r: Result<(), VaultError>)
        requires
            old(self).wf(),
        ensures
            final(self).wf(),
            final(self).history@ == old(self).history@,
            match r {
                Ok(()) => {
                    &&& !has_id(old(self).mimas@, spec_bootstrap_id())
                    &&& final(self).mimas@.len() == old(self).mimas@.len() + 1
                    &&& final(self).mimas@ == old(self).mimas@.push(final(self).mimas@.last())
                    &&& is_bootstrap(final(self).mimas@.last())
                    &&& bootstrap_shape(final(self).mimas@.last())
                    &&& opens_to(
                        final(self).mimas@.last().password,
                        final(self).mimas@.last().p_nonce,
                        key_of(passphrase@),
                    ) == Some(spec_probe_text())
                    &&& final(self).mimas@.last().created == now
                    &&& !final(self).mimas@.last().favorite
                },
                Err(e) => {
                    &&& *final(self) == *old(self)
                    &&& e == VaultError::DuplicateRecordError
                    &&& (has_id(old(self).mimas@, spec_bootstrap_id()) || has_conflict(
                        old(self).mimas@,
                        Seq::<char>::empty(),
                        Seq::<char>::empty(),
                        None,
                    ))
                },
            },
    {
        match find_index(&self.mimas, bootstrap_id_str()) {
            Some(_) => {
                proof {
                    assert(has_id(self.mimas@, spec_bootstrap_id()));
                }
                return Err(VaultError::DuplicateRecordError);
            },
            None => {},
        }
        proof {
            reveal_strlit("");
            assert(""@ =~= Seq::<char>::empty());
        }
        if find_conflict(&self.mimas, "", "", None) {
            return Err(VaultError::DuplicateRecordError);
        }
        let key = derive_key(passphrase);
        let (cipher, nonce) = encrypt(probe_text(), &key);
        let item = MimaItem {
            id: bootstrap_id_str().to_owned(),
            title: String::new(),
            username: String::new(),
            password: cipher,
            p_nonce: nonce,
            notes: None,
            n_nonce: None,
            favorite: false,
            created: now,
            deleted: None,
        };
        let ghost item0 = item;
        let ghost old_rs = self.mimas@;
        self.mimas.push(item);
        proof {
            assert(""@ =~= Seq::<char>::empty());
            lemma_mimas_wf_push(old_rs, item0);
            assert(self.mimas@.last() == item0);
        }
        Ok(())
    }
}

/// Soft-delete/recover round trip: soft-deleting a record and recovering
/// it afterwards leaves every envelope byte exactly as it was, clears the
/// deletion mark, and gives the record a title distinct from its old one.
pub fn soft_delete_then_recover(id: &str, store: &mut Store, now1: u64, now2: u64) -> (r: Result<
    (),
    VaultError,
>)
    requires
        old(store).wf(),
    ensures
        final(store).wf(),
        r is Ok ==> exists|i: int|
            #![trigger old(store).mimas@[i]]
            {
                &&& 0 <= i < old(store).mimas@.len()
                &&& old(store).mimas@[i].id@ == id@
                &&& 0 <= i < final(store).mimas@.len()
                &&& final(store).mimas@[i].id@ == id@
                &&& final(store).mimas@[i].password == old(store).mimas@[i].password
                &&& final(store).mimas@[i].p_nonce == old(store).mimas@[i].p_nonce
                &&& final(store).mimas@[i].notes == old(store).mimas@[i].notes
                &&& final(store).mimas@[i].n_nonce == old(store).mimas@[i].n_nonce
                &&& final(store).mimas@[i].deleted is None
                &&& final(store).mimas@[i].title@ == old(store).mimas@[i].title@
                    + recover_suffix(now2)
                &&& final(store).mimas@[i].title@ != old(store).mimas@[i].title@
            },
{
    let ghost s_old = *store;
    let r1 = MimaItem::mark_as_deleted(id, store, now1);
    match r1 {
        Err(e) => {
            return Err(e);
        },
        Ok(()) => {},
    }
    let ghost s_mid = *store;
    let r2 = MimaItem::recover(id, store, now2);
    match r2 {
        Err(e) => {
            return Err(e);
        },
        Ok(()) => {},
    }
    proof {
        let i1 = choose|i: int|
            #![trigger s_old.mimas@[i]]
            0 <= i < s_old.mimas@.len() && s_old.mimas@[i].id@ == id@ && !is_bootstrap(
                s_old.mimas@[i],
            ) && s_mid.mimas@ == s_old.mimas@.update(
                i,
                MimaItem { deleted: Some(now1), ..s_old.mimas@[i] },
            ) && snapshot_matches(s_mid.history@.last(), s_old.mimas@[i], now1);
        let i2 = choose|i: int|
            #![trigger s_mid.mimas@[i]]
            {
                &&& 0 <= i < s_mid.mimas@.len()
                &&& s_mid.mimas@[i].id@ == id@
                &&& !is_bootstrap(s_mid.mimas@[i])
                &&& store.mimas@ == s_mid.mimas@.update(i, store.mimas@[i])
                &&& store.mimas@[i].id == s_mid.mimas@[i].id
                &&& store.mimas@[i].title@ == s_mid.mimas@[i].title@ + recover_suffix(now2)
                &&& store.mimas@[i].username == s_mid.mimas@[i].username
                &&& store.mimas@[i].password == s_mid.mimas@[i].password
                &&& store.mimas@[i].p_nonce == s_mid.mimas@[i].p_nonce
                &&& store.mimas@[i].notes == s_mid.mimas@[i].notes
                &&& store.mimas@[i].n_nonce == s_mid.mimas@[i].n_nonce
                &&& store.mimas@[i].favorite == s_mid.mimas@[i].favorite
                &&& store.mimas@[i].created == now2
                &&& store.mimas@[i].deleted is None
            };
        if i1 != i2 {
            assert(s_mid.mimas@[i1].id@ == id@);
            assert(s_mid.mimas@[i2].id@ == id@);
            assert(false);
        }
        assert(s_mid.mimas@[i1].title@ == s_old.mimas@[i1].title@);
        reveal_strlit(" (");
        reveal_strlit(")");
        crate::text::lemma_dec_str_len(now2 as int);
        assert(recover_suffix(now2).len() > 0);
        assert(store.mimas@[i1].title@.len() > s_old.mimas@[i1].title@.len());
    }
    Ok(())
}

} // verus!
