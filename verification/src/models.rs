//! The record entities: a vault record, its immutable history snapshot, and
//! the decryption capability the two share.

use vstd::prelude::*;
use vstd::string::*;

use crate::crypto::{copy_bytes, decrypt, encrypt, opens_to, pair_wf, sealable, Key};
use crate::errors::VaultError;
use crate::forms::{AddForm, EditForm};
use crate::text::{lemma_trim_spec_len, trim, trim_spec};

verus! {

/// The masking marker shown in place of a present password or note in
/// listings that do not decrypt.
pub open spec fn mask_seq() -> Seq<char> {
    "******"@
}

/// One stored credential record.
///
/// `password`/`p_nonce` and `notes`/`n_nonce` are envelopes: both halves
/// present or both absent, absence meaning "no value stored".  `deleted`
/// is `None` while the record is active and carries the soft-deletion time
/// otherwise.
pub struct MimaItem {
    pub id: String,
    pub title: String,
    pub username: String,
    pub password: Option<Vec<u8>>,
    pub p_nonce: Option<Vec<u8>>,
    pub notes: Option<Vec<u8>>,
    pub n_nonce: Option<Vec<u8>>,
    pub favorite: bool,
    pub created: u64,
    pub deleted: Option<u64>,
}

/// One immutable snapshot of a record, taken when the record is soft
/// deleted.  It copies the ciphertext and nonce bytes verbatim and is never
/// updated, only inserted or purged.
pub struct HistoryItem {
    pub id: String,
    pub mima_id: String,
    pub title: String,
    pub username: String,
    pub password: Option<Vec<u8>>,
    pub p_nonce: Option<Vec<u8>>,
    pub notes: Option<Vec<u8>>,
    pub n_nonce: Option<Vec<u8>>,
    pub deleted: u64,
}

/// Two optional byte vectors hold the same bytes.
pub open spec fn opt_bytes_eq(a: Option<Vec<u8>>, b: Option<Vec<u8>>) -> bool {
    match (a, b) {
        (Option::None, Option::None) => true,
        (Option::Some(x), Option::Some(y)) => x@ == y@,
        _ => false,
    }
}

/// `h` is a faithful snapshot of `m` taken at time `now`: same title,
/// username and envelope bytes, under a fresh 32-character id.
pub open spec fn snapshot_matches(h: HistoryItem, m: MimaItem, now: u64) -> bool {
    &&& h.id@.len() == 32
    &&& h.mima_id@ == m.id@
    &&& h.title@ == m.title@
    &&& h.username@ == m.username@
    &&& opt_bytes_eq(h.password, m.password)
    &&& opt_bytes_eq(h.p_nonce, m.p_nonce)
    &&& opt_bytes_eq(h.notes, m.notes)
    &&& opt_bytes_eq(h.n_nonce, m.n_nonce)
    &&& h.deleted == now
}

/// `f` is the decrypted view of record `m` under key `k`.
pub open spec fn edit_matches(f: EditForm, m: MimaItem, k: Seq<u8>) -> bool {
    &&& f.id@ == m.id@
    &&& f.title@ == m.title@
    &&& f.username@ == m.username@
    &&& opens_to(m.password, m.p_nonce, k) == Some(f.password@)
    &&& opens_to(m.notes, m.n_nonce, k) == Some(f.notes@)
    &&& f.favorite == m.favorite
}

/// `f` is the decrypted view of snapshot `h` under key `k`; snapshots carry
/// no favorite flag.
pub open spec fn edit_matches_hist(f: EditForm, h: HistoryItem, k: Seq<u8>) -> bool {
    &&& f.id@ == h.id@
    &&& f.title@ == h.title@
    &&& f.username@ == h.username@
    &&& opens_to(h.password, h.p_nonce, k) == Some(f.password@)
    &&& opens_to(h.notes, h.n_nonce, k) == Some(f.notes@)
    &&& !f.favorite
}

/// `f` is the masked view of record `m`: secrets are not decrypted, a
/// present password or note shows as the masking marker, an absent one as
/// empty.
pub open spec fn simple_matches(f: EditForm, m: MimaItem) -> bool {
    &&& f.id@ == m.id@
    &&& f.title@ == m.title@
    &&& f.username@ == m.username@
    &&& f.password@ == if m.password is Some {
        mask_seq()
    } else {
        Seq::<char>::empty()
    }
    &&& f.notes@ == if m.notes is Some {
        mask_seq()
    } else {
        Seq::<char>::empty()
    }
    &&& f.favorite == m.favorite
}

/// A lowercase hexadecimal digit, as uuid's simple format writes them.
pub open spec fn is_hex_lower(c: char) -> bool {
    ('0' <= c && c <= '9') || ('a' <= c && c <= 'f')
}

/// Relies on the uuid crate's `Uuid::new_v4` with simple formatting: the
/// rendering of a fresh uuid is 32 lowercase hexadecimal characters.  The
/// value is random, so nothing more is assumed of it.
#[verifier::external_body]
pub fn uuid_simple() -> (r: String)
    ensures
        r@.len() == 32,
        forall|i: int| 0 <= i < r@.len() ==> is_hex_lower(#[trigger] r@[i]),
{
    uuid::Uuid::new_v4().simple().to_string()
}

/// A copy of an optional byte vector, byte for byte.
pub fn copy_opt_bytes(v: &Option<Vec<u8>>) -> (r: Option<Vec<u8>>)
    ensures
        r is Some <==> v is Some,
        r matches Some(rv) ==> (v matches Some(v0) && rv@ == v0@),
{
    match v {
        None => None,
        Some(b) => Some(copy_bytes(b)),
    }
}

/// Access to the two field envelopes of an entity, and their decryption.
/// Implemented by [`MimaItem`] and [`HistoryItem`].
pub trait Decryptable {
    /// The password envelope, as a spec-level pair.
    spec fn password_pair(&self) -> (Option<Vec<u8>>, Option<Vec<u8>>);

    /// The notes envelope, as a spec-level pair.
    spec fn notes_pair(&self) -> (Option<Vec<u8>>, Option<Vec<u8>>);

    /// The password ciphertext and its nonce.
    fn password_and_nonce(&self) -> (r: (&Option<Vec<u8>>, &Option<Vec<u8>>))
        ensures
            (*r.0, *r.1) == self.password_pair(),
    ;

    /// The notes ciphertext and its nonce.
    fn notes_and_nonce(&self) -> (r: (&Option<Vec<u8>>, &Option<Vec<u8>>))
        ensures
            (*r.0, *r.1) == self.notes_pair(),
    ;

    /// The decrypted password; empty when none is stored.
    fn pwd_decrypt(&self, key: &Key) -> (r: Result<String, VaultError>)
        requires
            key.wf(),
        ensures
            match r {
                Ok(s) => opens_to(self.password_pair().0, self.password_pair().1, key.bytes@)
                    == Some(s@),
                Err(e) => e == VaultError::DecryptionError && opens_to(
                    self.password_pair().0,
                    self.password_pair().1,
                    key.bytes@,
                ) is None,
            },
    ;

    /// The decrypted notes; empty when none are stored.
    fn notes_decrypt(&self, key: &Key) -> (r: Result<String, VaultError>)
        requires
            key.wf(),
        ensures
            match r {
                Ok(s) => opens_to(self.notes_pair().0, self.notes_pair().1, key.bytes@) == Some(
                    s@,
                ),
                Err(e) => e == VaultError::DecryptionError && opens_to(
                    self.notes_pair().0,
                    self.notes_pair().1,
                    key.bytes@,
                ) is None,
            },
    ;
}

impl Decryptable for MimaItem {
    open spec fn password_pair(&self) -> (Option<Vec<u8>>, Option<Vec<u8>>) {
        (self.password, self.p_nonce)
    }

    open spec fn notes_pair(&self) -> (Option<Vec<u8>>, Option<Vec<u8>>) {
        (self.notes, self.n_nonce)
    }

    fn password_and_nonce(&self) -> (r: (&Option<Vec<u8>>, &Option<Vec<u8>>)) {
        (&self.password, &self.p_nonce)
    }

    fn notes_and_nonce(&self) -> (r: (&Option<Vec<u8>>, &Option<Vec<u8>>)) {
        (&self.notes, &self.n_nonce)
    }

    fn pwd_decrypt(&self, key: &Key) -> (r: Result<String, VaultError>) {
        decrypt(&self.password, &self.p_nonce, key)
    }

    fn notes_decrypt(&self, key: &Key) -> (r: Result<String, VaultError>) {
        decrypt(&self.notes, &self.n_nonce, key)
    }
}

impl Decryptable for HistoryItem {
    open spec fn password_pair(&self) -> (Option<Vec<u8>>, Option<Vec<u8>>) {
        (self.password, self.p_nonce)
    }

    open spec fn notes_pair(&self) -> (Option<Vec<u8>>, Option<Vec<u8>>) {
        (self.notes, self.n_nonce)
    }

    fn password_and_nonce(&self) -> (r: (&Option<Vec<u8>>, &Option<Vec<u8>>)) {
        (&self.password, &self.p_nonce)
    }

    fn notes_and_nonce(&self) -> (r: (&Option<Vec<u8>>, &Option<Vec<u8>>)) {
        (&self.notes, &self.n_nonce)
    }

    fn pwd_decrypt(&self, key: &Key) -> (r: Result<String, VaultError>) {
        decrypt(&self.password, &self.p_nonce, key)
    }

    fn notes_decrypt(&self, key: &Key) -> (r: Result<String, VaultError>) {
        decrypt(&self.notes, &self.n_nonce, key)
    }
}

impl MimaItem {
    /// Both envelopes of the record are well formed.
    pub open spec fn wf(&self) -> bool {
        &&& pair_wf(self.password, self.p_nonce)
        &&& pair_wf(self.notes, self.n_nonce)
    }

    /// An active record: not soft-deleted.
    pub open spec fn active(&self) -> bool {
        self.deleted is None
    }

    /// Build a record from an add form: title and username trimmed, password
    /// sealed as submitted, notes trimmed and sealed, a fresh random id, not
    /// a favorite, created now, not deleted.
    pub fn from_add_form(form: AddForm, key: &Key, now: u64) -> (r: MimaItem)
        requires
            key.wf(),
            sealable(form.password@),
            sealable(form.notes@),
        ensures
            r.wf(),
            r.id@.len() == 32,
            r.title@ == trim_spec(form.title@),
            r.username@ == trim_spec(form.username@),
            opens_to(r.password, r.p_nonce, key.bytes@) == Some(form.password@),
            (r.password is Some) <==> form.password@.len() > 0,
            opens_to(r.notes, r.n_nonce, key.bytes@) == Some(trim_spec(form.notes@)),
            (r.notes is Some) <==> trim_spec(form.notes@).len() > 0,
            !r.favorite,
            r.created == now,
            r.deleted is None,
    {
        let (password, p_nonce) = encrypt(form.password.as_str(), key);
        let notes_trimmed = trim(form.notes.as_str());
        proof {
            lemma_trim_spec_len(form.notes@);
        }
        let (notes, n_nonce) = encrypt(notes_trimmed.as_str(), key);
        MimaItem {
            id: uuid_simple(),
            title: trim(form.title.as_str()),
            username: trim(form.username.as_str()),
            password,
            p_nonce,
            notes,
            n_nonce,
            favorite: false,
            created: now,
            deleted: None,
        }
    }

    /// When adding fails, hand the submitted values back so no input is
    /// lost: title and username as stored, the password blanked, the notes
    /// decrypted.
    pub fn to_add_form(&self, key: &Key) -> (r: Result<AddForm, VaultError>)
        requires
            key.wf(),
        ensures
            match r {
                Ok(f) => {
                    &&& f.title@ == self.title@
                    &&& f.username@ == self.username@
                    &&& f.password@ == Seq::<char>::empty()
                    &&& opens_to(self.notes, self.n_nonce, key.bytes@) == Some(f.notes@)
                },
                Err(e) => e == VaultError::DecryptionError && opens_to(
                    self.notes,
                    self.n_nonce,
                    key.bytes@,
                ) is None,
            },
    {
        let notes = decrypt(&self.notes, &self.n_nonce, key)?;
        Ok(
            AddForm {
                title: self.title.clone(),
                username: self.username.clone(),
                password: String::new(),
                notes,
            },
        )
    }

    /// A history snapshot of this record, taken by copy at time `now`: the
    /// ciphertext and nonce bytes are copied verbatim, never re-encrypted.
    pub fn snapshot(&self, now: u64) -> (h: HistoryItem)
        ensures
            snapshot_matches(h, *self, now),
    {
        HistoryItem {
            id: uuid_simple(),
            mima_id: self.id.clone(),
            title: self.title.clone(),
            username: self.username.clone(),
            password: copy_opt_bytes(&self.password),
            p_nonce: copy_opt_bytes(&self.p_nonce),
            notes: copy_opt_bytes(&self.notes),
            n_nonce: copy_opt_bytes(&self.n_nonce),
            deleted: now,
        }
    }

    /// The snapshot of this record for the history log, taken at time `now`:
    /// the ciphertext and nonce bytes are copied verbatim, never
    /// re-encrypted.
    pub fn into_history_item(self, now: u64) -> (r: HistoryItem)
        ensures
            r.id@.len() == 32,
            r.mima_id == self.id,
            r.title == self.title,
            r.username == self.username,
            r.password == self.password,
            r.p_nonce == self.p_nonce,
            r.notes == self.notes,
            r.n_nonce == self.n_nonce,
            r.deleted == now,
    {
        HistoryItem {
            id: uuid_simple(),
            mima_id: self.id,
            title: self.title,
            username: self.username,
            password: self.password,
            p_nonce: self.p_nonce,
            notes: self.notes,
            n_nonce: self.n_nonce,
            deleted: now,
        }
    }

    /// The masked view for listings: secrets are not decrypted, a present
    /// password or note shows as the fixed masking marker, an absent one as
    /// empty.  Usable without any key.
    pub fn to_simple(&self) -> (r: EditForm)
        ensures
            simple_matches(r, *self),
    {
        let password = match &self.password {
            Some(_) => "******".to_owned(),
            None => String::new(),
        };
        let notes = match &self.notes {
            Some(_) => "******".to_owned(),
            None => String::new(),
        };
        EditForm {
            id: self.id.clone(),
            title: self.title.clone(),
            username: self.username.clone(),
            password,
            notes,
            favorite: self.favorite,
        }
    }

    /// The decrypted view for editing, deletion and the recycle bin.
    pub fn to_edit_form(&self, key: &Key) -> (r: Result<EditForm, VaultError>)
        requires
            key.wf(),
        ensures
            match r {
                Ok(f) => edit_matches(f, *self, key.bytes@),
                Err(e) => e == VaultError::DecryptionError && (opens_to(
                    self.password,
                    self.p_nonce,
                    key.bytes@,
                ) is None || opens_to(self.notes, self.n_nonce, key.bytes@) is None),
            },
    {
        let password = decrypt(&self.password, &self.p_nonce, key)?;
        let notes = decrypt(&self.notes, &self.n_nonce, key)?;
        Ok(
            EditForm {
                id: self.id.clone(),
                title: self.title.clone(),
                username: self.username.clone(),
                password,
                notes,
                favorite: self.favorite,
            },
        )
    }
}

impl HistoryItem {
    /// Both envelopes of the snapshot are well formed.
    pub open spec fn wf(&self) -> bool {
        &&& pair_wf(self.password, self.p_nonce)
        &&& pair_wf(self.notes, self.n_nonce)
    }
}

/// A faithful snapshot of a well-formed record is itself well formed.
pub proof fn lemma_snapshot_wf(h: HistoryItem, m: MimaItem, now: u64)
    requires
        snapshot_matches(h, m, now),
        m.wf(),
    ensures
        h.wf(),
{
}

impl HistoryItem {

    /// The decrypted view of a snapshot; history entries carry no favorite
    /// flag.
    pub fn to_edit_form(&self, key: &Key) -> (r: Result<EditForm, VaultError>)
        requires
            key.wf(),
        ensures
            match r {
                Ok(f) => edit_matches_hist(f, *self, key.bytes@),
                Err(e) => e == VaultError::DecryptionError && (opens_to(
                    self.password,
                    self.p_nonce,
                    key.bytes@,
                ) is None || opens_to(self.notes, self.n_nonce, key.bytes@) is None),
            },
    {
        let password = decrypt(&self.password, &self.p_nonce, key)?;
        let notes = decrypt(&self.notes, &self.n_nonce, key)?;
        Ok(
            EditForm {
                id: self.id.clone(),
                title: self.title.clone(),
                username: self.username.clone(),
                password,
                notes,
                favorite: false,
            },
        )
    }
}

} // verus!
