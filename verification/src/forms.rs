//! The plain-value shapes exchanged with the presentation layer: submitted
//! field values in, decrypted or masked field values out.

use vstd::prelude::*;

use crate::crypto::{derive_key, key_of, Key};

verus! {

/// The passphrase submitted at account creation or login.
pub struct LoginForm {
    pub password: String,
}

impl LoginForm {
    /// The session key for this passphrase.
    pub fn pwd_to_key(&self) -> (k: Key)
        ensures
            k.wf(),
            k.bytes@ == key_of(self.password@),
    {
        derive_key(self.password.as_str())
    }
}

/// The fields submitted when adding a record.
pub struct AddForm {
    pub title: String,
    pub username: String,
    pub password: String,
    pub notes: String,
}

/// One record as shown to the caller: either masked (listing) or decrypted
/// (editing, recycle bin, history).
#[derive(Debug, PartialEq, Eq)]
pub struct EditForm {
    pub id: String,
    pub title: String,
    pub username: String,
    pub password: String,
    pub notes: String,
    pub favorite: bool,
}

/// A form carrying only a record id, for deletion and recovery.
pub struct IdForm {
    pub id: String,
}

/// A search or listing result handed back to the caller: an optional
/// message and any number of records.
pub struct ResultContext<'a> {
    pub msg: Option<&'a str>,
    pub result: Vec<EditForm>,
}

} // verus!
