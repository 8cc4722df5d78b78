//! The vault: the record store and the session key holder composed behind
//! one interface.
//!
//! The host owns a single `Vault` value and serializes access to it (one
//! lock around the whole value).  Operations that need the current time
//! take it from the clock wrapper here; everything else is a thin, verified
//! composition of the store and session operations.

use vstd::prelude::*;

use crate::crypto::{key_of, opens_to, sealable, Key};
use crate::errors::VaultError;
use crate::forms::AddForm;
use crate::models::MimaItem;
use crate::session::{SessionState, SessionStateTag};
use crate::store::{
    bootstrap_id_str, find_index, has_conflict, has_id, is_bootstrap, spec_bootstrap_id,
    spec_probe_text, Store,
};
use crate::text::trim_spec;

verus! {

/// Relies on chrono's `Utc::now` and `timestamp`: seconds since the epoch,
/// as the system clock reports them.  Nothing is assumed of the value.
#[verifier::external_body]
fn now_ts_raw() -> i64 {
    chrono::Utc::now().timestamp()
}

/// The current time in whole seconds since the epoch.  The guard on the
/// sign only justifies the conversion to `u64`; chrono never returns a
/// negative reading here (it refuses a pre-epoch system clock outright).
pub fn now_ts() -> (r: u64) {
    let t = now_ts_raw();
    if t < 0 {
        0
    } else {
        t as u64
    }
}

/// The whole vault: records, history and the session key.
pub struct Vault {
    pub store: Store,
    pub session: SessionState,
}

impl Vault {
    pub open spec fn wf(&self) -> bool {
        &&& self.store.wf()
        &&& self.session.wf()
    }

    /// A fresh vault: empty store, no key, the given validity period.
    pub fn new(validity_period: u64) -> (v: Vault)
        ensures
            v.wf(),
            v.store.mimas@.len() == 0,
            v.store.history@.len() == 0,
            v.session.key is None,
            v.session.validity_period == validity_period,
    {
        Vault { store: Store::new(), session: SessionState::new(validity_period) }
    }

    /// The session state at time `now`: `Uninitialized` while no bootstrap
    /// record exists, otherwise whatever the key holder reports.
    pub open spec fn spec_state(&self, now: u64) -> SessionStateTag {
        if !has_id(self.store.mimas@, spec_bootstrap_id()) {
            SessionStateTag::Uninitialized
        } else {
            self.session.state_at(now)
        }
    }

    /// The session state at time `now`.
    pub fn current_state(&self, now: u64) -> (t: SessionStateTag)
        ensures
            t == self.spec_state(now),
    {
        if !self.store.is_initialized() {
            SessionStateTag::Uninitialized
        } else {
            self.session.current_state(now)
        }
    }

    /// Create the account at the current time: seal the fixed probe text
    /// under the key derived from `passphrase` into the bootstrap record.
    pub fn create_account(&mut self, passphrase: &str) -> (r: Result<(), VaultError>)
        requires
            old(self).wf(),
        ensures
            final(self).wf(),
            final(self).session == old(self).session,
            final(self).store.history@ == old(self).store.history@,
            match r {
                Ok(()) => {
                    &&& !has_id(old(self).store.mimas@, spec_bootstrap_id())
                    &&& has_id(final(self).store.mimas@, spec_bootstrap_id())
                    &&& final(self).store.mimas@.len() == old(self).store.mimas@.len() + 1
                    &&& final(self).store.mimas@ == old(self).store.mimas@.push(
                        final(self).store.mimas@.last(),
                    )
                    &&& opens_to(
                        final(self).store.mimas@.last().password,
                        final(self).store.mimas@.last().p_nonce,
                        key_of(passphrase@),
                    ) == Some(spec_probe_text())
                },
                Err(e) => {
                    &&& e == VaultError::DuplicateRecordError
                    &&& final(self).store == old(self).store
                    &&& (has_id(old(self).store.mimas@, spec_bootstrap_id()) || has_conflict(
                        old(self).store.mimas@,
                        Seq::<char>::empty(),
                        Seq::<char>::empty(),
                        None,
                    ))
                },
            },
    {
        let now = now_ts();
        let r = self.store.create_account(passphrase, now);
        proof {
            if r is Ok {
                let rs = self.store.mimas@;
                assert(rs[rs.len() - 1] == rs.last());
                assert(has_id(rs, spec_bootstrap_id()));
            }
        }
        r
    }

    /// Log in at time `now`: derive the candidate key from the passphrase
    /// and verify it against the bootstrap record's probe envelope.  On
    /// success the key is installed and the login time reset to `now`, and
    /// the probe text is returned; on any failure — no bootstrap record, or
    /// a passphrase that does not open it — the session is left untouched.
    pub fn login(&mut self, passphrase: &str, now: u64) -> (r: Result<String, VaultError>)
        requires
            old(self).wf(),
        ensures
            final(self).wf(),
            final(self).store == old(self).store,
            match r {
                Ok(probe) => {
                    &&& exists|i: int|
                        #![trigger old(self).store.mimas@[i]]
                        0 <= i < old(self).store.mimas@.len() && is_bootstrap(
                            old(self).store.mimas@[i],
                        ) && opens_to(
                            old(self).store.mimas@[i].password,
                            old(self).store.mimas@[i].p_nonce,
                            key_of(passphrase@),
                        ) == Some(probe@)
                    &&& final(self).session.key matches Some(k) && k.bytes@ == key_of(
                        passphrase@,
                    )
                    &&& final(self).session.last_login_at == now
                    &&& final(self).session.validity_period == old(self).session.validity_period
                    &&& (old(self).session.validity_period > 0 ==> final(self).spec_state(now)
                        == SessionStateTag::LoggedIn)
                },
                Err(e) => {
                    &&& e == VaultError::WrongPassphrase
                    &&& final(self).session == old(self).session
                    &&& (has_id(old(self).store.mimas@, spec_bootstrap_id()) ==> exists|i: int|
                        #![trigger old(self).store.mimas@[i]]
                        0 <= i < old(self).store.mimas@.len() && is_bootstrap(
                            old(self).store.mimas@[i],
                        ) && opens_to(
                            old(self).store.mimas@[i].password,
                            old(self).store.mimas@[i].p_nonce,
                            key_of(passphrase@),
                        ) is None)
                },
            },
    {
        let idx = match find_index(&self.store.mimas, bootstrap_id_str()) {
            None => {
                return Err(VaultError::WrongPassphrase);
            },
            Some(i) => i,
        };
        proof {
            assert(is_bootstrap(self.store.mimas@[idx as int]));
        }
        let item = &self.store.mimas[idx];
        let r = self.session.login(passphrase, &item.password, &item.p_nonce, now);
        proof {
            if r is Ok {
                assert(self.store.mimas@[idx as int].id@ == spec_bootstrap_id());
                assert(has_id(self.store.mimas@, spec_bootstrap_id()));
            }
        }
        r
    }

    /// Log out: clear the session key at once.
    pub fn logout(&mut self)
        requires
            old(self).wf(),
        ensures
            final(self).wf(),
            final(self).store == old(self).store,
            final(self).session.key is None,
            final(self).session.last_login_at == old(self).session.last_login_at,
            final(self).session.validity_period == old(self).session.validity_period,
    {
        self.session.logout();
    }

    /// The held key, regardless of expiry; callers must check
    /// [`Self::current_state`] before trusting it for decryption.
    pub fn active_key(&self) -> (r: Option<Key>)
        requires
            self.wf(),
        ensures
            match r {
                Some(k) => (self.session.key matches Some(k0) && k.bytes@ == k0.bytes@)
                    && k.wf(),
                None => self.session.key is None,
            },
    {
        self.session.active_key()
    }

    /// Add a record from a submitted form at the current time, sealed under
    /// `key`, and return the fresh record's id.
    pub fn add(&mut self, form: AddForm, key: &Key) -> (r: Result<String, VaultError>)
        requires
            old(self).wf(),
            key.wf(),
            sealable(form.password@),
            sealable(form.notes@),
        ensures
            final(self).wf(),
            final(self).session == old(self).session,
            final(self).store.history@ == old(self).store.history@,
            match r {
                Ok(id) => {
                    &&& final(self).store.mimas@.len() == old(self).store.mimas@.len() + 1
                    &&& final(self).store.mimas@ == old(self).store.mimas@.push(
                        final(self).store.mimas@.last(),
                    )
                    &&& id@ == final(self).store.mimas@.last().id@
                    &&& final(self).store.mimas@.last().title@ == trim_spec(form.title@)
                    &&& final(self).store.mimas@.last().username@ == trim_spec(form.username@)
                    &&& opens_to(
                        final(self).store.mimas@.last().password,
                        final(self).store.mimas@.last().p_nonce,
                        key.bytes@,
                    ) == Some(form.password@)
                    &&& opens_to(
                        final(self).store.mimas@.last().notes,
                        final(self).store.mimas@.last().n_nonce,
                        key.bytes@,
                    ) == Some(trim_spec(form.notes@))
                    &&& final(self).store.mimas@.last().deleted is None
                    &&& !final(self).store.mimas@.last().favorite
                },
                Err(e) => {
                    &&& final(self).store == old(self).store
                    &&& (e == VaultError::DuplicateRecordError || e == VaultError::StoreError)
                    &&& (e == VaultError::DuplicateRecordError ==> has_conflict(
                        old(self).store.mimas@,
                        trim_spec(form.title@),
                        trim_spec(form.username@),
                        None,
                    ))
                },
            },
    {
        let now = now_ts();
        let item = MimaItem::from_add_form(form, key, now);
        let id = item.id.clone();
        match item.insert(&mut self.store) {
            Ok(()) => {
                proof {
                    let rs = self.store.mimas@;
                    assert(rs[rs.len() - 1] == rs.last());
                }
                Ok(id)
            },
            Err(e) => Err(e),
        }
    }
}

} // verus!
