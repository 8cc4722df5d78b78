//! The session key state machine.
//!
//! A single process-wide `SessionState` holds the current derived key, the
//! time of the last successful login and the configured validity period.
//! The state is a plain value; the host serializes access to it (one lock
//! around the whole value) and passes it by reference into every operation.

use vstd::prelude::*;

use crate::crypto::{derive_key, decrypt, key_of, opens_to, Key};
use crate::errors::VaultError;

verus! {

/// The externally visible session states.
///
/// `Uninitialized` means no vault has been created yet; it is decided by the
/// existence of the bootstrap record, not by the key holder alone.
#[derive(Clone, Copy, Debug, PartialEq, Eq, Structural)]
pub enum SessionStateTag {
    Uninitialized,
    LoggedOut,
    LoggedIn,
    Expired,
}

/// The process-wide session: the current key (if any), when it was
/// installed, and for how long a login stays valid.
pub struct SessionState {
    /// The installed key; `None` while logged out.
    pub key: Option<Key>,
    /// Time of the most recent successful login, in seconds.
    pub last_login_at: u64,
    /// How long a login stays valid, in seconds.
    pub validity_period: u64,
}

impl SessionState {
    pub open spec fn wf(&self) -> bool {
        self.key matches Some(k) ==> k.wf()
    }

    /// The session state at time `now`, leaving `Uninitialized` aside: a
    /// session without a key is logged out; one with a key is expired
    /// exactly when `now - last_login_at >= validity_period`, and logged in
    /// otherwise.
    pub open spec fn state_at(&self, now: u64) -> SessionStateTag {
        if self.key is None {
            SessionStateTag::LoggedOut
        } else if now >= self.last_login_at + self.validity_period {
            SessionStateTag::Expired
        } else {
            SessionStateTag::LoggedIn
        }
    }

    /// A fresh session: no key installed.
    pub fn new(validity_period: u64) -> (s: SessionState)
        ensures
            s.key is None,
            s.last_login_at == 0,
            s.validity_period == validity_period,
            s.wf(),
    {
        SessionState { key: None, last_login_at: 0, validity_period }
    }

    /// The session state at time `now`.
    pub fn current_state(&self, now: u64) -> (t: SessionStateTag)
        ensures
            t == self.state_at(now),
    {
        match &self.key {
            None => SessionStateTag::LoggedOut,
            Some(_) => {
                if now >= self.last_login_at && now - self.last_login_at
                    >= self.validity_period {
                    SessionStateTag::Expired
                } else {
                    SessionStateTag::LoggedIn
                }
            },
        }
    }

    /// Attempt a login: derive the candidate key from the passphrase and try
    /// to open the bootstrap probe envelope with it.  On success the key is
    /// installed and the login time reset, and the decrypted probe text is
    /// returned; on failure the state is left untouched.
    pub fn login(
        &mut self,
        passphrase: &str,
        cipher: &Option<Vec<u8>>,
        nonce: &Option<Vec<u8>>,
        now: u64,
    ) -> (r: Result<String, VaultError>)
        requires
            old(self).wf(),
            cipher is Some,
        ensures
            final(self).wf(),
            match r {
                Ok(probe) => {
                    &&& opens_to(*cipher, *nonce, key_of(passphrase@)) == Some(probe@)
                    &&& final(self).key matches Some(k) && k.bytes@ == key_of(passphrase@)
                    &&& final(self).last_login_at == now
                    &&& final(self).validity_period == old(self).validity_period
                },
                Err(e) => {
                    &&& e == VaultError::WrongPassphrase
                    &&& opens_to(*cipher, *nonce, key_of(passphrase@)) is None
                    &&& *final(self) == *old(self)
                },
            },
    {
        let candidate = derive_key(passphrase);
        match decrypt(cipher, nonce, &candidate) {
            Ok(probe) => {
                self.key = Some(candidate);
                self.last_login_at = now;
                Ok(probe)
            },
            Err(_) => Err(VaultError::WrongPassphrase),
        }
    }

    /// Log out: clear the key at once, so that no real key stays resident
    /// after the session ends.
    pub fn logout(&mut self)
        ensures
            final(self).key is None,
            final(self).last_login_at == old(self).last_login_at,
            final(self).validity_period == old(self).validity_period,
            final(self).wf(),
    {
        self.key = None;
    }

    /// The held key, regardless of expiry.  Callers must check
    /// [`Self::current_state`] before trusting it for decryption.
    pub fn active_key(&self) -> (r: Option<Key>)
        requires
            self.wf(),
        ensures
            match r {
                Some(k) => (self.key matches Some(k0) && k.bytes@ == k0.bytes@) && k.wf(),
                None => self.key is None,
            },
    {
        match &self.key {
            None => None,
            Some(k) => Some(k.duplicate()),
        }
    }
}

/// A session that holds a key reads as `Expired` exactly when the validity
/// period has elapsed since the last login, and as `LoggedIn` otherwise.
pub proof fn lemma_expiry_boundary(s: SessionState, now: u64)
    requires
        s.key is Some,
    ensures
        s.state_at(now) == SessionStateTag::Expired <==> now >= s.last_login_at
            + s.validity_period,
        s.state_at(now) == SessionStateTag::LoggedIn <==> now < s.last_login_at
            + s.validity_period,
{
}

/// Expiry is monotone: once a session reads as `Expired`, it reads as
/// `Expired` at every later time as well; it never reverts on its own.
pub proof fn lemma_expiry_monotonic(s: SessionState, now1: u64, now2: u64)
    requires
        now1 <= now2,
        s.state_at(now1) == SessionStateTag::Expired,
    ensures
        s.state_at(now2) == SessionStateTag::Expired,
{
}

} // verus!
