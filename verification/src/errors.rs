use vstd::prelude::*;

verus! {

/// The error taxonomy of the vault core.
///
/// The first four are recoverable for the caller; `StoreError` marks an
/// unexpected persistence failure and is treated as fatal.
#[derive(Clone, Copy, Debug, PartialEq, Eq, Structural)]
pub enum VaultError {
    /// The passphrase offered at login does not open the bootstrap record.
    WrongPassphrase,
    /// Authenticated decryption failed: a wrong or stale key, corrupted
    /// bytes, or a nonce missing while its ciphertext is present.
    DecryptionError,
    /// No record or history entry exists under the given id.
    NotFoundError,
    /// An insert or update would collide with an active record that has the
    /// same title and username.
    DuplicateRecordError,
    /// Any other persistence failure; not retried.
    StoreError,
}

} // verus!
