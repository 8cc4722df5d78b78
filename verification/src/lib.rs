//! Verified core of a single-user secrets vault.
//!
//! Named credential records (title, username, password, notes) are held at
//! rest with their sensitive fields in encrypted form only.  The crate
//! provides the authenticated-encryption envelope around single fields, the
//! session key state machine that gates decryption, the record store with
//! soft deletion and history snapshots, and the request-gating decision.
//! Encryption itself is done by sodiumoxide's secretbox; every call into it
//! stands behind a small trusted wrapper whose contract states what the
//! library relies on.

pub mod crypto;
pub mod errors;
pub mod forms;
pub mod gate;
pub mod models;
pub mod session;
pub mod store;
pub mod text;
pub mod vault;
