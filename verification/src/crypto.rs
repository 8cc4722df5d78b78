//! The per-field authenticated-encryption envelope.
//!
//! A field is stored either as absence (empty plaintext) or as a
//! (ciphertext, nonce) pair produced by sodiumoxide's secretbox under the
//! session key.  The key itself is derived from the account passphrase by
//! SHA-256.  All calls into sodiumoxide stand behind the trusted wrappers in
//! this module; everything around them is verified.

use vstd::prelude::*;
use vstd::string::*;
use vstd::utf8::{decode_utf8, encode_scalar, encode_utf8, valid_utf8};

use crate::errors::VaultError;

verus! {

/// Number of bytes in a secretbox key (and in a SHA-256 digest).
pub const KEY_LEN: usize = 32;

/// Number of bytes in a secretbox nonce.
pub const NONCE_LEN: usize = 24;

/// Number of bytes by which a secretbox ciphertext exceeds its plaintext.
pub const TAG_LEN: usize = 16;

/// Upper bound, in characters, on a single plaintext field.  It keeps the
/// byte length of the UTF-8 encoding plus the authentication tag within
/// `usize` on every architecture.
pub const MAX_PLAINTEXT: usize = 16_000_000;

/// A symmetric session key: exactly [`KEY_LEN`] bytes.
pub struct Key {
    pub bytes: Vec<u8>,
}

impl Key {
    pub open spec fn wf(&self) -> bool {
        self.bytes@.len() == KEY_LEN
    }

    /// An independent copy of the key, byte for byte.
    pub fn duplicate(&self) -> (k: Key)
        ensures
            k.bytes@ == self.bytes@,
    {
        Key { bytes: copy_bytes(&self.bytes) }
    }
}

/// A byte-for-byte copy of a vector.
pub fn copy_bytes(v: &Vec<u8>) -> (r: Vec<u8>)
    ensures
        r@ == v@,
{
    let mut r: Vec<u8> = Vec::new();
    let mut i: usize = 0;
    while i < v.len()
        invariant
            i <= v@.len(),
            r@ == v@.take(i as int),
        decreases v@.len() - i,
    {
        r.push(v[i]);
        i = i + 1;
        proof {
            assert(r@ =~= v@.take(i as int));
        }
    }
    proof {
        assert(r@ =~= v@);
    }
    r
}

/// The SHA-256 digest of a byte sequence, as sodiumoxide computes it.
pub uninterp spec fn digest_of(m: Seq<u8>) -> Seq<u8>;

/// The secretbox ciphertext for a message under a nonce and a key.
pub uninterp spec fn sealed_of(m: Seq<u8>, n: Seq<u8>, k: Seq<u8>) -> Seq<u8>;

/// What secretbox's open returns for a ciphertext under a nonce and a key:
/// the authenticated plaintext, or `None` on an authentication failure.
pub uninterp spec fn opened_of(c: Seq<u8>, n: Seq<u8>, k: Seq<u8>) -> Option<Seq<u8>>;

/// The key derived from a passphrase: the SHA-256 digest of its UTF-8 bytes.
pub open spec fn key_of(passphrase: Seq<char>) -> Seq<u8> {
    digest_of(encode_utf8(passphrase))
}

/// Relies on sodiumoxide's `crypto::hash::sha256::hash`: the digest is a
/// function of the input bytes alone and is exactly 32 bytes long.
#[verifier::external_body]
fn sha256_digest(m: &[u8]) -> (r: Vec<u8>)
    ensures
        r@ == digest_of(m@),
        r@.len() == KEY_LEN,
{
    sodiumoxide::crypto::hash::sha256::hash(m).0.to_vec()
}

/// Relies on `sodiumoxide::init`: it prepares the library (in particular its
/// random generator) and changes no caller-visible state.  Nothing is assumed
/// of its result.
#[verifier::external_body]
fn crypto_init() {
    let _ = sodiumoxide::init();
}

/// Relies on sodiumoxide's `crypto::secretbox::gen_nonce`: a fresh nonce is
/// [`NONCE_LEN`] bytes.  The value is random, so nothing more is assumed.
#[verifier::external_body]
fn gen_nonce_bytes() -> (r: Vec<u8>)
    ensures
        r@.len() == NONCE_LEN,
{
    sodiumoxide::crypto::secretbox::gen_nonce().0.to_vec()
}

/// Relies on sodiumoxide's `crypto::secretbox::seal`: the ciphertext is a
/// function of plaintext, nonce and key; it is [`TAG_LEN`] bytes longer than
/// the plaintext; and `crypto::secretbox::open` returns the plaintext for it
/// under the same nonce and key.
#[verifier::external_body]
fn secretbox_seal(m: &[u8], n: &[u8], k: &[u8]) -> (r: Vec<u8>)
    requires
        n@.len() == NONCE_LEN,
        k@.len() == KEY_LEN,
        m@.len() + TAG_LEN <= usize::MAX,
    ensures
        r@ == sealed_of(m@, n@, k@),
        r@.len() == m@.len() + TAG_LEN,
        opened_of(r@, n@, k@) == Some(m@),
{
    let nonce = sodiumoxide::crypto::secretbox::Nonce::from_slice(n).unwrap();
    let key = sodiumoxide::crypto::secretbox::Key::from_slice(k).unwrap();
    sodiumoxide::crypto::secretbox::seal(m, &nonce, &key)
}

/// Relies on sodiumoxide's `crypto::secretbox::open`: the result is a
/// function of ciphertext, nonce and key; `Some` carries the authenticated
/// plaintext, `None` is an authentication failure.
#[verifier::external_body]
fn secretbox_open(c: &[u8], n: &[u8], k: &[u8]) -> (r: Option<Vec<u8>>)
    requires
        n@.len() == NONCE_LEN,
        k@.len() == KEY_LEN,
    ensures
        r matches Some(m) ==> opened_of(c@, n@, k@) == Some(m@),
        r is None ==> opened_of(c@, n@, k@) is None,
{
    let nonce = sodiumoxide::crypto::secretbox::Nonce::from_slice(n).unwrap();
    let key = sodiumoxide::crypto::secretbox::Key::from_slice(k).unwrap();
    match sodiumoxide::crypto::secretbox::open(c, &nonce, &key) {
        Ok(m) => Some(m),
        Err(()) => None,
    }
}

/// Relies on std's `String::from_utf8`: it returns the string whose UTF-8
/// encoding is the given bytes exactly when the bytes are valid UTF-8.
#[verifier::external_body]
fn bytes_to_string(v: Vec<u8>) -> (r: Option<String>)
    ensures
        r matches Some(s) ==> valid_utf8(v@) && s@ == decode_utf8(v@),
        r is None ==> !valid_utf8(v@),
{
    String::from_utf8(v).ok()
}

/// Both halves of an envelope are present or both are absent, and a present
/// nonce has the length secretbox expects.
pub open spec fn pair_wf(cipher: Option<Vec<u8>>, nonce: Option<Vec<u8>>) -> bool {
    &&& (cipher is Some <==> nonce is Some)
    &&& (nonce matches Some(n) ==> n@.len() == NONCE_LEN)
}

/// What an envelope decrypts to under a key: the empty string for an absent
/// envelope, the authenticated plaintext for a well-formed one, and `None`
/// for every failure (missing or ill-sized nonce on a present ciphertext,
/// authentication failure, bytes that are not UTF-8).
pub open spec fn opens_to(
    cipher: Option<Vec<u8>>,
    nonce: Option<Vec<u8>>,
    k: Seq<u8>,
) -> Option<Seq<char>> {
    match cipher {
        Option::None => Some(Seq::<char>::empty()),
        Option::Some(c) => match nonce {
            Option::None => None,
            Option::Some(n) => if n@.len() != NONCE_LEN {
                None
            } else {
                match opened_of(c@, n@, k) {
                    Option::Some(m) => if valid_utf8(m) {
                        Some(decode_utf8(m))
                    } else {
                        None
                    },
                    Option::None => None,
                }
            },
        },
    }
}

/// A plaintext short enough to be sealed on every architecture.
pub open spec fn sealable(p: Seq<char>) -> bool {
    p.len() <= MAX_PLAINTEXT
}

/// The UTF-8 encoding of a character sequence takes at most four bytes per
/// character.
pub proof fn lemma_encode_utf8_len(s: Seq<char>)
    ensures
        encode_utf8(s).len() <= 4 * s.len(),
    decreases s.len(),
{
    if s.len() == 0 {
    } else {
        lemma_encode_utf8_len(s.drop_first());
        assert(encode_scalar(s[0] as u32).len() <= 4);
    }
}

/// Derive the session key from a passphrase.  The derivation is a pure
/// function: the same passphrase always yields the same key.
pub fn derive_key(passphrase: &str) -> (k: Key)
    ensures
        k.wf(),
        k.bytes@ == key_of(passphrase@),
{
    Key { bytes: sha256_digest(passphrase.as_bytes()) }
}

/// Seal one field under a key.
///
/// An empty plaintext is stored as absence, `(None, None)`; a non-empty one
/// is encrypted under a fresh random nonce.  The envelope always opens back
/// to the plaintext under the sealing key.
pub fn encrypt(plaintext: &str, key: &Key) -> (r: (Option<Vec<u8>>, Option<Vec<u8>>))
    requires
        key.wf(),
        sealable(plaintext@),
    ensures
        pair_wf(r.0, r.1),
        (r.0 is Some) <==> plaintext@.len() > 0,
        opens_to(r.0, r.1, key.bytes@) == Some(plaintext@),
{
    if plaintext.is_empty() {
        proof {
            assert(plaintext@ =~= Seq::<char>::empty());
        }
        (None, None)
    } else {
        crypto_init();
        let nonce = gen_nonce_bytes();
        let m = plaintext.as_bytes();
        proof {
            lemma_encode_utf8_len(plaintext@);
            vstd::utf8::encode_utf8_valid_utf8(plaintext@);
            vstd::utf8::encode_utf8_decode_utf8(plaintext@);
        }
        let c = secretbox_seal(m, nonce.as_slice(), key.bytes.as_slice());
        (Some(c), Some(nonce))
    }
}

/// Open one field envelope under a key.
///
/// Absence decrypts to the empty string.  Every failure — a missing or
/// ill-sized nonce beside a present ciphertext, an authentication mismatch
/// (wrong key or corrupted bytes), or decrypted bytes that are not UTF-8 —
/// is `DecryptionError`, surfaced, never swallowed.
pub fn decrypt(
    cipher: &Option<Vec<u8>>,
    nonce: &Option<Vec<u8>>,
    key: &Key,
) -> (r: Result<String, VaultError>)
    requires
        key.wf(),
    ensures
        match r {
            Ok(s) => opens_to(*cipher, *nonce, key.bytes@) == Some(s@),
            Err(e) => e == VaultError::DecryptionError && opens_to(
                *cipher,
                *nonce,
                key.bytes@,
            ) is None,
        },
{
    match cipher {
        None => Ok(String::new()),
        Some(c) => match nonce {
            None => Err(VaultError::DecryptionError),
            Some(n) => {
                if n.len() != NONCE_LEN {
                    Err(VaultError::DecryptionError)
                } else {
                    match secretbox_open(c.as_slice(), n.as_slice(), key.bytes.as_slice()) {
                        Some(m) => match bytes_to_string(m) {
                            Some(s) => Ok(s),
                            None => Err(VaultError::DecryptionError),
                        },
                        None => Err(VaultError::DecryptionError),
                    }
                }
            },
        },
    }
}

/// Round trip: opening a sealed envelope under the sealing key yields the
/// plaintext unchanged, for every plaintext and every key.
pub fn seal_then_open(plaintext: &str, key: &Key) -> (r: String)
    requires
        key.wf(),
        sealable(plaintext@),
    ensures
        r@ == plaintext@,
{
    let (cipher, nonce) = encrypt(plaintext, key);
    match decrypt(&cipher, &nonce, key) {
        Ok(s) => s,
        Err(_) => {
            proof {
                assert(false);
            }
            String::new()
        },
    }
}

} // verus!
