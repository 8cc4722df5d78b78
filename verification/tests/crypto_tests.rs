use mima::crypto::{decrypt, derive_key, encrypt, KEY_LEN, NONCE_LEN, TAG_LEN};
use mima::errors::VaultError;

#[test]
fn derive_key_is_sha256_of_passphrase() {
    // SHA-256("abc"), a published test vector: the derivation must not hand
    // the passphrase bytes back unchanged.
    let expected: [u8; 32] = [
        0xba, 0x78, 0x16, 0xbf, 0x8f, 0x01, 0xcf, 0xea, 0x41, 0x41, 0x40, 0xde, 0x5d, 0xae,
        0x22, 0x23, 0xb0, 0x03, 0x61, 0xa3, 0x96, 0x17, 0x7a, 0x9c, 0xb4, 0x10, 0xff, 0x61,
        0xf2, 0x00, 0x15, 0xad,
    ];
    let k = derive_key("abc");
    assert_eq!(k.bytes.len(), KEY_LEN);
    assert_eq!(k.bytes.as_slice(), &expected);
}

#[test]
fn derive_key_is_deterministic() {
    let k1 = derive_key("correct horse battery staple");
    let k2 = derive_key("correct horse battery staple");
    assert_eq!(k1.bytes, k2.bytes);
    let k3 = derive_key("Correct horse battery staple");
    assert_ne!(k1.bytes, k3.bytes);
}

#[test]
fn round_trip_plain_ascii() {
    let k = derive_key("pw");
    let (c, n) = encrypt("hello world", &k);
    let back = decrypt(&c, &n, &k).unwrap();
    assert_eq!(back, "hello world");
}

#[test]
fn round_trip_non_ascii() {
    let k = derive_key("pw");
    let (c, n) = encrypt("p\u{e4}ssw\u{f6}rd \u{5bc6}\u{7801} \u{1f511}", &k);
    let back = decrypt(&c, &n, &k).unwrap();
    assert_eq!(back, "p\u{e4}ssw\u{f6}rd \u{5bc6}\u{7801} \u{1f511}");
}

#[test]
fn empty_plaintext_is_absence() {
    let k = derive_key("pw");
    let (c, n) = encrypt("", &k);
    assert!(c.is_none());
    assert!(n.is_none());
}

#[test]
fn absence_opens_to_empty_string() {
    let k = derive_key("pw");
    let s = decrypt(&None, &None, &k).unwrap();
    assert_eq!(s, "");
}

#[test]
fn ciphertext_differs_from_plaintext_and_carries_tag() {
    let k = derive_key("pw");
    let (c, n) = encrypt("secret", &k);
    let c = c.unwrap();
    let n = n.unwrap();
    assert_eq!(c.len(), "secret".len() + TAG_LEN);
    assert_eq!(n.len(), NONCE_LEN);
    assert_ne!(&c[..6], "secret".as_bytes());
}

#[test]
fn wrong_key_fails_with_decryption_error() {
    let k1 = derive_key("one");
    let k2 = derive_key("two");
    let (c, n) = encrypt("payload", &k1);
    assert_eq!(decrypt(&c, &n, &k2), Err(VaultError::DecryptionError));
}

#[test]
fn corrupted_ciphertext_fails_with_decryption_error() {
    let k = derive_key("pw");
    let (c, n) = encrypt("payload", &k);
    let mut c = c.unwrap();
    c[0] ^= 0xff;
    assert_eq!(decrypt(&Some(c), &n, &k), Err(VaultError::DecryptionError));
}

#[test]
fn missing_nonce_on_present_ciphertext_is_corruption() {
    let k = derive_key("pw");
    let (c, _n) = encrypt("payload", &k);
    assert_eq!(decrypt(&c, &None, &k), Err(VaultError::DecryptionError));
}

#[test]
fn ill_sized_nonce_is_corruption() {
    let k = derive_key("pw");
    let (c, _n) = encrypt("payload", &k);
    assert_eq!(
        decrypt(&c, &Some(vec![0u8; 5]), &k),
        Err(VaultError::DecryptionError)
    );
}

#[test]
fn nonces_and_ciphertexts_are_fresh_per_call() {
    let k = derive_key("pw");
    let (c1, n1) = encrypt("same plaintext", &k);
    let (c2, n2) = encrypt("same plaintext", &k);
    assert_ne!(n1.as_ref().unwrap(), n2.as_ref().unwrap());
    assert_ne!(c1.as_ref().unwrap(), c2.as_ref().unwrap());
    // Many trials: no nonce repeats.
    let mut seen = Vec::new();
    for _ in 0..64 {
        let (_, n) = encrypt("x", &k);
        let n = n.unwrap();
        assert!(!seen.contains(&n));
        seen.push(n);
    }
}

#[test]
fn seal_then_open_returns_the_plaintext() {
    let k = derive_key("pw");
    assert_eq!(mima::crypto::seal_then_open("round trip", &k), "round trip");
    assert_eq!(mima::crypto::seal_then_open("", &k), "");
}

#[test]
fn key_duplicate_copies_bytes() {
    let k = derive_key("pw");
    let d = k.duplicate();
    assert_eq!(k.bytes, d.bytes);
}
