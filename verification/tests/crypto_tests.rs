use locknote::crypto::{
    decrypt, derive_key, encrypt, generate_key, hash_password, try_derive_key, verify_password,
    zeroize_key,
};
use locknote::types::NoteError;

#[test]
fn encrypt_decrypt_round_trip() {
    let key = derive_key("correcthorse", "abcdefgh");
    let plaintext = b"attack at dawn";
    let (nonce, ciphertext) = encrypt(plaintext, &key);
    let recovered = decrypt(&ciphertext, &nonce, &key).expect("authentic data must decrypt");
    assert_eq!(recovered, plaintext.to_vec());
}

#[test]
fn derive_key_is_deterministic() {
    let a = derive_key("correcthorse", "abcdefgh");
    let b = derive_key("correcthorse", "abcdefgh");
    assert_eq!(a, b);
    let c = derive_key("correcthorse", "ijklmnop");
    assert_ne!(a, c);
    let d = derive_key("batterystaple", "abcdefgh");
    assert_ne!(a, d);
}

#[test]
fn derive_key_rejects_short_salt() {
    assert_eq!(
        try_derive_key("correcthorse", "short"),
        Err(NoteError::KeyDerivationError)
    );
    assert!(try_derive_key("correcthorse", "abcdefgh").is_ok());
}

#[test]
fn nonce_uniqueness() {
    let key = derive_key("correcthorse", "abcdefgh");
    let (nonce1, ct1) = encrypt(b"same plaintext", &key);
    let (nonce2, ct2) = encrypt(b"same plaintext", &key);
    assert_ne!(nonce1, nonce2);
    assert_ne!(ct1, ct2);
    assert_eq!(nonce1.len(), 12);
    assert_eq!(nonce2.len(), 12);
}

#[test]
fn ciphertext_length_is_plaintext_plus_tag() {
    let key = derive_key("correcthorse", "abcdefgh");
    let (_, ciphertext) = encrypt(b"hello", &key);
    assert_eq!(ciphertext.len(), 5 + 16);
}

#[test]
fn wrong_key_rejection() {
    let key = derive_key("correcthorse", "abcdefgh");
    let other = derive_key("batterystaple", "abcdefgh");
    let (nonce, ciphertext) = encrypt(b"secret", &key);
    assert!(decrypt(&ciphertext, &nonce, &other).is_none());
}

#[test]
fn tamper_detection_ciphertext() {
    let key = derive_key("correcthorse", "abcdefgh");
    let (nonce, mut ciphertext) = encrypt(b"secret", &key);
    ciphertext[0] ^= 0x01;
    assert!(decrypt(&ciphertext, &nonce, &key).is_none());
}

#[test]
fn tamper_detection_nonce() {
    let key = derive_key("correcthorse", "abcdefgh");
    let (mut nonce, ciphertext) = encrypt(b"secret", &key);
    nonce[11] ^= 0x80;
    assert!(decrypt(&ciphertext, &nonce, &key).is_none());
}

#[test]
fn truncated_ciphertext_fails() {
    let key = derive_key("correcthorse", "abcdefgh");
    let (nonce, ciphertext) = encrypt(b"secret", &key);
    assert!(decrypt(&ciphertext[..ciphertext.len() - 1], &nonce, &key).is_none());
}

#[test]
fn password_hash_and_verify() {
    let (salt, hash) = hash_password("correcthorse");
    assert_eq!(salt.len(), 22);
    assert!(verify_password("correcthorse", &hash));
    assert!(!verify_password("batterystaple", &hash));
    assert!(!verify_password("correcthorse", "not a phc hash"));
}

#[test]
fn generated_keys_differ() {
    let a = generate_key();
    let b = generate_key();
    assert_ne!(a, b);
    zeroize_key(a);
    zeroize_key(b);
}

#[test]
fn ciphertext_is_not_the_plaintext() {
    let key = derive_key("correcthorse", "abcdefgh");
    let plaintext = b"a secret worth hiding";
    let (_, ciphertext) = encrypt(plaintext, &key);
    assert_ne!(&ciphertext[..plaintext.len()], &plaintext[..]);
}
