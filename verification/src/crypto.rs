//! Cryptographic operations: key derivation and password hashing through
//! Argon2id, authenticated encryption of notes through AES-256-GCM, random
//! nonce and id generation, and zeroization of key material.
//!
//! The outside calls stand behind trusted wrappers; everything around them
//! is verified against the wrappers' contracts.

use vstd::prelude::*;
use vstd::string::StringSliceAdditionalSpecFns;

use aes_gcm::aead::Aead;
use aes_gcm::{Aes256Gcm, Key, KeyInit, Nonce};
use argon2::password_hash::{PasswordHasher, PasswordVerifier, SaltString};
use argon2::{Algorithm, Argon2, Params, Version};
use rand::RngCore;
use zeroize::Zeroize;

use crate::types::NoteError;

verus! {

/// Length in bytes of the symmetric key used to encrypt notes.
pub const KEY_LEN: usize = 32;

/// Length in bytes of the nonce drawn for each encryption.
pub const NONCE_LEN: usize = 12;

/// The 32-byte key that Argon2id derives from a password and a salt, with
/// the function's default cost parameters. A function of its arguments
/// alone, so the same password and salt always give the same key.
pub uninterp spec fn kdf_key(password: Seq<u8>, salt: Seq<u8>) -> Seq<u8>;

/// The AES-256-GCM ciphertext (confidentiality-protected bytes with the
/// 16-byte tag appended) for a key, nonce and plaintext.
pub uninterp spec fn aead_ct(key: Seq<u8>, nonce: Seq<u8>, plaintext: Seq<u8>) -> Seq<u8>;

/// What AES-256-GCM decryption returns for a key, a 12-byte nonce and a
/// ciphertext: the plaintext when the ciphertext is authentic, absent
/// otherwise. A function of its arguments alone.
pub uninterp spec fn aead_pt(key: Seq<u8>, nonce: Seq<u8>, ciphertext: Seq<u8>) -> Option<Seq<u8>>;

/// Whether a PHC hash string parses and verifies against a password under
/// Argon2's defaults. A function of its arguments alone.
pub uninterp spec fn phc_verifies(password: Seq<u8>, hash: Seq<char>) -> bool;

/// A salt that Argon2id accepts for key derivation.
pub open spec fn salt_ok(salt: Seq<u8>) -> bool {
    8 <= salt.len() <= 0xFFFFFFFF
}

/// A password short enough for Argon2id.
pub open spec fn password_ok(password: Seq<u8>) -> bool {
    password.len() <= 0xFFFFFFFF
}

/// A plaintext short enough for one AES-GCM encryption.
pub open spec fn plaintext_ok(plaintext: Seq<u8>) -> bool {
    plaintext.len() <= 0x1000000000
}

/// A character of the B64 alphabet that salt strings are made of.
pub open spec fn b64_char(c: char) -> bool {
    ('A' as int <= c as int <= 'Z' as int) || ('a' as int <= c as int <= 'z' as int)
        || ('0' as int <= c as int <= '9' as int) || c == '+' || c == '/'
}

/// Relies on argon2's `Argon2::hash_password_into` with the Argon2id
/// defaults: the derived key is a function of password and salt alone, and
/// derivation fails exactly when the salt or password length is out of the
/// function's documented range.
#[verifier::external_body]
fn kdf_derive(password: &[u8], salt: &[u8]) -> (r: Result<[u8; 32], NoteError>)
    ensures
        r matches Ok(k) ==> k@ == kdf_key(password@, salt@),
        r is Ok <==> (salt_ok(salt@) && password_ok(password@)),
        r matches Err(e) ==> e == NoteError::KeyDerivationError,
{
    let mut key = [0u8; 32];
    let argon2 = Argon2::new(Algorithm::Argon2id, Version::V0x13, Params::default());
    match argon2.hash_password_into(password, salt, &mut key) {
        Ok(()) => Ok(key),
        Err(_) => Err(NoteError::KeyDerivationError),
    }
}

/// Derive the store's 32-byte key from the master password and the store
/// salt. Deterministic: the same password and salt always yield the same
/// key, so a store can be reopened later. Never falls back to a default
/// key; inputs the KDF would reject are excluded up front.
pub fn derive_key(password: &str, salt: &str) -> (r: [u8; 32])
    requires
        salt_ok(salt.spec_bytes()),
        password_ok(password.spec_bytes()),
    ensures
        r@ == kdf_key(password.spec_bytes(), salt.spec_bytes()),
{
    let r = kdf_derive(password.as_bytes(), salt.as_bytes());
    r.unwrap()
}

/// Fallible key derivation: reports `KeyDerivationError` instead of
/// demanding valid lengths from the caller.
pub fn try_derive_key(password: &str, salt: &str) -> (r: Result<[u8; 32], NoteError>)
    ensures
        r matches Ok(k) ==> k@ == kdf_key(password.spec_bytes(), salt.spec_bytes()),
        r is Ok <==> (salt_ok(salt.spec_bytes()) && password_ok(password.spec_bytes())),
        r matches Err(e) ==> e == NoteError::KeyDerivationError,
{
    kdf_derive(password.as_bytes(), salt.as_bytes())
}

/// Relies on argon2's `PasswordHasher::hash_password` and password_hash's
/// `SaltString::generate`: the fresh salt is 22 characters of the B64
/// alphabet, and the produced PHC hash string verifies against the same
/// password.
#[verifier::external_body]
pub fn hash_password(password: &str) -> (r: (String, String))
    requires
        password_ok(password.spec_bytes()),
    ensures
        r.0@.len() == 22,
        forall|i: int| 0 <= i < r.0@.len() ==> b64_char(#[trigger] r.0@[i]),
        phc_verifies(password.spec_bytes(), r.1@),
{
    let salt = SaltString::generate(&mut rand::thread_rng());
    let argon2 = Argon2::default();
    let hash = argon2
        .hash_password(password.as_bytes(), &salt)
        .expect("password hashing failed")
        .to_string();
    (salt.as_str().to_string(), hash)
}

/// Relies on argon2's `PasswordVerifier::verify_password` and
/// password_hash's `PasswordHash::new`: deterministic in (password, hash);
/// a string that does not parse as a PHC hash verifies as false.
#[verifier::external_body]
pub fn verify_password(password: &str, hash: &str) -> (r: bool)
    ensures
        r == phc_verifies(password.spec_bytes(), hash@),
{
    match argon2::password_hash::PasswordHash::new(hash) {
        Ok(parsed) => Argon2::default().verify_password(password.as_bytes(), &parsed).is_ok(),
        Err(_) => false,
    }
}

/// Relies on rand's `RngCore::fill_bytes` with `thread_rng`: a random
/// 32-byte key; nothing is promised of the value.
#[verifier::external_body]
pub fn generate_key() -> [u8; 32] {
    let mut key = [0u8; 32];
    rand::thread_rng().fill_bytes(&mut key);
    key
}

/// Relies on rand's `RngCore::fill_bytes` with `thread_rng`: a random
/// 12-byte nonce; only the length is promised, never the value, so a fresh
/// draw is never tied to content or to a counter.
#[verifier::external_body]
fn random_nonce() -> (r: Vec<u8>)
    ensures
        r@.len() == 12,
{
    let mut nonce = vec![0u8; 12];
    rand::thread_rng().fill_bytes(&mut nonce);
    nonce
}

/// Relies on uuid's `Uuid::new_v4` and its display form: a fresh random
/// 128-bit id rendered as 36 lowercase-hex-and-hyphen characters.
#[verifier::external_body]
pub(crate) fn fresh_note_id() -> (r: String)
    ensures
        r@.len() == 36,
        crate::types::plain_str(r@),
{
    uuid::Uuid::new_v4().to_string()
}

/// Relies on aes_gcm's `Aead::encrypt` for AES-256-GCM: the result is the
/// plaintext encrypted under (key, nonce) with the 16-byte tag appended, a
/// function of (key, nonce, plaintext) alone, and decrypting it under the
/// same key and nonce gives back exactly the plaintext.
#[verifier::external_body]
fn aead_seal(key_bytes: &[u8; 32], nonce: &[u8], plaintext: &[u8]) -> (r: Vec<u8>)
    requires
        nonce@.len() == 12,
        plaintext_ok(plaintext@),
    ensures
        r@ == aead_ct(key_bytes@, nonce@, plaintext@),
        r@.len() == plaintext@.len() + 16,
        aead_pt(key_bytes@, nonce@, r@) == Some(plaintext@),
{
    let cipher = Aes256Gcm::new(Key::<Aes256Gcm>::from_slice(key_bytes));
    cipher.encrypt(Nonce::from_slice(nonce), plaintext).expect("AES-GCM encryption failed")
}

/// Encrypt one note's plaintext: draw a fresh random 12-byte nonce, never
/// derived from content or a counter, and seal the plaintext under the key.
/// No associated data is bound. The ciphertext decrypts back to exactly
/// this plaintext under the same key and nonce.
pub fn encrypt(plaintext: &[u8], key_bytes: &[u8; 32]) -> (r: (Vec<u8>, Vec<u8>))
    requires
        plaintext_ok(plaintext@),
    ensures
        r.0@.len() == 12,
        r.1@ == aead_ct(key_bytes@, r.0@, plaintext@),
        r.1@.len() == plaintext@.len() + 16,
        aead_pt(key_bytes@, r.0@, r.1@) == Some(plaintext@),
{
    let nonce = random_nonce();
    let ciphertext = aead_seal(key_bytes, nonce.as_slice(), plaintext);
    (nonce, ciphertext)
}

/// Relies on aes_gcm's `Aead::decrypt` for AES-256-GCM: authenticated
/// decryption fails closed — it returns the plaintext only when the
/// ciphertext is authentic under (key, nonce), and never partial or
/// substitute output. Deterministic in its arguments, recorded by the name
/// `aead_pt`.
#[verifier::external_body]
pub fn decrypt(ciphertext: &[u8], nonce: &[u8], key_bytes: &[u8; 32]) -> (r: Option<Vec<u8>>)
    requires
        nonce@.len() == 12,
    ensures
        r matches Some(p) ==> aead_pt(key_bytes@, nonce@, ciphertext@) == Some(p@),
        r is None ==> aead_pt(key_bytes@, nonce@, ciphertext@) is None,
{
    let cipher = Aes256Gcm::new(Key::<Aes256Gcm>::from_slice(key_bytes));
    cipher.decrypt(Nonce::from_slice(nonce), ciphertext).ok()
}

/// Relies on zeroize's `Zeroize` for byte arrays: overwrites the key bytes
/// in place, so key material does not linger in memory after use.
#[verifier::external_body]
pub fn zeroize_key(key: [u8; 32]) {
    let mut key = key;
    key.zeroize();
}

} // verus!
