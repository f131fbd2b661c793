//! LockNote: an encrypted note store protected by a single master password.
//!
//! The library derives a per-store symmetric key from a password and a salt,
//! encrypts and decrypts individual notes with authenticated encryption, and
//! defines the persisted container format: the salt together with the ordered
//! list of encrypted records.

use vstd::prelude::*;

pub mod types;
pub mod storage;
pub mod crypto;
pub mod encoding;
pub mod format;
pub mod notes;
