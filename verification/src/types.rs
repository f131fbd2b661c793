//! Data model: one encrypted note record, and the lock file that holds the
//! store's salt together with the insertion-ordered list of records.

use vstd::prelude::*;

verus! {

/// One encrypted note as it is persisted: an opaque text id, the encryption
/// nonce and the AEAD ciphertext, the latter two text-encoded as lowercase hex.
#[derive(Debug)]
pub struct StoredNote {
    pub id: String,
    pub nonce: String,
    pub ciphertext: String,
}

impl Clone for StoredNote {
    fn clone(&self) -> (r: Self)
        ensures
            r@ == self@,
    {
        StoredNote {
            id: self.id.clone(),
            nonce: self.nonce.clone(),
            ciphertext: self.ciphertext.clone(),
        }
    }
}

/// The whole store: the key-derivation salt (plain text, not secret) and the
/// ordered list of encrypted records. One store = one file = one password.
#[derive(Debug)]
pub struct LockFile {
    pub salt: String,
    pub notes: Vec<StoredNote>,
}

/// Mathematical model of a stored note: the three fields as char sequences.
#[verifier::ext_equal]
pub ghost struct NoteV {
    pub id: Seq<char>,
    pub nonce: Seq<char>,
    pub ciphertext: Seq<char>,
}

/// Mathematical model of a lock file: the salt and the note sequence.
#[verifier::ext_equal]
pub ghost struct DocV {
    pub salt: Seq<char>,
    pub notes: Seq<NoteV>,
}

impl View for StoredNote {
    type V = NoteV;

    open spec fn view(&self) -> NoteV {
        NoteV { id: self.id@, nonce: self.nonce@, ciphertext: self.ciphertext@ }
    }
}

impl View for LockFile {
    type V = DocV;

    open spec fn view(&self) -> DocV {
        DocV { salt: self.salt@, notes: self.notes@.map_values(|n: StoredNote| n@) }
    }
}

/// A character that may stand unescaped inside a quoted field of the
/// persisted document: printable ASCII, but neither `"` nor `\`.
pub open spec fn plain_char(c: char) -> bool {
    0x20 <= c as int <= 0x7e && c != '"' && c != '\\'
}

pub open spec fn plain_str(s: Seq<char>) -> bool {
    forall|i: int| 0 <= i < s.len() ==> plain_char(#[trigger] s[i])
}

/// A note whose fields can stand verbatim inside the persisted document.
pub open spec fn note_wf(n: NoteV) -> bool {
    plain_str(n.id) && plain_str(n.nonce) && plain_str(n.ciphertext)
}

/// A lock file whose salt and notes can all stand verbatim in the document.
pub open spec fn doc_wf(d: DocV) -> bool {
    plain_str(d.salt) && forall|i: int| 0 <= i < d.notes.len() ==> note_wf(#[trigger] d.notes[i])
}

/// How the library reports failure; every caller can tell a missing note,
/// a wrong password or tampered data, a malformed document, and a failed
/// key derivation apart.
#[derive(Clone, Copy, Debug, PartialEq, Eq, Structural)]
pub enum NoteError {
    /// The requested note id is not in the store.
    NotFound,
    /// Decryption failed: wrong key, or tampered nonce or ciphertext.
    AuthenticationFailure,
    /// The persisted document or a text-encoded field is malformed.
    SerializationError,
    /// The key-derivation function rejected its inputs.
    KeyDerivationError,
}

impl LockFile {
    /// A fresh store: the given salt and no notes.
    pub fn new(salt_b64: String) -> (r: Self)
        ensures
            r@.salt == salt_b64@,
            r@.notes == Seq::<NoteV>::empty(),
    {
        Self { salt: salt_b64, notes: Vec::new() }
    }
}

} // verus!
