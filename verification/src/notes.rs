//! The note-level operations behind the commands: creating a store, making
//! an encrypted record from a title and a body, and viewing a record by id.
//! The plaintext of a record is `title + "\n" + body`; title and body are
//! never stored apart, only recovered by splitting on the first newline.

use vstd::prelude::*;
use vstd::string::StrSliceExecFns;
use vstd::string::StringSliceAdditionalSpecFns;

use crate::crypto::{encrypt, decrypt, fresh_note_id, hash_password, password_ok, plaintext_ok};
use crate::encoding::{hex_decode, hex_encode, lemma_hex_plain, lemma_hex_round_trip};
use crate::storage::{find_note, note_plain, spec_find};
use crate::types::{doc_wf, note_wf, plain_char, LockFile, NoteError, NoteV, StoredNote};

verus! {

/// The plaintext stored for a note: title, one newline, body.
pub open spec fn joined(title: Seq<u8>, body: Seq<u8>) -> Seq<u8> {
    title + seq![10u8] + body
}

/// Index of the first newline, or -1 when there is none.
pub open spec fn nl_pos(s: Seq<u8>) -> int
    decreases s.len(),
{
    if s.len() == 0 {
        -1
    } else if s[0] == 10 {
        0
    } else {
        let r = nl_pos(s.drop_first());
        if r < 0 {
            -1
        } else {
            r + 1
        }
    }
}

/// The title part of a decrypted plaintext: everything before the first
/// newline, or the whole text when there is none.
pub open spec fn spec_title(p: Seq<u8>) -> Seq<u8> {
    if nl_pos(p) >= 0 {
        p.take(nl_pos(p))
    } else {
        p
    }
}

/// The body part: everything after the first newline, or empty.
pub open spec fn spec_body(p: Seq<u8>) -> Seq<u8> {
    if nl_pos(p) >= 0 {
        p.skip(nl_pos(p) + 1)
    } else {
        Seq::empty()
    }
}

/// Where the first newline sits: in range, a newline, nothing before it.
proof fn lemma_nl_pos_props(s: Seq<u8>)
    ensures
        nl_pos(s) >= 0 ==> nl_pos(s) < s.len() && s[nl_pos(s)] == 10 && forall|k: int|
            0 <= k < nl_pos(s) ==> s[k] != 10,
        nl_pos(s) < 0 ==> forall|k: int| 0 <= k < s.len() ==> s[k] != 10,
    decreases s.len(),
{
    if s.len() > 0 && s[0] != 10 {
        lemma_nl_pos_props(s.drop_first());
        let q = nl_pos(s);
        let qd = nl_pos(s.drop_first());
        if q >= 0 {
            assert(s[q] == s.drop_first()[qd]);
            assert forall|k: int| 0 <= k < q implies s[k] != 10 by {
                if k > 0 {
                    assert(s.drop_first()[k - 1] == s[k]);
                }
            }
        } else {
            assert forall|k: int| 0 <= k < s.len() implies s[k] != 10 by {
                if k > 0 {
                    assert(s.drop_first()[k - 1] == s[k]);
                }
            }
        }
    }
}

/// Splitting inverts joining, whenever the title itself has no newline.
pub proof fn lemma_split_join(title: Seq<u8>, body: Seq<u8>)
    requires
        forall|i: int| 0 <= i < title.len() ==> #[trigger] title[i] != 10,
    ensures
        spec_title(joined(title, body)) == title,
        spec_body(joined(title, body)) == body,
{
    let p = joined(title, body);
    lemma_nl_pos_props(p);
    assert(p[title.len() as int] == 10);
    assert forall|k: int| 0 <= k < title.len() implies p[k] != 10 by {
        assert(p[k] == title[k]);
    }
    let q = nl_pos(p);
    if q < 0 {
        assert(p[title.len() as int] != 10);
        assert(false);
    }
    if q < title.len() {
        assert(p[q] != 10);
        assert(false);
    }
    if q > title.len() {
        assert(p[title.len() as int] != 10);
        assert(false);
    }
    assert(q == title.len());
    assert(p.take(q) =~= title);
    assert(p.skip(q + 1) =~= body);
}

fn copy_range(p: &[u8], from: usize, to: usize) -> (r: Vec<u8>)
    requires
        from <= to <= p@.len(),
    ensures
        r@ == p@.subrange(from as int, to as int),
{
    let mut out: Vec<u8> = Vec::new();
    let mut j: usize = from;
    while j < to
        invariant
            from <= j <= to <= p@.len(),
            out@ == p@.subrange(from as int, j as int),
        decreases to - j,
    {
        out.push(p[j]);
        proof {
            assert(out@ =~= p@.subrange(from as int, j as int + 1));
        }
        j += 1;
    }
    out
}

/// Join a title and a body with one newline, ready for encryption.
pub fn join_title_body(title: &str, body: &str) -> (r: Vec<u8>)
    ensures
        r@ == joined(title.spec_bytes(), body.spec_bytes()),
{
    let mut out = title.as_bytes_vec();
    out.push(10u8);
    let mut rest = body.as_bytes_vec();
    out.append(&mut rest);
    proof {
        assert(out@ =~= joined(title.spec_bytes(), body.spec_bytes()));
    }
    out
}

/// Split a decrypted plaintext back into title and body at the first
/// newline.
pub fn split_title_body(p: &[u8]) -> (r: (Vec<u8>, Vec<u8>))
    ensures
        r.0@ == spec_title(p@),
        r.1@ == spec_body(p@),
{
    let n = p.len();
    let mut j: usize = 0;
    while j < n
        invariant
            n == p@.len(),
            j <= n,
            forall|k: int| 0 <= k < j ==> #[trigger] p@[k] != 10,
        decreases n - j,
    {
        if p[j] == 10 {
            proof {
                lemma_nl_pos_props(p@);
                let q = nl_pos(p@);
                if q < 0 {
                    assert(p@[j as int] != 10);
                }
                if 0 <= q < j {
                    assert(p@[q] != 10);
                }
                if q > j {
                    assert(p@[j as int] != 10);
                }
                assert(q == j);
            }
            let title = copy_range(p, 0, j);
            let body = copy_range(p, j + 1, n);
            proof {
                assert(title@ =~= spec_title(p@));
                assert(body@ =~= spec_body(p@));
            }
            return (title, body);
        }
        j += 1;
    }
    proof {
        lemma_nl_pos_props(p@);
        let q = nl_pos(p@);
        if q >= 0 {
            assert(p@[q] != 10);
        }
    }
    let title = copy_range(p, 0, n);
    proof {
        assert(title@ =~= p@);
    }
    (title, Vec::new())
}

/// A fresh store for a new password: a salt drawn by the password hasher,
/// no notes. The salt is non-empty, plain text, and long enough for key
/// derivation.
pub fn init_lockfile(password: &str) -> (r: LockFile)
    requires
        password_ok(password.spec_bytes()),
    ensures
        r@.notes == Seq::<NoteV>::empty(),
        r@.salt.len() == 22,
        doc_wf(r@),
        crate::crypto::salt_ok(vstd::utf8::encode_utf8(r@.salt)),
{
    let (salt, _hash) = hash_password(password);
    proof {
        assert forall|i: int| 0 <= i < salt@.len() implies plain_char(#[trigger] salt@[i]) by {
            assert(crate::crypto::b64_char(salt@[i]));
        }
        assert forall|i: int| 0 <= i < salt@.len() implies '\0' <= #[trigger] salt@[i]
            <= '\u{7f}' by {
            assert(plain_char(salt@[i]));
        }
        vstd::utf8::is_ascii_chars_encode_utf8(salt@);
        assert(vstd::utf8::encode_utf8(salt@).len() == salt@.len());
    }
    LockFile::new(salt)
}

/// Build one encrypted record from a title and a body: fresh random id,
/// fresh random nonce, plaintext `title + "\n" + body` sealed under the
/// key, both nonce and ciphertext hex-encoded. The record is fit for the
/// persisted document, and decrypts back to exactly the joined plaintext
/// under the same key.
pub fn make_note(title: &str, body: &str, key_bytes: &[u8; 32]) -> (r: StoredNote)
    requires
        title.spec_bytes().len() + 1 + body.spec_bytes().len() <= 0x1000000000,
    ensures
        note_wf(r@),
        r@.id.len() == 36,
        note_plain(r@, key_bytes@) == Some(
            joined(title.spec_bytes(), body.spec_bytes()),
        ),
{
    let plaintext = join_title_body(title, body);
    let (nonce, ciphertext) = encrypt(plaintext.as_slice(), key_bytes);
    let id = fresh_note_id();
    let nonce_hex = hex_encode(nonce.as_slice());
    let ct_hex = hex_encode(ciphertext.as_slice());
    proof {
        lemma_hex_round_trip(nonce@);
        lemma_hex_round_trip(ciphertext@);
        lemma_hex_plain(nonce@);
        lemma_hex_plain(ciphertext@);
    }
    StoredNote { id, nonce: nonce_hex, ciphertext: ct_hex }
}

/// Look a note up by id and decrypt it. Every failure is told apart:
/// `NotFound` when no record carries the id, `SerializationError` when a
/// stored field is not well-formed hex or the nonce has the wrong length,
/// `AuthenticationFailure` when the key is wrong or the data tampered.
pub fn view_note(lockfile: &LockFile, id: &str, key_bytes: &[u8; 32]) -> (r: Result<
    Vec<u8>,
    NoteError,
>)
    ensures
        match r {
            Ok(p) => spec_find(lockfile@.notes, id@) matches Some(n) && note_plain(n, key_bytes@)
                == Some(p@),
            Err(e) => match e {
                NoteError::NotFound => spec_find(lockfile@.notes, id@) is None,
                NoteError::AuthenticationFailure => spec_find(lockfile@.notes, id@) matches Some(n)
                    && note_plain(n, key_bytes@) is None && (crate::encoding::valid_hex(n.nonce)
                    && crate::encoding::valid_hex(n.ciphertext)
                    && crate::encoding::hex_val(n.nonce).len() == 12),
                NoteError::SerializationError => spec_find(lockfile@.notes, id@) matches Some(n)
                    && !(crate::encoding::valid_hex(n.nonce) && crate::encoding::valid_hex(
                    n.ciphertext,
                ) && crate::encoding::hex_val(n.nonce).len() == 12),
                _ => false,
            },
        },
{
    let note = match find_note(lockfile, id) {
        Some(n) => n,
        None => {
            return Err(NoteError::NotFound);
        },
    };
    let nonce = match hex_decode(note.nonce.as_str()) {
        Some(v) => v,
        None => {
            return Err(NoteError::SerializationError);
        },
    };
    let ciphertext = match hex_decode(note.ciphertext.as_str()) {
        Some(v) => v,
        None => {
            return Err(NoteError::SerializationError);
        },
    };
    if nonce.len() != 12 {
        return Err(NoteError::SerializationError);
    }
    match decrypt(ciphertext.as_slice(), nonce.as_slice(), key_bytes) {
        Some(plain) => Ok(plain),
        None => Err(NoteError::AuthenticationFailure),
    }
}

} // verus!
