//! In-memory store operations: append, remove by id, first-match lookup,
//! listing in insertion order, and keyword search over decrypted notes.

use vstd::prelude::*;
use vstd::string::StringSliceAdditionalSpecFns;

use crate::crypto::{aead_pt, decrypt};
use crate::encoding::{hex_decode, hex_val, valid_hex};
use crate::types::{LockFile, StoredNote, NoteV};

verus! {

/// First record whose id equals `id`, if any.
pub open spec fn spec_find(ns: Seq<NoteV>, id: Seq<char>) -> Option<NoteV>
    decreases ns.len(),
{
    if ns.len() == 0 {
        None
    } else if ns[0].id == id {
        Some(ns[0])
    } else {
        spec_find(ns.drop_first(), id)
    }
}

/// The sequence with every record whose id equals `id` removed.
pub open spec fn spec_remove(ns: Seq<NoteV>, id: Seq<char>) -> Seq<NoteV>
    decreases ns.len(),
{
    if ns.len() == 0 {
        Seq::empty()
    } else {
        let rest = spec_remove(ns.drop_last(), id);
        if ns.last().id == id {
            rest
        } else {
            rest.push(ns.last())
        }
    }
}

/// Append a record. Id uniqueness is the caller's responsibility: fresh ids
/// come from a 128-bit random generator, and this layer does not re-check.
pub fn add_note(lockfile: &mut LockFile, note: StoredNote)
    ensures
        final(lockfile)@.salt == old(lockfile)@.salt,
        final(lockfile)@.notes == old(lockfile)@.notes.push(note@),
{
    lockfile.notes.push(note);
    proof {
        assert(lockfile@.notes =~= old(lockfile)@.notes.push(note@));
    }
}

/// Remove every record whose id matches; report whether the list shrank.
pub fn remove_note(lockfile: &mut LockFile, id: &str) -> (removed: bool)
    ensures
        final(lockfile)@.salt == old(lockfile)@.salt,
        final(lockfile)@.notes == spec_remove(old(lockfile)@.notes, id@),
        removed == (final(lockfile)@.notes.len() < old(lockfile)@.notes.len()),
{
    let id_owned = id.to_owned();
    let before = lockfile.notes.len();
    let mut kept: Vec<StoredNote> = Vec::new();
    let n = lockfile.notes.len();
    let mut i: usize = 0;
    while i < n
        invariant
            n == lockfile.notes.len(),
            i <= n,
            kept@.map_values(|x: StoredNote| x@)
                == spec_remove(lockfile@.notes.take(i as int), id@),
            id_owned@ == id@,
        decreases n - i,
    {
        let ghost prefix = lockfile@.notes.take(i as int);
        let ghost prefix1 = lockfile@.notes.take(i as int + 1);
        proof {
            assert(prefix1.drop_last() =~= prefix);
            assert(prefix1.last() == lockfile@.notes[i as int]);
        }
        let keep = !lockfile.notes[i].id.eq(&id_owned);
        if keep {
            let note = lockfile.notes[i].clone();
            proof {
                assert(note@ == lockfile@.notes[i as int]);
            }
            kept.push(note);
        }
        i += 1;
        proof {
            assert(kept@.map_values(|x: StoredNote| x@)
                =~= spec_remove(lockfile@.notes.take(i as int), id@));
        }
    }
    proof {
        assert(lockfile@.notes.take(n as int) =~= lockfile@.notes);
    }
    let removed = kept.len() < before;
    lockfile.notes = kept;
    removed
}

/// First record with the given id, or absent.
pub fn find_note<'a>(lockfile: &'a LockFile, id: &str) -> (r: Option<&'a StoredNote>)
    ensures
        match r {
            Some(n) => spec_find(lockfile@.notes, id@) == Some(n@),
            None => spec_find(lockfile@.notes, id@) is None,
        },
{
    let id_owned = id.to_owned();
    let n = lockfile.notes.len();
    let mut i: usize = 0;
    proof {
        assert(lockfile@.notes.skip(0) =~= lockfile@.notes);
    }
    while i < n
        invariant
            n == lockfile.notes.len(),
            i <= n,
            spec_find(lockfile@.notes, id@)
                == spec_find(lockfile@.notes.skip(i as int), id@),
            id_owned@ == id@,
        decreases n - i,
    {
        let ghost suffix = lockfile@.notes.skip(i as int);
        proof {
            assert(suffix[0] == lockfile@.notes[i as int]);
            assert(suffix.drop_first() =~= lockfile@.notes.skip(i as int + 1));
        }
        if lockfile.notes[i].id.eq(&id_owned) {
            return Some(&lockfile.notes[i]);
        }
        i += 1;
    }
    proof {
        assert(lockfile@.notes.skip(n as int) =~= Seq::<NoteV>::empty());
    }
    None
}

/// The ids of all records, in insertion order.
pub fn list_notes(lockfile: &LockFile) -> (r: Vec<String>)
    ensures
        r@.len() == lockfile@.notes.len(),
        forall|i: int| 0 <= i < r@.len() ==> r@[i]@ == lockfile@.notes[i].id,
{
    let n = lockfile.notes.len();
    let mut ids: Vec<String> = Vec::new();
    let mut i: usize = 0;
    while i < n
        invariant
            n == lockfile.notes.len(),
            i <= n,
            ids@.len() == i,
            forall|j: int| 0 <= j < i ==> ids@[j]@ == lockfile@.notes[j].id,
        decreases n - i,
    {
        ids.push(lockfile.notes[i].id.clone());
        i += 1;
    }
    ids
}

/// The needle stands in the haystack starting at position `i`.
pub open spec fn is_sub_at(hay: Seq<u8>, needle: Seq<u8>, i: int) -> bool {
    0 <= i && i + needle.len() <= hay.len() && hay.subrange(i, i + needle.len()) == needle
}

/// The needle occurs somewhere in the haystack.
pub open spec fn contains_sub(hay: Seq<u8>, needle: Seq<u8>) -> bool {
    exists|i: int| is_sub_at(hay, needle, i)
}

/// What a record decrypts to under a key: absent when a text-encoded field
/// is malformed, the nonce has the wrong length, or authentication fails.
pub open spec fn note_plain(n: NoteV, key: Seq<u8>) -> Option<Seq<u8>> {
    if !valid_hex(n.nonce) || !valid_hex(n.ciphertext) {
        None
    } else if hex_val(n.nonce).len() != 12 {
        None
    } else {
        aead_pt(key, hex_val(n.nonce), hex_val(n.ciphertext))
    }
}

/// A record matches a search when it decrypts and the keyword occurs as a
/// literal case-sensitive substring of the plaintext bytes.
pub open spec fn note_matches(n: NoteV, keyword: Seq<u8>, key: Seq<u8>) -> bool {
    &&& note_plain(n, key) is Some
    &&& contains_sub(note_plain(n, key).unwrap(), keyword)
}

/// The ids of the matching records, in insertion order. A record that does
/// not decrypt is skipped, never a reason to abort the whole search.
pub open spec fn spec_search(ns: Seq<NoteV>, keyword: Seq<u8>, key: Seq<u8>) -> Seq<Seq<char>>
    decreases ns.len(),
{
    if ns.len() == 0 {
        Seq::empty()
    } else {
        let rest = spec_search(ns.drop_last(), keyword, key);
        if note_matches(ns.last(), keyword, key) {
            rest.push(ns.last().id)
        } else {
            rest
        }
    }
}

/// Byte-level substring test.
pub fn contains_bytes(hay: &[u8], needle: &[u8]) -> (r: bool)
    ensures
        r == contains_sub(hay@, needle@),
{
    let m = needle.len();
    let n = hay.len();
    if m > n {
        return false;
    }
    let mut i: usize = 0;
    while i <= n - m
        invariant
            m == needle@.len() <= n == hay@.len(),
            i <= n - m + 1,
            forall|k: int| 0 <= k < i ==> !is_sub_at(hay@, needle@, k),
        decreases n - m + 1 - i,
    {
        let mut j: usize = 0;
        while j < m && hay[i + j] == needle[j]
            invariant
                m == needle@.len() <= n == hay@.len(),
                i + m <= n,
                j <= m,
                forall|t: int| 0 <= t < j ==> hay@[i + t] == needle@[t],
            decreases m - j,
        {
            j += 1;
        }
        if j == m {
            proof {
                assert(hay@.subrange(i as int, i + m) =~= needle@);
                assert(is_sub_at(hay@, needle@, i as int));
            }
            return true;
        }
        proof {
            assert(hay@[i + j] != needle@[j as int]);
            if is_sub_at(hay@, needle@, i as int) {
                assert(hay@.subrange(i as int, i + m)[j as int] == hay@[i + j]);
            }
        }
        i += 1;
    }
    proof {
        assert forall|k: int| !is_sub_at(hay@, needle@, k) by {
            if k > n - m {
                assert(!is_sub_at(hay@, needle@, k));
            }
        }
    }
    false
}

/// Decrypt one record and test the keyword, per `note_matches`.
fn note_matches_exec(note: &StoredNote, keyword: &[u8], key_bytes: &[u8; 32]) -> (r: bool)
    ensures
        r == note_matches(note@, keyword@, key_bytes@),
{
    let nonce = match hex_decode(note.nonce.as_str()) {
        Some(v) => v,
        None => {
            return false;
        },
    };
    let ct = match hex_decode(note.ciphertext.as_str()) {
        Some(v) => v,
        None => {
            return false;
        },
    };
    if nonce.len() != 12 {
        return false;
    }
    match decrypt(ct.as_slice(), nonce.as_slice(), key_bytes) {
        Some(plain) => contains_bytes(plain.as_slice(), keyword),
        None => false,
    }
}

/// Search all records: decrypt each under the key and report, in insertion
/// order, the ids of those whose plaintext contains the keyword as a
/// literal case-sensitive substring. A record that fails to decode or to
/// authenticate is skipped and the search continues.
pub fn search_notes(lockfile: &LockFile, keyword: &str, key_bytes: &[u8; 32]) -> (r: Vec<String>)
    ensures
        r@.map_values(|s: String| s@) == spec_search(
            lockfile@.notes,
            keyword.spec_bytes(),
            key_bytes@,
        ),
{
    let kw = keyword.as_bytes();
    let n = lockfile.notes.len();
    let mut out: Vec<String> = Vec::new();
    let mut i: usize = 0;
    while i < n
        invariant
            n == lockfile.notes.len(),
            i <= n,
            kw@ == keyword.spec_bytes(),
            out@.map_values(|s: String| s@) == spec_search(
                lockfile@.notes.take(i as int),
                keyword.spec_bytes(),
                key_bytes@,
            ),
        decreases n - i,
    {
        let ghost prefix = lockfile@.notes.take(i as int);
        let ghost prefix1 = lockfile@.notes.take(i as int + 1);
        proof {
            assert(prefix1.drop_last() =~= prefix);
            assert(prefix1.last() == lockfile@.notes[i as int]);
        }
        if note_matches_exec(&lockfile.notes[i], kw, key_bytes) {
            out.push(lockfile.notes[i].id.clone());
        }
        i += 1;
        proof {
            assert(out@.map_values(|s: String| s@) =~= spec_search(
                lockfile@.notes.take(i as int),
                keyword.spec_bytes(),
                key_bytes@,
            ));
        }
    }
    proof {
        assert(lockfile@.notes.take(n as int) =~= lockfile@.notes);
    }
    out
}

/// After an append of a record whose id is absent, lookup of that id finds
/// exactly the appended record.
pub proof fn lemma_add_then_find(ns: Seq<NoteV>, n: NoteV)
    requires
        spec_find(ns, n.id) is None,
    ensures
        spec_find(ns.push(n), n.id) == Some(n),
    decreases ns.len(),
{
    if ns.len() == 0 {
        assert(ns.push(n)[0] == n);
    } else {
        assert(ns.push(n)[0] == ns[0]);
        assert(ns.push(n).drop_first() =~= ns.drop_first().push(n));
        lemma_add_then_find(ns.drop_first(), n);
    }
}

/// Lookup misses exactly when no record carries the id.
pub proof fn lemma_find_none_iff(ns: Seq<NoteV>, id: Seq<char>)
    ensures
        (spec_find(ns, id) is None)
            <==> (forall|i: int| 0 <= i < ns.len() ==> (#[trigger] ns[i]).id != id),
    decreases ns.len(),
{
    if ns.len() > 0 {
        lemma_find_none_iff(ns.drop_first(), id);
        if spec_find(ns, id) is None {
            assert forall|i: int| 0 <= i < ns.len() implies (#[trigger] ns[i]).id != id by {
                if i > 0 {
                    assert(ns.drop_first()[i - 1] == ns[i]);
                }
            }
        } else {
            if ns[0].id != id {
                assert(spec_find(ns.drop_first(), id) is Some);
                assert(exists|j: int|
                    0 <= j < ns.drop_first().len()
                        && (#[trigger] ns.drop_first()[j]).id == id);
                let j = choose|j: int|
                    0 <= j < ns.drop_first().len()
                        && (#[trigger] ns.drop_first()[j]).id == id;
                assert(ns[j + 1].id == id);
            }
        }
    }
}

/// No record that survives a removal carries the removed id.
pub proof fn lemma_remove_no_id(ns: Seq<NoteV>, id: Seq<char>)
    ensures
        forall|i: int|
            0 <= i < spec_remove(ns, id).len()
                ==> (#[trigger] spec_remove(ns, id)[i]).id != id,
    decreases ns.len(),
{
    if ns.len() > 0 {
        lemma_remove_no_id(ns.drop_last(), id);
        let r = spec_remove(ns, id);
        let rest = spec_remove(ns.drop_last(), id);
        if ns.last().id != id {
            assert forall|i: int| 0 <= i < r.len() implies (#[trigger] r[i]).id != id by {
                if i < rest.len() {
                    assert(r[i] == rest[i]);
                } else {
                    assert(r[i] == ns.last());
                }
            }
        }
    }
}

/// After a removal, lookup of the removed id is absent.
pub proof fn lemma_remove_then_find(ns: Seq<NoteV>, id: Seq<char>)
    ensures
        spec_find(spec_remove(ns, id), id) is None,
{
    lemma_remove_no_id(ns, id);
    lemma_find_none_iff(spec_remove(ns, id), id);
}

/// Removing an id that no record carries leaves the sequence unchanged.
pub proof fn lemma_remove_absent(ns: Seq<NoteV>, id: Seq<char>)
    requires
        spec_find(ns, id) is None,
    ensures
        spec_remove(ns, id) == ns,
    decreases ns.len(),
{
    lemma_find_none_iff(ns, id);
    if ns.len() > 0 {
        lemma_find_none_iff(ns.drop_last(), id);
        lemma_remove_absent(ns.drop_last(), id);
        assert(spec_remove(ns, id) =~= ns);
    } else {
        assert(spec_remove(ns, id) =~= ns);
    }
}

} // verus!
