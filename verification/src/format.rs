//! The persisted document: a JSON object with two fields, the salt and the
//! ordered list of notes, every text field written verbatim between quotes.
//! Rendering and parsing are both verified, and parsing inverts rendering:
//! a store survives a save and a load unchanged, field for field.

use vstd::prelude::*;
use vstd::string::StrSliceExecFns;
use vstd::string::StringSliceAdditionalSpecFns;
use vstd::string::StringExecFns;
use vstd::utf8::is_ascii_chars;

use crate::types::{plain_char, plain_str, DocV, LockFile, NoteError, NoteV, StoredNote};

verus! {

pub open spec fn lit_doc_open() -> Seq<char> {
    seq!['{', '"', 's', 'a', 'l', 't', '"', ':', '"']
}

pub open spec fn lit_notes_tail() -> Seq<char> {
    seq![',', '"', 'n', 'o', 't', 'e', 's', '"', ':', '[']
}

pub open spec fn lit_note_open() -> Seq<char> {
    seq!['{', '"', 'i', 'd', '"', ':', '"']
}

pub open spec fn lit_nonce_tail() -> Seq<char> {
    seq![',', '"', 'n', 'o', 'n', 'c', 'e', '"', ':', '"']
}

pub open spec fn lit_ct_tail() -> Seq<char> {
    seq![',', '"', 'c', 'i', 'p', 'h', 'e', 'r', 't', 'e', 'x', 't', '"', ':', '"']
}

pub open spec fn lit_close_brace() -> Seq<char> {
    seq!['}']
}

pub open spec fn lit_doc_close() -> Seq<char> {
    seq![']', '}']
}

pub open spec fn quote() -> Seq<char> {
    seq!['"']
}

pub open spec fn comma() -> Seq<char> {
    seq![',']
}

/// One rendered note record.
pub open spec fn render_note(n: NoteV) -> Seq<char> {
    lit_note_open() + n.id + quote() + lit_nonce_tail() + n.nonce + quote() + lit_ct_tail()
        + n.ciphertext + quote() + lit_close_brace()
}

/// The rendered note list, comma-separated.
pub open spec fn render_notes(ns: Seq<NoteV>) -> Seq<char>
    decreases ns.len(),
{
    if ns.len() == 0 {
        Seq::empty()
    } else if ns.len() == 1 {
        render_note(ns[0])
    } else {
        render_note(ns[0]) + comma() + render_notes(ns.drop_first())
    }
}

/// The whole rendered document.
pub open spec fn spec_render(d: DocV) -> Seq<char> {
    lit_doc_open() + d.salt + quote() + lit_notes_tail() + render_notes(d.notes)
        + lit_doc_close()
}

/// Index of the first `"` in `s`, or -1 when there is none.
pub open spec fn quote_pos(s: Seq<char>) -> int
    decreases s.len(),
{
    if s.len() == 0 {
        -1
    } else if s[0] == '"' {
        0
    } else {
        let r = quote_pos(s.drop_first());
        if r < 0 {
            -1
        } else {
            r + 1
        }
    }
}

/// A quoted field: the plain characters before the first `"`; the count
/// consumed includes the closing quote.
pub open spec fn parse_field(s: Seq<char>) -> Option<(Seq<char>, int)> {
    let q = quote_pos(s);
    if 0 <= q && plain_str(s.take(q)) {
        Some((s.take(q), q + 1))
    } else {
        None
    }
}

/// One note record: its three quoted fields between the fixed literals.
#[verifier::opaque]
pub open spec fn parse_note(s: Seq<char>) -> Option<(NoteV, int)> {
    if !lit_note_open().is_prefix_of(s) {
        None
    } else {
        let s1 = s.skip(lit_note_open().len() as int);
        match parse_field(s1) {
            None => None,
            Some((id, c1)) => {
                let s2 = s1.skip(c1);
                if !lit_nonce_tail().is_prefix_of(s2) {
                    None
                } else {
                    let s3 = s2.skip(lit_nonce_tail().len() as int);
                    match parse_field(s3) {
                        None => None,
                        Some((nonce, c3)) => {
                            let s4 = s3.skip(c3);
                            if !lit_ct_tail().is_prefix_of(s4) {
                                None
                            } else {
                                let s5 = s4.skip(lit_ct_tail().len() as int);
                                match parse_field(s5) {
                                    None => None,
                                    Some((ct, c5)) => {
                                        let s6 = s5.skip(c5);
                                        if !lit_close_brace().is_prefix_of(s6) {
                                            None
                                        } else {
                                            Some(
                                                (
                                                    NoteV { id, nonce, ciphertext: ct },
                                                    lit_note_open().len() + c1
                                                        + lit_nonce_tail().len() + c3
                                                        + lit_ct_tail().len() + c5
                                                        + lit_close_brace().len(),
                                                ),
                                            )
                                        }
                                    },
                                }
                            }
                        },
                    }
                }
            },
        }
    }
}

/// The note list with its closing `]}`: empty list, or records separated
/// by commas.
pub open spec fn parse_notes(s: Seq<char>) -> Option<(Seq<NoteV>, int)>
    decreases s.len(),
{
    if lit_doc_close().is_prefix_of(s) {
        Some((Seq::empty(), lit_doc_close().len() as int))
    } else {
        match parse_note(s) {
            None => None,
            Some((n, c)) => {
                if 0 <= c && c < s.len() && s[c] == ',' {
                    match parse_notes(s.skip(c + 1)) {
                        None => None,
                        Some((rest, c2)) => Some((seq![n] + rest, c + 1 + c2)),
                    }
                } else if 0 <= c && c <= s.len() && lit_doc_close().is_prefix_of(s.skip(c)) {
                    Some((seq![n], c + lit_doc_close().len()))
                } else {
                    None
                }
            },
        }
    }
}

/// The document a character sequence stands for, if any: ASCII text of the
/// exact two-field shape, with nothing trailing.
pub open spec fn spec_parse(s: Seq<char>) -> Option<DocV> {
    if !is_ascii_chars(s) {
        None
    } else if !lit_doc_open().is_prefix_of(s) {
        None
    } else {
        let s1 = s.skip(lit_doc_open().len() as int);
        match parse_field(s1) {
            None => None,
            Some((salt, c1)) => {
                let s2 = s1.skip(c1);
                if !lit_notes_tail().is_prefix_of(s2) {
                    None
                } else {
                    let s3 = s2.skip(lit_notes_tail().len() as int);
                    match parse_notes(s3) {
                        None => None,
                        Some((notes, c3)) => {
                            if c3 == s3.len() {
                                Some(DocV { salt, notes })
                            } else {
                                None
                            }
                        },
                    }
                }
            },
        }
    }
}

/// Where the first quote sits: in range, a quote, nothing before it.
proof fn lemma_quote_pos_props(s: Seq<char>)
    ensures
        quote_pos(s) >= 0 ==> quote_pos(s) < s.len() && s[quote_pos(s)] == '"' && forall|k: int|
            0 <= k < quote_pos(s) ==> s[k] != '"',
        quote_pos(s) < 0 ==> forall|k: int| 0 <= k < s.len() ==> s[k] != '"',
    decreases s.len(),
{
    if s.len() > 0 && s[0] != '"' {
        lemma_quote_pos_props(s.drop_first());
        let q = quote_pos(s);
        let qd = quote_pos(s.drop_first());
        if q >= 0 {
            assert(s[q] == s.drop_first()[qd]);
            assert forall|k: int| 0 <= k < q implies s[k] != '"' by {
                if k > 0 {
                    assert(s.drop_first()[k - 1] == s[k]);
                }
            }
        } else {
            assert forall|k: int| 0 <= k < s.len() implies s[k] != '"' by {
                if k > 0 {
                    assert(s.drop_first()[k - 1] == s[k]);
                }
            }
        }
    }
}

/// Bytes and characters of an ASCII string correspond position by position.
proof fn lemma_ascii_bytes(s: &str)
    requires
        s.is_ascii(),
    ensures
        s.spec_bytes().len() == s@.len(),
        forall|i: int| 0 <= i < s@.len() ==> s.spec_bytes()[i] == (#[trigger] s@[i]) as u8,
        forall|i: int| 0 <= i < s@.len() ==> (#[trigger] s.spec_bytes()[i]) as char == s@[i],
{
    broadcast use vstd::string::is_ascii_spec_bytes;

    assert forall|i: int| 0 <= i < s@.len() implies (#[trigger] s.spec_bytes()[i]) as char
        == s@[i] by {
        assert('\0' <= s@[i] <= '\u{7f}');
        assert(s.spec_bytes()[i] == s@[i] as u8);
    }
}

/// Strip an expected literal from the front, or report that it is not there.
fn expect_lit<'a>(s: &'a str, lit: &str) -> (r: Option<&'a str>)
    requires
        s.is_ascii(),
        lit.is_ascii(),
    ensures
        match r {
            Some(rest) => lit@.is_prefix_of(s@) && rest@ == s@.skip(lit@.len() as int)
                && rest.is_ascii(),
            None => !lit@.is_prefix_of(s@),
        },
{
    proof {
        lemma_ascii_bytes(s);
        lemma_ascii_bytes(lit);
    }
    let sb = s.as_bytes();
    let lb = lit.as_bytes();
    let n = lb.len();
    if n > sb.len() {
        return None;
    }
    let mut j: usize = 0;
    while j < n
        invariant
            s.is_ascii(),
            lit.is_ascii(),
            sb@ == s.spec_bytes(),
            lb@ == lit.spec_bytes(),
            n == lb@.len() == lit@.len(),
            n <= sb@.len(),
            sb@.len() == s@.len(),
            forall|k: int| 0 <= k < s@.len() ==> sb@[k] == (#[trigger] s@[k]) as u8,
            forall|k: int| 0 <= k < s@.len() ==> (#[trigger] sb@[k]) as char == s@[k],
            forall|k: int| 0 <= k < lit@.len() ==> lb@[k] == (#[trigger] lit@[k]) as u8,
            forall|k: int| 0 <= k < lit@.len() ==> (#[trigger] lb@[k]) as char == lit@[k],
            forall|k: int| 0 <= k < j ==> #[trigger] s@[k] == lit@[k],
        decreases n - j,
    {
        if sb[j] != lb[j] {
            proof {
                if lit@.is_prefix_of(s@) {
                    assert(s@.subrange(0, lit@.len() as int)[j as int] == s@[j as int]);
                    assert(s@[j as int] == lit@[j as int]);
                }
            }
            return None;
        }
        proof {
            assert((sb@[j as int]) as char == s@[j as int]);
            assert((lb@[j as int]) as char == lit@[j as int]);
        }
        j += 1;
    }
    proof {
        assert(lit@ =~= s@.subrange(0, lit@.len() as int));
    }
    Some(s.substring_ascii(n, sb.len()))
}

/// Read a quoted field: the plain characters up to the first `"`, which is
/// consumed with them.
fn scan_field<'a>(s: &'a str) -> (r: Option<(String, &'a str)>)
    requires
        s.is_ascii(),
    ensures
        match r {
            Some((f, rest)) => parse_field(s@) == Some((f@, f@.len() + 1 as int)) && rest@ == s@.skip(
                f@.len() as int + 1,
            ) && rest.is_ascii() && plain_str(f@) && f@.len() < s@.len(),
            None => parse_field(s@) is None,
        },
{
    proof {
        lemma_ascii_bytes(s);
    }
    let sb = s.as_bytes();
    let n = sb.len();
    let mut j: usize = 0;
    while j < n
        invariant
            s.is_ascii(),
            sb@ == s.spec_bytes(),
            n == s@.len() == sb@.len(),
            j <= n,
            forall|k: int| 0 <= k < s@.len() ==> sb@[k] == (#[trigger] s@[k]) as u8,
            forall|k: int| 0 <= k < s@.len() ==> (#[trigger] sb@[k]) as char == s@[k],
            forall|k: int| 0 <= k < j ==> #[trigger] s@[k] != '"' && plain_char(s@[k]),
        decreases n - j,
    {
        let b = sb[j];
        if b == 0x22 {
            proof {
                lemma_quote_pos_props(s@);
                assert(s@[j as int] == '"');
                let q = quote_pos(s@);
                if q < 0 {
                    assert(s@[j as int] != '"');
                }
                if 0 <= q < j {
                    assert(s@[q] != '"');
                }
                if q > j {
                    assert(s@[j as int] != '"');
                }
                assert(q == j);
                assert(plain_str(s@.take(j as int)));
            }
            let f = s.substring_ascii(0, j).to_owned();
            let rest = s.substring_ascii(j + 1, n);
            proof {
                assert(f@ == s@.take(j as int));
                assert(f@.len() == j);
                assert(rest@ == s@.skip(j as int + 1));
            }
            return Some((f, rest));
        }
        if b < 0x20 || b > 0x7e || b == 0x5c {
            proof {
                lemma_quote_pos_props(s@);
                assert(s@[j as int] != '"');
                assert(!plain_char(s@[j as int]));
                let q = quote_pos(s@);
                if q >= 0 {
                    if q <= j {
                        assert(s@[q] == '"');
                    }
                    assert(q > j);
                    assert(s@.take(q)[j as int] == s@[j as int]);
                    assert(!plain_str(s@.take(q)));
                }
            }
            return None;
        }
        proof {
            assert(s@[j as int] != '"' && plain_char(s@[j as int]));
        }
        j += 1;
    }
    proof {
        lemma_quote_pos_props(s@);
        let q = quote_pos(s@);
        if q >= 0 {
            assert(s@[q] != '"');
        }
    }
    None
}

/// Parse one note record.
fn parse_note_exec<'a>(s: &'a str) -> (r: Option<(StoredNote, &'a str)>)
    requires
        s.is_ascii(),
    ensures
        match r {
            Some((note, rest)) => {
                &&& parse_note(s@) matches Some(p)
                &&& parse_note(s@).unwrap().0 == note@
                &&& 0 < parse_note(s@).unwrap().1 <= s@.len()
                &&& rest@ == s@.skip(parse_note(s@).unwrap().1)
                &&& rest.is_ascii()
                &&& crate::types::note_wf(note@)
            },
            None => parse_note(s@) is None,
        },
{
    proof {
        reveal(parse_note);
        reveal_strlit("{\"id\":\"");
        assert("{\"id\":\""@ =~= lit_note_open());
        reveal_strlit(",\"nonce\":\"");
        assert(",\"nonce\":\""@ =~= lit_nonce_tail());
        reveal_strlit(",\"ciphertext\":\"");
        assert(",\"ciphertext\":\""@ =~= lit_ct_tail());
        reveal_strlit("}");
        assert("}"@ =~= lit_close_brace());
    }
    let s1 = match expect_lit(s, "{\"id\":\"") {
        Some(r) => r,
        None => {
            return None;
        },
    };
    let (id, s2) = match scan_field(s1) {
        Some(r) => r,
        None => {
            return None;
        },
    };
    let s3 = match expect_lit(s2, ",\"nonce\":\"") {
        Some(r) => r,
        None => {
            return None;
        },
    };
    let (nonce, s4) = match scan_field(s3) {
        Some(r) => r,
        None => {
            return None;
        },
    };
    let s5 = match expect_lit(s4, ",\"ciphertext\":\"") {
        Some(r) => r,
        None => {
            return None;
        },
    };
    let (ct, s6) = match scan_field(s5) {
        Some(r) => r,
        None => {
            return None;
        },
    };
    let s7 = match expect_lit(s6, "}") {
        Some(r) => r,
        None => {
            return None;
        },
    };
    let note = StoredNote { id, nonce, ciphertext: ct };
    proof {
        let k1: int = lit_note_open().len() as int;
        let k2: int = k1 + id@.len() + 1;
        let k3: int = k2 + lit_nonce_tail().len();
        let k4: int = k3 + nonce@.len() + 1;
        let k5: int = k4 + lit_ct_tail().len();
        let k6: int = k5 + ct@.len() + 1;
        let k7: int = k6 + lit_close_brace().len();
        assert(s1@ == s@.skip(k1));
        assert(s2@ =~= s@.skip(k2));
        assert(s3@ =~= s@.skip(k3));
        assert(s4@ =~= s@.skip(k4));
        assert(s5@ =~= s@.skip(k5));
        assert(s6@ =~= s@.skip(k6));
        assert(s7@ =~= s@.skip(k7));
        assert(parse_note(s@) == Some((note@, k7)));
    }
    Some((note, s7))
}

/// Parse the note list with its closing `]}`.
#[verifier::rlimit(50)]
fn parse_notes_exec<'a>(s: &'a str) -> (r: Option<(Vec<StoredNote>, &'a str)>)
    requires
        s.is_ascii(),
    ensures
        match r {
            Some((v, rest)) => {
                &&& parse_notes(s@) matches Some(p)
                &&& parse_notes(s@).unwrap().0 == v@.map_values(|x: StoredNote| x@)
                &&& 0 <= parse_notes(s@).unwrap().1 <= s@.len()
                &&& rest@ == s@.skip(parse_notes(s@).unwrap().1)
                &&& rest.is_ascii()
                &&& forall|i: int|
                    0 <= i < v@.len() ==> crate::types::note_wf(#[trigger] v@[i]@)
            },
            None => parse_notes(s@) is None,
        },
    decreases s@.len(),
{
    proof {
        reveal_strlit("]}");
        assert("]}"@ =~= lit_doc_close());
        reveal_strlit(",");
        assert(","@ =~= comma());
    }
    if let Some(rest) = expect_lit(s, "]}") {
        let v: Vec<StoredNote> = Vec::new();
        proof {
            assert(v@.map_values(|x: StoredNote| x@) =~= Seq::<NoteV>::empty());
        }
        return Some((v, rest));
    }
    let (note, r1) = match parse_note_exec(s) {
        Some(x) => x,
        None => {
            return None;
        },
    };
    let ghost c = parse_note(s@).unwrap().1;
    if let Some(r2) = expect_lit(r1, ",") {
        proof {
            assert(","@.len() == 1);
            assert(r1@.len() >= 1);
            assert(","@ =~= r1@.subrange(0, 1));
            assert(r1@.subrange(0, 1)[0] == r1@[0]);
            assert(r1@[0] == ',');
            assert(r1@[0] == s@.skip(c)[0]);
            assert(s@[c] == ',');
            assert(r2@ == r1@.skip(1));
            assert(r2@ =~= s@.skip(c + 1));
            assert(r2@.len() < s@.len());
        }
        let (mut v, rest) = match parse_notes_exec(r2) {
            Some(x) => x,
            None => {
                return None;
            },
        };
        v.insert(0, note);
        proof {
            let p2 = parse_notes(s@.skip(c + 1)).unwrap();
            assert(v@.map_values(|x: StoredNote| x@) =~= seq![note@] + p2.0);
            assert(rest@ =~= s@.skip(c + 1 + p2.1));
        }
        return Some((v, rest));
    }
    proof {
        if c < s@.len() && s@[c] == ',' {
            assert(r1@[0] == s@.skip(c)[0]);
            assert(r1@[0] == ',');
            assert(","@ =~= r1@.subrange(0, 1));
            assert(","@.is_prefix_of(r1@));
        }
    }
    if let Some(r2) = expect_lit(r1, "]}") {
        let mut v: Vec<StoredNote> = Vec::new();
        v.push(note);
        proof {
            assert(v@.map_values(|x: StoredNote| x@) =~= seq![note@]);
            assert(r2@ == r1@.skip(2));
            assert(r2@ =~= s@.skip(c + lit_doc_close().len()));
            assert(lit_doc_close().is_prefix_of(s@.skip(c)));
        }
        return Some((v, r2));
    }
    None
}

/// Parse a persisted document. Fails with `SerializationError` exactly when
/// the text does not stand for any store.
pub fn parse_lockfile(doc: &str) -> (r: Result<LockFile, NoteError>)
    ensures
        match r {
            Ok(lf) => spec_parse(doc@) == Some(lf@) && crate::types::doc_wf(lf@),
            Err(e) => e == NoteError::SerializationError && spec_parse(doc@) is None,
        },
{
    proof {
        reveal_strlit("{\"salt\":\"");
        assert("{\"salt\":\""@ =~= lit_doc_open());
        reveal_strlit(",\"notes\":[");
        assert(",\"notes\":["@ =~= lit_notes_tail());
    }
    if !doc.is_ascii() {
        return Err(NoteError::SerializationError);
    }
    let s1 = match expect_lit(doc, "{\"salt\":\"") {
        Some(r) => r,
        None => {
            return Err(NoteError::SerializationError);
        },
    };
    let (salt, s2) = match scan_field(s1) {
        Some(r) => r,
        None => {
            return Err(NoteError::SerializationError);
        },
    };
    let s3 = match expect_lit(s2, ",\"notes\":[") {
        Some(r) => r,
        None => {
            return Err(NoteError::SerializationError);
        },
    };
    let (notes, rest) = match parse_notes_exec(s3) {
        Some(r) => r,
        None => {
            return Err(NoteError::SerializationError);
        },
    };
    if !rest.is_empty() {
        proof {
            assert(parse_notes(s3@).unwrap().1 != s3@.len());
        }
        return Err(NoteError::SerializationError);
    }
    let lf = LockFile { salt, notes };
    proof {
        assert(parse_notes(s3@).unwrap().1 == s3@.len());
        assert(lf@ =~= DocV {
            salt: parse_field(s1@).unwrap().0,
            notes: parse_notes(s3@).unwrap().0,
        });
    }
    Ok(lf)
}

/// Render a store as its persisted document.
pub fn render_lockfile(lockfile: &LockFile) -> (r: String)
    ensures
        r@ == spec_render(lockfile@),
{
    proof {
        reveal_strlit("{\"salt\":\"");
        assert("{\"salt\":\""@ =~= lit_doc_open());
        reveal_strlit(",\"notes\":[");
        assert(",\"notes\":["@ =~= lit_notes_tail());
        reveal_strlit("{\"id\":\"");
        assert("{\"id\":\""@ =~= lit_note_open());
        reveal_strlit(",\"nonce\":\"");
        assert(",\"nonce\":\""@ =~= lit_nonce_tail());
        reveal_strlit(",\"ciphertext\":\"");
        assert(",\"ciphertext\":\""@ =~= lit_ct_tail());
        reveal_strlit("}");
        assert("}"@ =~= lit_close_brace());
        reveal_strlit("]}");
        assert("]}"@ =~= lit_doc_close());
        reveal_strlit("\"");
        assert("\""@ =~= quote());
        reveal_strlit(",");
        assert(","@ =~= comma());
    }
    let mut out = String::new();
    out.append("{\"salt\":\"");
    out.append(lockfile.salt.as_str());
    out.append("\"");
    out.append(",\"notes\":[");
    let ghost head = lit_doc_open() + lockfile@.salt + quote() + lit_notes_tail();
    proof {
        assert(out@ =~= head + render_notes(lockfile@.notes.take(0)));
    }
    let n = lockfile.notes.len();
    let mut i: usize = 0;
    while i < n
        invariant
            n == lockfile.notes.len(),
            i <= n,
            out@ == head + render_notes(lockfile@.notes.take(i as int)),
            "\""@ == quote(),
            ","@ == comma(),
            "{\"id\":\""@ == lit_note_open(),
            ",\"nonce\":\""@ == lit_nonce_tail(),
            ",\"ciphertext\":\""@ == lit_ct_tail(),
            "}"@ == lit_close_brace(),
        decreases n - i,
    {
        if i > 0 {
            out.append(",");
        }
        let note = &lockfile.notes[i];
        out.append("{\"id\":\"");
        out.append(note.id.as_str());
        out.append("\"");
        out.append(",\"nonce\":\"");
        out.append(note.nonce.as_str());
        out.append("\"");
        out.append(",\"ciphertext\":\"");
        out.append(note.ciphertext.as_str());
        out.append("\"");
        out.append("}");
        proof {
            let prefix = lockfile@.notes.take(i as int);
            let prefix1 = lockfile@.notes.take(i as int + 1);
            assert(prefix1 =~= prefix.push(lockfile@.notes[i as int]));
            lemma_render_notes_push(prefix, lockfile@.notes[i as int]);
            assert(out@ =~= head + render_notes(prefix1));
        }
        i += 1;
    }
    out.append("]}");
    proof {
        assert(lockfile@.notes.take(n as int) =~= lockfile@.notes);
        assert(out@ =~= spec_render(lockfile@));
    }
    out
}

/// Appending one more note extends the rendered list by a comma (when the
/// list was not empty) and the new record.
proof fn lemma_render_notes_push(ns: Seq<NoteV>, x: NoteV)
    ensures
        render_notes(ns.push(x)) == if ns.len() == 0 {
            render_note(x)
        } else {
            render_notes(ns) + comma() + render_note(x)
        },
    decreases ns.len(),
{
    let p = ns.push(x);
    if ns.len() == 0 {
        assert(p[0] == x);
    } else if ns.len() == 1 {
        assert(p[0] == ns[0]);
        assert(p.drop_first() =~= seq![x]);
        assert(render_notes(seq![x]) == render_note(x));
    } else {
        assert(p[0] == ns[0]);
        assert(p.drop_first() =~= ns.drop_first().push(x));
        lemma_render_notes_push(ns.drop_first(), x);
        assert(render_notes(ns.push(x)) =~= render_notes(ns) + comma() + render_note(x));
    }
}

/// Characters below 0x80 stay below 0x80 across concatenation.
proof fn lemma_ascii_concat(a: Seq<char>, b: Seq<char>)
    requires
        is_ascii_chars(a),
        is_ascii_chars(b),
    ensures
        is_ascii_chars(a + b),
{
    assert forall|i: int| 0 <= i < (a + b).len() implies '\0' <= #[trigger] (a + b)[i]
        <= '\u{7f}' by {
        if i < a.len() {
            assert((a + b)[i] == a[i]);
        } else {
            assert((a + b)[i] == b[i - a.len()]);
        }
    }
}

/// Plain printable text is ASCII.
proof fn lemma_plain_ascii(s: Seq<char>)
    requires
        plain_str(s),
    ensures
        is_ascii_chars(s),
{
    assert forall|i: int| 0 <= i < s.len() implies '\0' <= #[trigger] s[i] <= '\u{7f}' by {
        assert(plain_char(s[i]));
    }
}

/// A rendered note is ASCII text.
proof fn lemma_render_note_ascii(n: NoteV)
    requires
        crate::types::note_wf(n),
    ensures
        is_ascii_chars(render_note(n)),
{
    lemma_plain_ascii(n.id);
    lemma_plain_ascii(n.nonce);
    lemma_plain_ascii(n.ciphertext);
    assert(is_ascii_chars(lit_note_open()));
    assert(is_ascii_chars(quote()));
    assert(is_ascii_chars(lit_nonce_tail()));
    assert(is_ascii_chars(lit_ct_tail()));
    assert(is_ascii_chars(lit_close_brace()));
    let a1 = lit_note_open() + n.id;
    lemma_ascii_concat(lit_note_open(), n.id);
    let a2 = a1 + quote();
    lemma_ascii_concat(a1, quote());
    let a3 = a2 + lit_nonce_tail();
    lemma_ascii_concat(a2, lit_nonce_tail());
    let a4 = a3 + n.nonce;
    lemma_ascii_concat(a3, n.nonce);
    let a5 = a4 + quote();
    lemma_ascii_concat(a4, quote());
    let a6 = a5 + lit_ct_tail();
    lemma_ascii_concat(a5, lit_ct_tail());
    let a7 = a6 + n.ciphertext;
    lemma_ascii_concat(a6, n.ciphertext);
    let a8 = a7 + quote();
    lemma_ascii_concat(a7, quote());
    lemma_ascii_concat(a8, lit_close_brace());
}

/// A rendered note list is ASCII text.
proof fn lemma_render_notes_ascii(ns: Seq<NoteV>)
    requires
        forall|i: int| 0 <= i < ns.len() ==> crate::types::note_wf(#[trigger] ns[i]),
    ensures
        is_ascii_chars(render_notes(ns)),
    decreases ns.len(),
{
    if ns.len() == 0 {
    } else if ns.len() == 1 {
        lemma_render_note_ascii(ns[0]);
    } else {
        lemma_render_note_ascii(ns[0]);
        assert forall|i: int| 0 <= i < ns.drop_first().len() implies crate::types::note_wf(
            #[trigger] ns.drop_first()[i],
        ) by {
            assert(ns.drop_first()[i] == ns[i + 1]);
        }
        lemma_render_notes_ascii(ns.drop_first());
        assert(is_ascii_chars(comma()));
        lemma_ascii_concat(render_note(ns[0]), comma());
        lemma_ascii_concat(render_note(ns[0]) + comma(), render_notes(ns.drop_first()));
        assert(render_notes(ns) == render_note(ns[0]) + comma() + render_notes(ns.drop_first()));
    }
}

/// A quoted plain field followed by anything parses back to itself.
proof fn lemma_parse_field_of(f: Seq<char>, rest: Seq<char>)
    requires
        plain_str(f),
    ensures
        parse_field(f + quote() + rest) == Some((f, f.len() + 1 as int)),
        (f + quote() + rest).skip(f.len() as int + 1) == rest,
{
    let s = f + quote() + rest;
    lemma_quote_pos_props(s);
    assert(s[f.len() as int] == '"');
    assert forall|k: int| 0 <= k < f.len() implies s[k] != '"' by {
        assert(s[k] == f[k]);
        assert(plain_char(f[k]));
    }
    let q = quote_pos(s);
    if q < 0 {
        assert(s[f.len() as int] != '"');
        assert(false);
    }
    if q < f.len() {
        assert(s[q] != '"');
        assert(false);
    }
    if q > f.len() {
        assert(s[f.len() as int] != '"');
        assert(false);
    }
    assert(q == f.len());
    assert(s.take(q) =~= f);
    assert(s.skip(q + 1) =~= rest);
}

/// One rendered note followed by anything parses back to itself.
#[verifier::rlimit(100)]
#[verifier::spinoff_prover]
proof fn lemma_parse_note_of(n: NoteV, rest: Seq<char>)
    requires
        crate::types::note_wf(n),
    ensures
        parse_note(render_note(n) + rest) == Some((n, render_note(n).len() as int)),
        (render_note(n) + rest).skip(render_note(n).len() as int) == rest,
{
    reveal(parse_note);
    let rn = render_note(n);
    let s = rn + rest;
    let tail3 = lit_close_brace() + rest;
    let tail2 = lit_ct_tail() + n.ciphertext + quote() + tail3;
    let tail1 = lit_nonce_tail() + n.nonce + quote() + tail2;
    assert(s =~= lit_note_open() + (n.id + quote() + tail1));
    assert(lit_note_open() =~= s.subrange(0, lit_note_open().len() as int));
    assert(lit_note_open().is_prefix_of(s));
    let s1 = s.skip(lit_note_open().len() as int);
    assert(s1 =~= n.id + quote() + tail1);
    lemma_parse_field_of(n.id, tail1);
    assert(parse_field(s1) == Some((n.id, n.id.len() + 1 as int)));
    let s2 = s1.skip(n.id.len() as int + 1);
    assert(s2 == tail1);
    assert(lit_nonce_tail() =~= s2.subrange(0, lit_nonce_tail().len() as int));
    assert(lit_nonce_tail().is_prefix_of(s2));
    let s3 = s2.skip(lit_nonce_tail().len() as int);
    assert(s3 =~= n.nonce + quote() + tail2);
    lemma_parse_field_of(n.nonce, tail2);
    assert(parse_field(s3) == Some((n.nonce, n.nonce.len() + 1 as int)));
    let s4 = s3.skip(n.nonce.len() as int + 1);
    assert(s4 == tail2);
    assert(lit_ct_tail() =~= s4.subrange(0, lit_ct_tail().len() as int));
    assert(lit_ct_tail().is_prefix_of(s4));
    let s5 = s4.skip(lit_ct_tail().len() as int);
    assert(s5 =~= n.ciphertext + quote() + tail3);
    lemma_parse_field_of(n.ciphertext, tail3);
    assert(parse_field(s5) == Some((n.ciphertext, n.ciphertext.len() + 1 as int)));
    let s6 = s5.skip(n.ciphertext.len() as int + 1);
    assert(s6 == tail3);
    assert(lit_close_brace() =~= s6.subrange(0, lit_close_brace().len() as int));
    assert(lit_close_brace().is_prefix_of(s6));
    let parsed = NoteV { id: n.id, nonce: n.nonce, ciphertext: n.ciphertext };
    assert(parsed =~= n);
    let total: int = lit_note_open().len() as int + (n.id.len() as int + 1)
        + lit_nonce_tail().len() as int + (n.nonce.len() as int + 1)
        + lit_ct_tail().len() as int + (n.ciphertext.len() as int + 1)
        + lit_close_brace().len() as int;
    assert(total == rn.len());
    assert(parse_note(s) == Some((n, rn.len() as int)));
    assert(s.skip(rn.len() as int) =~= rest);
}

/// A singleton list with its closing `]}` parses back.
#[verifier::rlimit(100)]
#[verifier::spinoff_prover]
proof fn lemma_parse_notes_single(n: NoteV)
    requires
        crate::types::note_wf(n),
    ensures
        parse_notes(render_note(n) + lit_doc_close()) == Some(
            (seq![n], (render_note(n) + lit_doc_close()).len() as int),
        ),
{
    let rn = render_note(n);
    let s = rn + lit_doc_close();
    assert(rn[0] == '{');
    assert(s[0] == '{');
    if lit_doc_close().is_prefix_of(s) {
        assert(s.subrange(0, lit_doc_close().len() as int)[0] == s[0]);
        assert(false);
    }
    lemma_parse_note_of(n, lit_doc_close());
    let c = rn.len() as int;
    assert(parse_note(s) == Some((n, c)));
    assert(s.skip(c) == lit_doc_close());
    assert(s.skip(c)[0] == s[c]);
    assert(s[c] == ']');
    assert(s[c] != ',');
    assert(lit_doc_close().is_prefix_of(s.skip(c)));
    assert(c + lit_doc_close().len() == s.len());
}

/// Prepending one more record to a parsing list keeps it parsing.
#[verifier::rlimit(100)]
#[verifier::spinoff_prover]
proof fn lemma_parse_notes_cons(ns: Seq<NoteV>)
    requires
        ns.len() >= 2,
        crate::types::note_wf(ns[0]),
        parse_notes(render_notes(ns.drop_first()) + lit_doc_close()) == Some(
            (
                ns.drop_first(),
                (render_notes(ns.drop_first()) + lit_doc_close()).len() as int,
            ),
        ),
    ensures
        parse_notes(render_notes(ns) + lit_doc_close()) == Some(
            (ns, (render_notes(ns) + lit_doc_close()).len() as int),
        ),
{
    let s = render_notes(ns) + lit_doc_close();
    let rn = render_note(ns[0]);
    let tail = render_notes(ns.drop_first()) + lit_doc_close();
    assert(rn[0] == '{');
    assert(render_notes(ns)[0] == rn[0]);
    assert(s[0] == '{');
    if lit_doc_close().is_prefix_of(s) {
        assert(s.subrange(0, lit_doc_close().len() as int)[0] == s[0]);
        assert(false);
    }
    assert(render_notes(ns) == rn + comma() + render_notes(ns.drop_first()));
    assert(s =~= rn + (comma() + tail));
    lemma_parse_note_of(ns[0], comma() + tail);
    let c = rn.len() as int;
    assert(parse_note(s) == Some((ns[0], c)));
    assert(s.skip(c) == comma() + tail);
    assert(s.skip(c)[0] == s[c]);
    assert((comma() + tail)[0] == ',');
    assert(s[c] == ',');
    assert(c < s.len());
    assert(s.skip(c + 1) =~= tail);
    assert(parse_notes(s.skip(c + 1)) == Some((ns.drop_first(), tail.len() as int)));
    assert(seq![ns[0]] + ns.drop_first() =~= ns);
    assert(c + 1 + tail.len() == s.len());
}

/// The rendered list with its closing `]}` parses back to the list,
/// consuming everything.
proof fn lemma_parse_notes_of(ns: Seq<NoteV>)
    requires
        forall|i: int| 0 <= i < ns.len() ==> crate::types::note_wf(#[trigger] ns[i]),
    ensures
        parse_notes(render_notes(ns) + lit_doc_close()) == Some(
            (ns, (render_notes(ns) + lit_doc_close()).len() as int),
        ),
    decreases ns.len(),
{
    let s = render_notes(ns) + lit_doc_close();
    if ns.len() == 0 {
        assert(s =~= lit_doc_close());
        assert(lit_doc_close() =~= s.subrange(0, lit_doc_close().len() as int));
        assert(lit_doc_close().is_prefix_of(s));
        assert(Seq::<NoteV>::empty() =~= ns);
    } else if ns.len() == 1 {
        lemma_parse_notes_single(ns[0]);
        assert(render_notes(ns) == render_note(ns[0]));
        assert(seq![ns[0]] =~= ns);
    } else {
        assert forall|i: int| 0 <= i < ns.drop_first().len() implies crate::types::note_wf(
            #[trigger] ns.drop_first()[i],
        ) by {
            assert(ns.drop_first()[i] == ns[i + 1]);
        }
        lemma_parse_notes_of(ns.drop_first());
        lemma_parse_notes_cons(ns);
    }
}

/// A well-formed store renders to ASCII text.
proof fn lemma_render_doc_ascii(d: DocV)
    requires
        crate::types::doc_wf(d),
    ensures
        is_ascii_chars(spec_render(d)),
{
    lemma_plain_ascii(d.salt);
    lemma_render_notes_ascii(d.notes);
    assert(is_ascii_chars(lit_doc_open()));
    assert(is_ascii_chars(quote()));
    assert(is_ascii_chars(lit_notes_tail()));
    assert(is_ascii_chars(lit_doc_close()));
    let b1 = lit_doc_open() + d.salt;
    lemma_ascii_concat(lit_doc_open(), d.salt);
    let b2 = b1 + quote();
    lemma_ascii_concat(b1, quote());
    let b3 = b2 + lit_notes_tail();
    lemma_ascii_concat(b2, lit_notes_tail());
    let b4 = b3 + render_notes(d.notes);
    lemma_ascii_concat(b3, render_notes(d.notes));
    lemma_ascii_concat(b4, lit_doc_close());
    assert(spec_render(d) == b4 + lit_doc_close());
}

/// Saving and loading round-trips: the rendered document of a well-formed
/// store parses back to exactly that store, field for field.
#[verifier::rlimit(100)]
#[verifier::spinoff_prover]
pub proof fn lemma_store_round_trip(d: DocV)
    requires
        crate::types::doc_wf(d),
    ensures
        spec_parse(spec_render(d)) == Some(d),
{
    let s = spec_render(d);
    let body = render_notes(d.notes) + lit_doc_close();
    let tail0 = lit_notes_tail() + body;
    lemma_render_doc_ascii(d);
    assert(is_ascii_chars(s));
    assert(s =~= lit_doc_open() + (d.salt + quote() + tail0));
    assert(lit_doc_open() =~= s.subrange(0, lit_doc_open().len() as int));
    assert(lit_doc_open().is_prefix_of(s));
    let s1 = s.skip(lit_doc_open().len() as int);
    assert(s1 =~= d.salt + quote() + tail0);
    lemma_parse_field_of(d.salt, tail0);
    assert(parse_field(s1) == Some((d.salt, d.salt.len() + 1 as int)));
    let s2 = s1.skip(d.salt.len() as int + 1);
    assert(s2 == tail0);
    assert(lit_notes_tail() =~= s2.subrange(0, lit_notes_tail().len() as int));
    assert(lit_notes_tail().is_prefix_of(s2));
    let s3 = s2.skip(lit_notes_tail().len() as int);
    assert(s3 =~= body);
    lemma_parse_notes_of(d.notes);
    assert(parse_notes(s3) == Some((d.notes, s3.len() as int)));
    let parsed = DocV { salt: d.salt, notes: d.notes };
    assert(parsed =~= d);
}

} // verus!
