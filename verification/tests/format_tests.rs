use locknote::crypto::derive_key;
use locknote::encoding::{hex_decode, hex_encode};
use locknote::format::{parse_lockfile, render_lockfile};
use locknote::notes::make_note;
use locknote::storage::add_note;
use locknote::types::{LockFile, NoteError, StoredNote};

fn assert_same_store(a: &LockFile, b: &LockFile) {
    assert_eq!(a.salt, b.salt);
    assert_eq!(a.notes.len(), b.notes.len());
    for (x, y) in a.notes.iter().zip(b.notes.iter()) {
        assert_eq!(x.id, y.id);
        assert_eq!(x.nonce, y.nonce);
        assert_eq!(x.ciphertext, y.ciphertext);
    }
}

#[test]
fn save_load_round_trip_salt() {
    let lockfile = LockFile { notes: vec![], salt: "test".to_string() };
    let doc = render_lockfile(&lockfile);
    let loaded = parse_lockfile(&doc).expect("rendered document must parse");
    assert_eq!(loaded.salt, "test");
}

#[test]
fn store_round_trip_empty() {
    let lockfile = LockFile { notes: vec![], salt: "somesalt".to_string() };
    let loaded = parse_lockfile(&render_lockfile(&lockfile)).unwrap();
    assert_same_store(&lockfile, &loaded);
}

#[test]
fn store_round_trip_one_note() {
    let key = derive_key("correcthorse", "abcdefgh");
    let mut lockfile = LockFile { notes: vec![], salt: "abcdefgh".to_string() };
    add_note(&mut lockfile, make_note("Groceries", "milk, eggs", &key));
    let loaded = parse_lockfile(&render_lockfile(&lockfile)).unwrap();
    assert_same_store(&lockfile, &loaded);
}

#[test]
fn store_round_trip_many_notes() {
    let key = derive_key("correcthorse", "abcdefgh");
    let mut lockfile = LockFile { notes: vec![], salt: "abcdefgh".to_string() };
    for i in 0..5 {
        add_note(&mut lockfile, make_note(&format!("title {i}"), "body", &key));
    }
    let loaded = parse_lockfile(&render_lockfile(&lockfile)).unwrap();
    assert_same_store(&lockfile, &loaded);
}

#[test]
fn render_exact_document() {
    let lockfile = LockFile {
        salt: "abc".to_string(),
        notes: vec![StoredNote {
            id: "1".to_string(),
            nonce: "00".to_string(),
            ciphertext: "ff".to_string(),
        }],
    };
    assert_eq!(
        render_lockfile(&lockfile),
        "{\"salt\":\"abc\",\"notes\":[{\"id\":\"1\",\"nonce\":\"00\",\"ciphertext\":\"ff\"}]}"
    );
}

#[test]
fn parse_rejects_malformed_documents() {
    for doc in [
        "",
        "not a document",
        "{\"salt\":\"abc\"}",
        "{\"salt\":\"abc\",\"notes\":[}",
        "{\"salt\":\"abc\",\"notes\":[]} trailing",
        "{\"salt\":\"ab\\\"c\",\"notes\":[]}",
    ] {
        assert!(matches!(
            parse_lockfile(doc),
            Err(NoteError::SerializationError)
        ));
    }
}

#[test]
fn parse_accepts_the_empty_store() {
    let loaded = parse_lockfile("{\"salt\":\"xyz\",\"notes\":[]}").unwrap();
    assert_eq!(loaded.salt, "xyz");
    assert!(loaded.notes.is_empty());
}

#[test]
fn hex_encode_exact_value() {
    assert_eq!(hex_encode(&[0x00, 0xab, 0xff]), "00abff");
    assert_eq!(hex_encode(&[]), "");
}

#[test]
fn hex_decode_valid_and_invalid() {
    assert_eq!(hex_decode("00abff"), Some(vec![0x00, 0xab, 0xff]));
    assert_eq!(hex_decode("AB"), Some(vec![0xab]));
    assert_eq!(hex_decode(""), Some(vec![]));
    assert_eq!(hex_decode("0"), None);
    assert_eq!(hex_decode("zz"), None);
    assert_eq!(hex_decode("0g"), None);
}

#[test]
fn hex_round_trip() {
    let bytes: Vec<u8> = (0u16..256).map(|b| b as u8).collect();
    let text = hex_encode(&bytes);
    assert_eq!(hex_decode(&text), Some(bytes));
}
