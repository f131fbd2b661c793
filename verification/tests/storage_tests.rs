use locknote::crypto::derive_key;
use locknote::notes::make_note;
use locknote::storage::{add_note, find_note, list_notes, remove_note, search_notes};
use locknote::types::{LockFile, StoredNote};

#[test]
fn test_add_and_remove_note() {
    let mut lockfile = LockFile { notes: vec![], salt: "abc".to_string() };

    let note = StoredNote {
        id: "1".to_string(),
        nonce: "randomnonce".to_string(),
        ciphertext: "xyz".to_string(),
    };

    add_note(&mut lockfile, note.clone());
    assert_eq!(lockfile.notes.len(), 1);

    let removed = remove_note(&mut lockfile, "1");
    assert!(removed);
    assert!(lockfile.notes.is_empty());
}

#[test]
fn add_then_find_returns_the_record() {
    let mut lockfile = LockFile { notes: vec![], salt: "abc".to_string() };
    let note = StoredNote {
        id: "some-id".to_string(),
        nonce: "00".to_string(),
        ciphertext: "ff".to_string(),
    };
    add_note(&mut lockfile, note.clone());
    let found = find_note(&lockfile, "some-id").expect("note must be found after add");
    assert_eq!(found.id, "some-id");
    assert_eq!(found.nonce, "00");
    assert_eq!(found.ciphertext, "ff");
}

#[test]
fn remove_then_find_is_absent() {
    let mut lockfile = LockFile { notes: vec![], salt: "abc".to_string() };
    let note = StoredNote {
        id: "gone".to_string(),
        nonce: "00".to_string(),
        ciphertext: "ff".to_string(),
    };
    add_note(&mut lockfile, note);
    assert!(remove_note(&mut lockfile, "gone"));
    assert!(find_note(&lockfile, "gone").is_none());
}

#[test]
fn remove_nonexistent_returns_false_and_leaves_store() {
    let mut lockfile = LockFile { notes: vec![], salt: "abc".to_string() };
    let note = StoredNote {
        id: "keep".to_string(),
        nonce: "00".to_string(),
        ciphertext: "ff".to_string(),
    };
    add_note(&mut lockfile, note);
    let removed = remove_note(&mut lockfile, "missing");
    assert!(!removed);
    assert_eq!(lockfile.notes.len(), 1);
    assert_eq!(lockfile.notes[0].id, "keep");
    assert_eq!(lockfile.notes[0].nonce, "00");
    assert_eq!(lockfile.notes[0].ciphertext, "ff");
}

#[test]
fn remove_takes_out_every_match() {
    let mut lockfile = LockFile { notes: vec![], salt: "abc".to_string() };
    for nonce in ["00", "01", "02"] {
        add_note(
            &mut lockfile,
            StoredNote {
                id: "dup".to_string(),
                nonce: nonce.to_string(),
                ciphertext: "ff".to_string(),
            },
        );
    }
    add_note(
        &mut lockfile,
        StoredNote {
            id: "other".to_string(),
            nonce: "03".to_string(),
            ciphertext: "ff".to_string(),
        },
    );
    assert!(remove_note(&mut lockfile, "dup"));
    assert_eq!(lockfile.notes.len(), 1);
    assert_eq!(lockfile.notes[0].id, "other");
}

#[test]
fn list_keeps_insertion_order() {
    let mut lockfile = LockFile { notes: vec![], salt: "abc".to_string() };
    for id in ["first", "second", "third"] {
        add_note(
            &mut lockfile,
            StoredNote {
                id: id.to_string(),
                nonce: "00".to_string(),
                ciphertext: "ff".to_string(),
            },
        );
    }
    let ids = list_notes(&lockfile);
    assert_eq!(ids, vec!["first", "second", "third"]);
}

#[test]
fn search_finds_exactly_the_matching_note() {
    let salt = "abcdefgh";
    let key = derive_key("correcthorse", salt);
    let mut lockfile = LockFile { notes: vec![], salt: salt.to_string() };
    let hello = make_note("hello world", "", &key);
    let hello_id = hello.id.clone();
    add_note(&mut lockfile, hello);
    let goodbye = make_note("goodbye", "", &key);
    add_note(&mut lockfile, goodbye);

    let hits = search_notes(&lockfile, "hello", &key);
    assert_eq!(hits, vec![hello_id]);

    let none = search_notes(&lockfile, "xyz", &key);
    assert!(none.is_empty());
}

#[test]
fn search_skips_records_that_do_not_decrypt() {
    let salt = "abcdefgh";
    let key = derive_key("correcthorse", salt);
    let mut lockfile = LockFile { notes: vec![], salt: salt.to_string() };
    add_note(
        &mut lockfile,
        StoredNote {
            id: "broken".to_string(),
            nonce: "not hex".to_string(),
            ciphertext: "zz".to_string(),
        },
    );
    let good = make_note("hello world", "", &key);
    let good_id = good.id.clone();
    add_note(&mut lockfile, good);

    let hits = search_notes(&lockfile, "hello", &key);
    assert_eq!(hits, vec![good_id]);
}
