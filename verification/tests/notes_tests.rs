use locknote::crypto::{derive_key, zeroize_key};
use locknote::notes::{init_lockfile, join_title_body, make_note, split_title_body, view_note};
use locknote::storage::add_note;
use locknote::types::{NoteError, StoredNote};

#[test]
fn init_produces_empty_store_with_salt() {
    let lockfile = init_lockfile("correcthorse");
    assert!(lockfile.notes.is_empty());
    assert_eq!(lockfile.salt.len(), 22);
}

#[test]
fn add_then_view_reproduces_title_and_body() {
    let mut lockfile = init_lockfile("correcthorse");
    let key = derive_key("correcthorse", &lockfile.salt);
    let note = make_note("Groceries", "milk, eggs", &key);
    let id = note.id.clone();
    add_note(&mut lockfile, note);

    let plaintext = view_note(&lockfile, &id, &key).expect("correct password must decrypt");
    assert_eq!(plaintext, b"Groceries\nmilk, eggs".to_vec());

    let (title, body) = split_title_body(&plaintext);
    assert_eq!(title, b"Groceries".to_vec());
    assert_eq!(body, b"milk, eggs".to_vec());
    zeroize_key(key);
}

#[test]
fn view_with_wrong_password_fails_closed() {
    let mut lockfile = init_lockfile("correcthorse");
    let key = derive_key("correcthorse", &lockfile.salt);
    let note = make_note("Groceries", "milk, eggs", &key);
    let id = note.id.clone();
    add_note(&mut lockfile, note);

    let wrong = derive_key("batterystaple", &lockfile.salt);
    assert!(matches!(
        view_note(&lockfile, &id, &wrong),
        Err(NoteError::AuthenticationFailure)
    ));
}

#[test]
fn view_unknown_id_is_not_found() {
    let lockfile = init_lockfile("correcthorse");
    let key = derive_key("correcthorse", &lockfile.salt);
    assert!(matches!(
        view_note(&lockfile, "no-such-id", &key),
        Err(NoteError::NotFound)
    ));
}

#[test]
fn view_malformed_record_is_a_serialization_error() {
    let mut lockfile = init_lockfile("correcthorse");
    let key = derive_key("correcthorse", &lockfile.salt);
    add_note(
        &mut lockfile,
        StoredNote {
            id: "bad".to_string(),
            nonce: "not hex".to_string(),
            ciphertext: "zz".to_string(),
        },
    );
    assert!(matches!(
        view_note(&lockfile, "bad", &key),
        Err(NoteError::SerializationError)
    ));
}

#[test]
fn join_and_split_title_body() {
    assert_eq!(join_title_body("a", "b"), b"a\nb".to_vec());
    let (title, body) = split_title_body(b"first line\nsecond\nthird");
    assert_eq!(title, b"first line".to_vec());
    assert_eq!(body, b"second\nthird".to_vec());
    let (title2, body2) = split_title_body(b"no newline here");
    assert_eq!(title2, b"no newline here".to_vec());
    assert!(body2.is_empty());
}

#[test]
fn fresh_note_ids_are_distinct_text_ids() {
    let lockfile = init_lockfile("correcthorse");
    let key = derive_key("correcthorse", &lockfile.salt);
    let a = make_note("one", "", &key);
    let b = make_note("two", "", &key);
    assert_eq!(a.id.len(), 36);
    assert_eq!(b.id.len(), 36);
    assert_ne!(a.id, b.id);
}
