use lempek_assets::saga::{Action, Event};
use lempek_assets::store::Store;

fn is(e: Event, expected: &str) -> bool {
    format!("{e:?}") == expected
}

fn insert(name: &str) -> Action {
    Action::InsertFolder { name: name.to_string(), parent_id: None, owner_id: 1 }
}

#[test]
fn rows_are_seen_by_others_only_after_the_commit() {
    let mut store = Store::new();
    let nothing = vec![];
    // without a transaction nothing is written, though an identifier is used up
    assert!(is(store.apply(&insert("a"), &nothing), "Failed"));
    assert!(is(store.apply(&Action::Begin, &nothing), "Done"));
    assert!(is(store.apply(&Action::Begin, &nothing), "Failed"));
    assert!(is(store.apply(&insert("a"), &nothing), "Inserted(2)"));
    assert!(store.committed.folders.is_empty());
    assert_eq!(store.pending.as_ref().unwrap().folders.len(), 1);
    // the transaction reads its own rows
    let seen = store.apply(&Action::LoadFolders { id: Some(2) }, &nothing);
    match seen {
        Event::Folders(rows) => assert_eq!(rows[0].name, "a"),
        other => panic!("{other:?}"),
    }
    assert!(is(store.apply(&Action::Commit, &nothing), "Done"));
    assert_eq!(store.committed.folders.len(), 1);
    assert!(store.pending.is_none());
    assert!(is(store.apply(&Action::Commit, &nothing), "Failed"));
}

#[test]
fn a_rollback_drops_what_the_transaction_did_to_rows_but_not_to_the_disk() {
    let mut store = Store::new();
    let nothing = vec![];
    store.apply(&Action::Begin, &nothing);
    store.apply(&insert("a"), &nothing);
    assert!(is(store.apply(&Action::MakeDir { path: vec!["a".to_string()] }, &nothing), "Done"));
    assert!(is(store.apply(&Action::Rollback, &nothing), "Done"));
    assert!(store.committed.folders.is_empty());
    assert!(store.pending.is_none());
    assert_eq!(store.disk.entries.len(), 1);
    // identifiers are not handed out twice
    store.apply(&Action::Begin, &nothing);
    assert!(is(store.apply(&insert("a"), &nothing), "Inserted(2)"));
}

#[test]
fn planted_faults_fail_the_request_with_that_number_and_change_nothing() {
    let mut store = Store::new();
    let nothing = vec![];
    store.faults = vec![1, 3];
    assert!(!store.faulty());
    assert!(is(store.apply(&Action::Begin, &nothing), "Done"));
    assert!(store.faulty());
    assert!(is(store.apply(&insert("a"), &nothing), "Failed"));
    assert_eq!(store.pending.as_ref().unwrap().folders.len(), 0);
    assert_eq!(store.next_id, 1);
    assert!(is(store.apply(&insert("a"), &nothing), "Inserted(1)"));
    // a commit that fails leaves no transaction open
    assert!(is(store.apply(&Action::Commit, &nothing), "Failed"));
    assert!(store.pending.is_none());
    assert!(store.committed.folders.is_empty());
    assert_eq!(store.calls, 4);
}

#[test]
fn the_content_of_an_upload_is_what_is_written() {
    let mut store = Store::new();
    let content = b"hello".to_vec();
    let e = store.apply(&Action::WriteFile { path: vec!["f".to_string()], mode: 0o664 }, &content);
    assert!(is(e, "Written(5)"));
    assert_eq!(store.disk.entries[0].content, Some(content));
    assert!(is(store.apply(&Action::Finish(Err(lempek_assets::models::Failure::new(
        lempek_assets::models::ErrorKind::NotFound,
        "x",
    ))), &vec![]), "Failed"));
}
