use lempek_assets::assets::{
    EditFile, EditFolderData, NewFolderData, RemoveFile, RemoveFolderData, UploadFile,
};
use lempek_assets::models::{ErrorKind, UserData};
use lempek_assets::store::Store;

fn admin() -> UserData {
    UserData { user_id: 1, login: "root".to_string(), username: "Root".to_string(), admin: true }
}

fn path(names: &[&str]) -> Vec<String> {
    names.iter().map(|n| n.to_string()).collect()
}

fn new_folder(name: &str, parent: Option<u128>) -> NewFolderData {
    NewFolderData { name: name.to_string(), parent }
}

fn upload(name: &str, folder: Option<u128>, overwrite: Option<bool>) -> UploadFile {
    UploadFile { file_name: name.to_string(), folder, name: None, overwrite }
}

/// The requests with these numbers, counted from the next one, fail.
fn plant(store: &mut Store, steps: &[u64]) {
    store.faults = steps.iter().map(|k| store.calls + k).collect();
}

fn snapshot(store: &Store) -> String {
    format!("{:?}|{:?}|{:?}", store.committed, store.pending, store.disk)
}

/// A store with folder `docs` and file `docs/a.txt`.
fn seeded() -> (Store, u128, u128) {
    let mut store = Store::new();
    store.create_folder(new_folder("docs", None), &admin()).unwrap();
    let docs = store.committed.folders[0].id;
    store.upload_file(upload("a.txt", Some(docs), None), &b"old".to_vec(), &admin()).unwrap();
    let file = store.committed.files[0].id;
    (store, docs, file)
}

// An administrator's create asks for: 0 begin, 1 insert, 2 grant, 3 folder
// rows, 4 mkdir, 5 commit, and after a failed commit 6 rmdir.

#[test]
fn create_folder_database_faults_leave_nothing_behind() {
    for step in [0u64, 1, 2, 3] {
        let (mut store, docs, _) = seeded();
        let before = snapshot(&store);
        plant(&mut store, &[step]);
        let err = store.create_folder(new_folder("new", Some(docs)), &admin()).unwrap_err();
        assert_eq!(err.kind, ErrorKind::DatabaseFault, "step {step}");
        assert_eq!(err.message, "database error");
        assert!(err.orphan.is_none());
        assert_eq!(snapshot(&store), before, "step {step}");
    }
}

#[test]
fn create_folder_mkdir_failure_is_a_storage_fault_and_rolls_back() {
    let (mut store, docs, _) = seeded();
    let before = snapshot(&store);
    plant(&mut store, &[4]);
    let err = store.create_folder(new_folder("new", Some(docs)), &admin()).unwrap_err();
    assert_eq!(err.kind, ErrorKind::StorageFault);
    assert_eq!(err.kind.status().code(), 500);
    assert_eq!(err.message, "error while creating folder");
    assert!(err.orphan.is_none());
    assert_eq!(snapshot(&store), before);
}

#[test]
fn create_folder_commit_failure_removes_the_directory_again() {
    let (mut store, docs, _) = seeded();
    let before = snapshot(&store);
    plant(&mut store, &[5]);
    let err = store.create_folder(new_folder("new", Some(docs)), &admin()).unwrap_err();
    assert_eq!(err.kind, ErrorKind::DatabaseFault);
    assert!(!store.disk.dir_at(&path(&["docs", "new"])));
    assert_eq!(snapshot(&store), before);
}

#[test]
fn create_folder_commit_and_cleanup_failure_is_a_partial_failure() {
    let (mut store, docs, _) = seeded();
    plant(&mut store, &[5, 6]);
    let err = store.create_folder(new_folder("new", Some(docs)), &admin()).unwrap_err();
    assert_eq!(err.kind, ErrorKind::PartialFailure);
    assert_eq!(err.kind.status().code(), 500);
    assert_eq!(err.message, "error while removing created folder");
    assert_eq!(err.orphan, Some(path(&["docs", "new"])));
    // the directory is there, the row is not
    assert!(store.disk.dir_at(&path(&["docs", "new"])));
    assert_eq!(store.committed.folders.len(), 1);
    assert!(store.pending.is_none());
}

#[test]
fn create_folder_where_a_file_is_in_the_way() {
    let (mut store, docs, _) = seeded();
    let before = snapshot(&store);
    let err = store.create_folder(new_folder("a.txt", Some(docs)), &admin()).unwrap_err();
    // the directory cannot be made, and what is at its place cannot be taken
    // away as a directory: the saga says so rather than guess
    assert_eq!(err.kind, ErrorKind::PartialFailure);
    assert_eq!(err.orphan, Some(path(&["docs", "a.txt"])));
    assert_eq!(snapshot(&store), before);
}

// An administrator's delete asks for: 0 begin, 1 folder rows, 2 delete,
// 3 commit, 4 remove the directory.

#[test]
fn delete_folder_faults_before_the_commit_change_nothing() {
    for step in [0u64, 1, 2, 3] {
        let (mut store, docs, _) = seeded();
        let before = snapshot(&store);
        plant(&mut store, &[step]);
        let err = store.delete_folder(RemoveFolderData { id: docs }, &admin()).unwrap_err();
        assert_eq!(err.kind, ErrorKind::DatabaseFault, "step {step}");
        assert_eq!(snapshot(&store), before, "step {step}");
    }
}

#[test]
fn delete_folder_that_cannot_be_removed_from_disk_is_a_partial_failure() {
    let (mut store, docs, _) = seeded();
    plant(&mut store, &[4]);
    let err = store.delete_folder(RemoveFolderData { id: docs }, &admin()).unwrap_err();
    assert_eq!(err.kind, ErrorKind::PartialFailure);
    assert_eq!(err.message, "error while deleting folder");
    assert_eq!(err.orphan, Some(path(&["docs"])));
    assert!(store.committed.folders.is_empty());
    assert!(store.committed.files.is_empty());
    assert!(store.disk.dir_at(&path(&["docs"])));
}

#[test]
fn delete_folder_whose_directory_is_gone_already_succeeds() {
    let (mut store, docs, _) = seeded();
    store.disk.entries.clear();
    assert!(store.delete_folder(RemoveFolderData { id: docs }, &admin()).is_ok());
    assert!(store.committed.folders.is_empty());
}

// An administrator's folder rename asks for: 0 begin, 1 folder rows,
// 2 rename the row, 3 move the directory, 4 commit, 5 move it back.

#[test]
fn rename_folder_move_failure_rolls_the_name_back() {
    let (mut store, docs, _) = seeded();
    let before = snapshot(&store);
    plant(&mut store, &[3]);
    let err = store
        .edit_folder(EditFolderData { id: docs, name: "documents".to_string() }, &admin())
        .unwrap_err();
    assert_eq!(err.kind, ErrorKind::StorageFault);
    assert_eq!(err.message, "error while renaming folder");
    assert_eq!(store.committed.folders[0].name, "docs");
    assert_eq!(snapshot(&store), before);
}

#[test]
fn rename_folder_commit_failure_moves_the_directory_back() {
    let (mut store, docs, _) = seeded();
    plant(&mut store, &[4]);
    let err = store
        .edit_folder(EditFolderData { id: docs, name: "documents".to_string() }, &admin())
        .unwrap_err();
    assert_eq!(err.kind, ErrorKind::DatabaseFault);
    assert_eq!(store.committed.folders[0].name, "docs");
    assert!(store.disk.dir_at(&path(&["docs"])));
    assert!(store.disk.file_at(&path(&["docs", "a.txt"])));
    assert!(!store.disk.dir_at(&path(&["documents"])));
}

#[test]
fn rename_folder_commit_and_undo_failure_is_a_partial_failure() {
    let (mut store, docs, _) = seeded();
    plant(&mut store, &[4, 5]);
    let err = store
        .edit_folder(EditFolderData { id: docs, name: "documents".to_string() }, &admin())
        .unwrap_err();
    assert_eq!(err.kind, ErrorKind::PartialFailure);
    assert_eq!(err.orphan, Some(path(&["documents"])));
    assert_eq!(store.committed.folders[0].name, "docs");
    assert!(store.disk.dir_at(&path(&["documents"])));
}

// An administrator's upload of a new file asks for: 0 begin, 1 folder rows,
// 2 exists, 3 directory, 4 write, 5 insert, 6 commit, and to clean up
// remove the file.

#[test]
fn upload_write_failure_is_a_storage_fault_and_counts_nothing() {
    let (mut store, docs, _) = seeded();
    let before = snapshot(&store);
    plant(&mut store, &[4]);
    let err = store.upload_file(upload("b.txt", Some(docs), None), &b"new".to_vec(), &admin()).unwrap_err();
    assert_eq!(err.kind, ErrorKind::StorageFault);
    assert_eq!(err.message, "failed to save file");
    assert_eq!(snapshot(&store), before);
}

#[test]
fn upload_faults_after_the_write_remove_the_content_again() {
    for step in [5u64, 6] {
        let (mut store, docs, _) = seeded();
        let before = snapshot(&store);
        plant(&mut store, &[step]);
        let err =
            store.upload_file(upload("b.txt", Some(docs), None), &b"new".to_vec(), &admin()).unwrap_err();
        assert_eq!(err.kind, ErrorKind::DatabaseFault, "step {step}");
        assert!(!store.disk.file_at(&path(&["docs", "b.txt"])));
        assert_eq!(snapshot(&store), before, "step {step}");
    }
}

#[test]
fn upload_whose_content_cannot_be_removed_again_is_a_partial_failure() {
    let (mut store, docs, _) = seeded();
    plant(&mut store, &[6, 7]);
    let err = store.upload_file(upload("b.txt", Some(docs), None), &b"new".to_vec(), &admin()).unwrap_err();
    assert_eq!(err.kind, ErrorKind::PartialFailure);
    assert_eq!(err.orphan, Some(path(&["docs", "b.txt"])));
    assert!(store.disk.file_at(&path(&["docs", "b.txt"])));
    assert_eq!(store.committed.files.len(), 1);
}

#[test]
fn upload_directory_failure_is_a_storage_fault() {
    let (mut store, docs, _) = seeded();
    let before = snapshot(&store);
    plant(&mut store, &[3]);
    let err = store.upload_file(upload("b.txt", Some(docs), None), &b"new".to_vec(), &admin()).unwrap_err();
    assert_eq!(err.kind, ErrorKind::StorageFault);
    assert_eq!(err.message, "could not create folders");
    assert_eq!(snapshot(&store), before);
}

// An overwriting upload asks for: 0 begin, 1 folder rows, 2 exists,
// 3 delete the old row, 4 remove the old file, 5 directory, 6 write,
// 7 insert, 8 commit.

#[test]
fn overwrite_that_cannot_remove_the_old_file_keeps_it() {
    let (mut store, docs, _) = seeded();
    let before = snapshot(&store);
    plant(&mut store, &[4]);
    let err = store
        .upload_file(upload("a.txt", Some(docs), Some(true)), &b"new".to_vec(), &admin())
        .unwrap_err();
    assert_eq!(err.kind, ErrorKind::StorageFault);
    assert_eq!(err.message, "error while overwriting file");
    assert_eq!(snapshot(&store), before);
}

#[test]
fn overwrite_that_fails_after_the_old_file_is_gone_is_a_partial_failure() {
    for (step, message) in [(5u64, "could not create folders"), (6, "failed to save file"), (7, "database error"), (8, "database error")] {
        let (mut store, docs, _) = seeded();
        plant(&mut store, &[step]);
        let err = store
            .upload_file(upload("a.txt", Some(docs), Some(true)), &b"new".to_vec(), &admin())
            .unwrap_err();
        assert_eq!(err.kind, ErrorKind::PartialFailure, "step {step}");
        assert_eq!(err.message, message);
        assert_eq!(err.orphan, Some(path(&["docs", "a.txt"])));
        // the row is back, the bytes are not
        assert_eq!(store.committed.files.len(), 1);
        assert!(!store.disk.file_at(&path(&["docs", "a.txt"])));
        assert!(store.pending.is_none());
    }
}

// An administrator's file delete asks for: 0 begin, 1 file row, 2 folder
// rows, 3 delete, 4 commit, 5 remove the file.

#[test]
fn delete_file_that_cannot_be_removed_from_disk_is_a_partial_failure() {
    let (mut store, _, file) = seeded();
    plant(&mut store, &[5]);
    let err = store.delete_file(RemoveFile { id: file }, &admin()).unwrap_err();
    assert_eq!(err.kind, ErrorKind::PartialFailure);
    assert_eq!(err.message, "error while deleting file");
    assert_eq!(err.orphan, Some(path(&["docs", "a.txt"])));
    assert!(store.committed.files.is_empty());
    assert!(store.disk.file_at(&path(&["docs", "a.txt"])));
}

#[test]
fn delete_file_faults_before_the_commit_change_nothing() {
    for step in [0u64, 1, 2, 3, 4] {
        let (mut store, _, file) = seeded();
        let before = snapshot(&store);
        plant(&mut store, &[step]);
        let err = store.delete_file(RemoveFile { id: file }, &admin()).unwrap_err();
        assert_eq!(err.kind, ErrorKind::DatabaseFault, "step {step}");
        assert_eq!(snapshot(&store), before, "step {step}");
    }
}

// An administrator's file rename asks for: 0 begin, 1 file row, 2 folder
// rows, 3 rename the row, 4 move the file, 5 commit, 6 move it back.

#[test]
fn rename_file_failures() {
    let (mut store, _, file) = seeded();
    let before = snapshot(&store);
    plant(&mut store, &[4]);
    let err = store.edit_file(EditFile { id: file, name: "b.txt".to_string() }, &admin()).unwrap_err();
    assert_eq!(err.kind, ErrorKind::StorageFault);
    assert_eq!(err.message, "error while renaming file");
    assert_eq!(snapshot(&store), before);

    plant(&mut store, &[5]);
    let err = store.edit_file(EditFile { id: file, name: "b.txt".to_string() }, &admin()).unwrap_err();
    assert_eq!(err.kind, ErrorKind::DatabaseFault);
    assert_eq!(snapshot(&store), before);

    plant(&mut store, &[5, 6]);
    let err = store.edit_file(EditFile { id: file, name: "b.txt".to_string() }, &admin()).unwrap_err();
    assert_eq!(err.kind, ErrorKind::PartialFailure);
    assert_eq!(err.orphan, Some(path(&["docs", "b.txt"])));
    assert_eq!(store.committed.files[0].name, "a.txt");
    assert!(store.disk.file_at(&path(&["docs", "b.txt"])));
}

#[test]
fn identifiers_that_have_run_out_fail_the_insert() {
    let mut store = Store::new();
    store.next_id = u128::MAX;
    let err = store.create_folder(new_folder("a", None), &admin()).unwrap_err();
    assert_eq!(err.kind, ErrorKind::DatabaseFault);
    assert!(store.committed.folders.is_empty());
    assert!(store.disk.entries.is_empty());
}
