use lempek_assets::assets::{
    EditFile, EditFolderData, NewFolderData, RemoveFile, RemoveFolderData, UploadFile,
};
use lempek_assets::models::{ErrorKind, Permission, Status, UserData};
use lempek_assets::paths::ResolveError;
use lempek_assets::store::Store;

fn admin() -> UserData {
    UserData { user_id: 1, login: "root".to_string(), username: "Root".to_string(), admin: true }
}

fn user(id: u128) -> UserData {
    UserData { user_id: id, login: format!("u{id}"), username: format!("User {id}"), admin: false }
}

fn path(names: &[&str]) -> Vec<String> {
    names.iter().map(|n| n.to_string()).collect()
}

fn new_folder(name: &str, parent: Option<u128>) -> NewFolderData {
    NewFolderData { name: name.to_string(), parent }
}

fn upload(name: &str, folder: Option<u128>, overwrite: Option<bool>) -> UploadFile {
    UploadFile { file_name: name.to_string(), folder, name: None, overwrite }
}

fn grant(store: &mut Store, user_id: u128, folder_id: Option<u128>, read: bool, modify: bool, edit: bool) {
    let id = store.next_id;
    store.next_id += 1;
    store.committed.permissions.push(Permission { id, folder_id, user_id, read, modify, edit });
}

fn folder_id(store: &Store, name: &str) -> u128 {
    store.committed.folders.iter().find(|f| f.name == name).unwrap().id
}

fn file_id(store: &Store, name: &str) -> u128 {
    store.committed.files.iter().find(|f| f.name == name).unwrap().id
}

fn content_at(store: &Store, p: &[&str]) -> Option<Vec<u8>> {
    let p = path(p);
    store.disk.entries.iter().find(|e| e.path == p).and_then(|e| e.content.clone())
}

/// Rows and disk say the same: every folder has its directory, every file
/// its bytes of the recorded size, and nothing else is on disk.
fn assert_consistent(store: &Store) {
    assert!(store.pending.is_none());
    let mut expected: Vec<(Vec<String>, bool)> = Vec::new();
    for f in &store.committed.folders {
        let p = lempek_assets::paths::get_folder_path(&store.committed.folders, Some(f.id)).unwrap();
        expected.push((p, true));
    }
    for f in &store.committed.files {
        let mut p =
            lempek_assets::paths::get_folder_path(&store.committed.folders, f.folder_id).unwrap();
        p.push(f.name.clone());
        let bytes = store.disk.entries.iter().find(|e| e.path == p).unwrap().content.clone().unwrap();
        assert_eq!(f.size, Some(bytes.len() as i64));
        expected.push((p, false));
    }
    let mut actual: Vec<(Vec<String>, bool)> =
        store.disk.entries.iter().map(|e| (e.path.clone(), e.content.is_none())).collect();
    expected.sort();
    actual.sort();
    assert_eq!(expected, actual);
}

#[test]
fn created_folder_is_listed_and_on_disk() {
    let mut store = Store::new();
    let creator = user(7);
    grant(&mut store, 7, None, true, true, true);
    let reply = store.create_folder(new_folder("docs", None), &creator).unwrap();
    assert_eq!(reply.status, Status::Created);
    assert_eq!(reply.status.code(), 201);
    assert_eq!(reply.message, "created folder named: \"docs\"");
    let listed = store.get_folders(None, None, &creator);
    assert_eq!(listed.len(), 1);
    assert_eq!(listed[0].name, "docs");
    assert_eq!(listed[0].parent_id, None);
    assert_eq!(listed[0].owner_id, 7);
    assert!(store.disk.dir_at(&path(&["docs"])));
    assert_eq!(store.disk.entries.len(), 1);
    // the creator holds everything in the new folder
    let row = store.committed.permissions.iter().find(|p| p.folder_id == Some(listed[0].id)).unwrap();
    assert_eq!((row.user_id, row.read, row.modify, row.edit), (7, true, true, true));
    assert_consistent(&store);
}

#[test]
fn same_name_twice_gives_one_folder_and_one_conflict() {
    let mut store = Store::new();
    assert!(store.create_folder(new_folder("docs", None), &admin()).is_ok());
    let err = store.create_folder(new_folder("docs", None), &admin()).unwrap_err();
    assert_eq!(err.kind, ErrorKind::Conflict);
    assert_eq!(err.kind.status().code(), 409);
    assert_eq!(err.message, "folder with this name already exists");
    assert_eq!(store.committed.folders.len(), 1);
    let dirs: Vec<_> = store.disk.entries.iter().filter(|e| e.path == path(&["docs"])).collect();
    assert_eq!(dirs.len(), 1);
    assert_consistent(&store);
}

#[test]
fn same_name_under_another_parent_is_no_conflict() {
    let mut store = Store::new();
    store.create_folder(new_folder("a", None), &admin()).unwrap();
    store.create_folder(new_folder("b", None), &admin()).unwrap();
    let a = folder_id(&store, "a");
    let b = folder_id(&store, "b");
    store.create_folder(new_folder("docs", Some(a)), &admin()).unwrap();
    store.create_folder(new_folder("docs", Some(b)), &admin()).unwrap();
    store.create_folder(new_folder("docs", None), &admin()).unwrap();
    assert!(store.disk.dir_at(&path(&["a", "docs"])));
    assert!(store.disk.dir_at(&path(&["b", "docs"])));
    assert!(store.disk.dir_at(&path(&["docs"])));
    assert_consistent(&store);
}

#[test]
fn deleting_a_folder_takes_everything_below_along() {
    let mut store = Store::new();
    store.create_folder(new_folder("a", None), &admin()).unwrap();
    let a = folder_id(&store, "a");
    store.create_folder(new_folder("b", Some(a)), &admin()).unwrap();
    let b = folder_id(&store, "b");
    store.create_folder(new_folder("c", Some(b)), &admin()).unwrap();
    let c = folder_id(&store, "c");
    store.create_folder(new_folder("keep", None), &admin()).unwrap();
    let keep = folder_id(&store, "keep");
    store.upload_file(upload("one.txt", Some(a), None), &b"1".to_vec(), &admin()).unwrap();
    store.upload_file(upload("two.txt", Some(c), None), &b"22".to_vec(), &admin()).unwrap();
    store.upload_file(upload("kept.txt", Some(keep), None), &b"333".to_vec(), &admin()).unwrap();
    grant(&mut store, 9, Some(b), true, false, false);
    assert_consistent(&store);

    let reply = store.delete_folder(RemoveFolderData { id: a }, &admin()).unwrap();
    assert_eq!(reply.status, Status::NoContent);
    assert_eq!(reply.message, "deleted folder");

    let left: Vec<&str> = store.committed.folders.iter().map(|f| f.name.as_str()).collect();
    assert_eq!(left, vec!["keep"]);
    let files: Vec<&str> = store.committed.files.iter().map(|f| f.name.as_str()).collect();
    assert_eq!(files, vec!["kept.txt"]);
    assert!(store.committed.permissions.iter().all(|p| p.folder_id == Some(keep)));
    for id in [a, b, c] {
        assert_eq!(
            lempek_assets::paths::get_folder_path(&store.committed.folders, Some(id)),
            Err(ResolveError::NotFound)
        );
        let again = store.delete_folder(RemoveFolderData { id }, &admin()).unwrap_err();
        assert_eq!(again.kind, ErrorKind::NotFound);
        assert_eq!(again.kind.status().code(), 404);
        assert_eq!(again.message, "folder not found");
    }
    assert!(store.disk.entries.iter().all(|e| e.path[0] == "keep"));
    assert_eq!(content_at(&store, &["keep", "kept.txt"]), Some(b"333".to_vec()));
    assert_consistent(&store);
}

#[test]
fn renaming_a_folder_moves_the_directory_with_its_files() {
    let mut store = Store::new();
    store.create_folder(new_folder("docs", None), &admin()).unwrap();
    let docs = folder_id(&store, "docs");
    store.create_folder(new_folder("old", Some(docs)), &admin()).unwrap();
    let sub = folder_id(&store, "old");
    store.upload_file(upload("a.txt", Some(docs), None), &b"A".to_vec(), &admin()).unwrap();
    store.upload_file(upload("b.txt", Some(sub), None), &b"BB".to_vec(), &admin()).unwrap();

    let reply = store
        .edit_folder(EditFolderData { id: docs, name: "documents".to_string() }, &admin())
        .unwrap();
    assert_eq!(reply.status, Status::NoContent);
    assert_eq!(reply.message, "renamed folder");
    assert!(!store.disk.dir_at(&path(&["docs"])));
    assert!(store.disk.dir_at(&path(&["documents"])));
    assert!(store.disk.dir_at(&path(&["documents", "old"])));
    assert_eq!(content_at(&store, &["documents", "a.txt"]), Some(b"A".to_vec()));
    assert_eq!(content_at(&store, &["documents", "old", "b.txt"]), Some(b"BB".to_vec()));
    assert_eq!(content_at(&store, &["docs", "a.txt"]), None);
    assert_eq!(
        lempek_assets::paths::get_folder_path(&store.committed.folders, Some(sub)),
        Ok(path(&["documents", "old"]))
    );
    assert_consistent(&store);
}

#[test]
fn renaming_onto_a_sibling_is_a_conflict_and_changes_nothing() {
    let mut store = Store::new();
    store.create_folder(new_folder("docs", None), &admin()).unwrap();
    store.create_folder(new_folder("documents", None), &admin()).unwrap();
    let docs = folder_id(&store, "docs");
    store.upload_file(upload("a.txt", Some(docs), None), &b"A".to_vec(), &admin()).unwrap();
    let folders_before = format!("{:?}", store.committed.folders);
    let files_before = format!("{:?}", store.committed.files);
    let disk_before = format!("{:?}", store.disk);

    let err = store
        .edit_folder(EditFolderData { id: docs, name: "documents".to_string() }, &admin())
        .unwrap_err();
    assert_eq!(err.kind, ErrorKind::Conflict);
    assert_eq!(err.message, "folder with this name already exists");
    assert_eq!(format!("{:?}", store.committed.folders), folders_before);
    assert_eq!(format!("{:?}", store.committed.files), files_before);
    assert_eq!(format!("{:?}", store.disk), disk_before);

    // doing it again ends the same way
    let again = store
        .edit_folder(EditFolderData { id: docs, name: "documents".to_string() }, &admin())
        .unwrap_err();
    assert_eq!(again.kind, ErrorKind::Conflict);
    assert_eq!(format!("{:?}", store.disk), disk_before);
    assert_consistent(&store);
}

#[test]
fn renaming_a_folder_to_its_own_name_changes_nothing_on_disk() {
    let mut store = Store::new();
    store.create_folder(new_folder("docs", None), &admin()).unwrap();
    let docs = folder_id(&store, "docs");
    let disk_before = format!("{:?}", store.disk);
    store.edit_folder(EditFolderData { id: docs, name: "docs".to_string() }, &admin()).unwrap();
    assert_eq!(format!("{:?}", store.disk), disk_before);
    assert_consistent(&store);
}

#[test]
fn upload_without_overwrite_keeps_the_existing_file() {
    let mut store = Store::new();
    store.create_folder(new_folder("docs", None), &admin()).unwrap();
    let docs = folder_id(&store, "docs");
    let first = store.upload_file(upload("report.pdf", Some(docs), None), &b"old bytes".to_vec(), &admin()).unwrap();
    assert_eq!(first.status, Status::Created);
    assert_eq!(first.message, "created file named: \"report.pdf\"");
    let row_before = format!("{:?}", store.committed.files);

    for overwrite in [None, Some(false)] {
        let err = store
            .upload_file(upload("report.pdf", Some(docs), overwrite), &b"new".to_vec(), &admin())
            .unwrap_err();
        assert_eq!(err.kind, ErrorKind::Conflict);
        assert_eq!(err.message, "file with this name already exists");
        assert_eq!(content_at(&store, &["docs", "report.pdf"]), Some(b"old bytes".to_vec()));
        assert_eq!(format!("{:?}", store.committed.files), row_before);
    }

    let reply = store
        .upload_file(upload("report.pdf", Some(docs), Some(true)), &b"new".to_vec(), &admin())
        .unwrap();
    assert_eq!(reply.status, Status::Created);
    assert_eq!(content_at(&store, &["docs", "report.pdf"]), Some(b"new".to_vec()));
    assert_eq!(store.committed.files.len(), 1);
    assert_eq!(store.committed.files[0].size, Some(3));
    assert_eq!(store.disk.entries.iter().filter(|e| e.content.is_some()).count(), 1);
    assert_consistent(&store);
}

#[test]
fn upload_takes_the_given_name_before_the_one_of_the_content() {
    let mut store = Store::new();
    let data = UploadFile {
        file_name: "IMG_0001.JPG".to_string(),
        folder: None,
        name: Some("holiday.jpg".to_string()),
        overwrite: None,
    };
    let reply = store.upload_file(data, &vec![1, 2, 3, 4], &admin()).unwrap();
    assert_eq!(reply.message, "created file named: \"holiday.jpg\"");
    assert_eq!(store.committed.files[0].name, "holiday.jpg");
    assert_eq!(store.committed.files[0].size, Some(4));
    assert_eq!(store.committed.files[0].folder_id, None);
    assert_eq!(content_at(&store, &["holiday.jpg"]), Some(vec![1, 2, 3, 4]));
    assert_consistent(&store);
}

#[test]
fn upload_validates_the_name_that_is_in_force() {
    let mut store = Store::new();
    // the content's own name is bad, the given one is fine
    let ok = UploadFile {
        file_name: "a/b".to_string(),
        folder: None,
        name: Some("fine".to_string()),
        overwrite: None,
    };
    assert!(store.upload_file(ok, &vec![], &admin()).is_ok());
    // the given name is bad, the content's own name is fine
    let bad = UploadFile {
        file_name: "fine2".to_string(),
        folder: None,
        name: Some("CON".to_string()),
        overwrite: None,
    };
    let err = store.upload_file(bad, &vec![], &admin()).unwrap_err();
    assert_eq!(err.kind, ErrorKind::InvalidName);
    assert!(err.message.starts_with("You used illegal name."));
    let err = store.upload_file(upload("a?b", None, None), &vec![], &admin()).unwrap_err();
    assert_eq!(err.kind, ErrorKind::InvalidName);
    assert_eq!(err.kind.status().code(), 403);
    assert_eq!(store.committed.files.len(), 1);
    assert_consistent(&store);
}

#[test]
fn upload_into_a_folder_that_is_not_there_is_not_found() {
    let mut store = Store::new();
    let err = store.upload_file(upload("a.txt", Some(99), None), &vec![1], &admin()).unwrap_err();
    assert_eq!(err.kind, ErrorKind::NotFound);
    assert_eq!(err.message, "folder not found");
    assert!(store.disk.entries.is_empty());
    assert_consistent(&store);
}

#[test]
fn read_only_user_can_list_but_not_change_files() {
    let mut store = Store::new();
    store.create_folder(new_folder("shared", None), &admin()).unwrap();
    let shared = folder_id(&store, "shared");
    store.upload_file(upload("a.txt", Some(shared), None), &b"A".to_vec(), &admin()).unwrap();
    let a = file_id(&store, "a.txt");
    let reader = user(5);
    grant(&mut store, 5, Some(shared), true, false, false);
    let before = format!("{:?}{:?}{:?}", store.committed.folders, store.committed.files, store.disk);

    let listed = store.get_files(Some(shared), None, &reader);
    assert_eq!(listed.len(), 1);
    assert_eq!(listed[0].name, "a.txt");

    let e1 = store.upload_file(upload("b.txt", Some(shared), None), &vec![1], &reader).unwrap_err();
    let e2 = store.edit_file(EditFile { id: a, name: "z.txt".to_string() }, &reader).unwrap_err();
    let e3 = store.delete_file(RemoveFile { id: a }, &reader).unwrap_err();
    let e4 = store.upload_file(upload("a.txt", Some(shared), Some(true)), &vec![1], &reader).unwrap_err();
    for e in [e1, e2, e3, e4] {
        assert_eq!(e.kind, ErrorKind::Forbidden);
        assert_eq!(e.kind.status().code(), 403);
        assert_eq!(e.message, "no permissions to edit");
    }
    // nor may they touch the folder itself
    let e5 = store.edit_folder(EditFolderData { id: shared, name: "x".to_string() }, &reader).unwrap_err();
    let e6 = store.delete_folder(RemoveFolderData { id: shared }, &reader).unwrap_err();
    let e7 = store.create_folder(new_folder("sub", Some(shared)), &reader).unwrap_err();
    assert_eq!(e5.message, "no permissions to modify");
    assert_eq!(e6.message, "no permissions to modify");
    assert_eq!(e7.message, "no permissions to edit");
    assert_eq!(
        format!("{:?}{:?}{:?}", store.committed.folders, store.committed.files, store.disk),
        before
    );
    assert_consistent(&store);
}

#[test]
fn administrator_needs_no_permission_row() {
    let mut store = Store::new();
    let boss = UserData { user_id: 42, login: "b".to_string(), username: "B".to_string(), admin: true };
    let owner = user_with_root(&mut store, 3);
    store.create_folder(new_folder("a", None), &owner).unwrap();
    let a = folder_id(&store, "a");
    // the administrator has no row anywhere
    assert!(store.committed.permissions.iter().all(|p| p.user_id != 42));
    store.create_folder(new_folder("b", Some(a)), &boss).unwrap();
    store.upload_file(upload("f", Some(a), None), &vec![9], &boss).unwrap();
    let f = file_id(&store, "f");
    store.edit_file(EditFile { id: f, name: "g".to_string() }, &boss).unwrap();
    store.edit_folder(EditFolderData { id: a, name: "aa".to_string() }, &boss).unwrap();
    assert_eq!(store.get_files(Some(a), None, &boss).len(), 1);
    assert_eq!(store.get_folders(Some(a), None, &boss).len(), 1);
    store.delete_file(RemoveFile { id: f }, &boss).unwrap();
    store.delete_folder(RemoveFolderData { id: a }, &boss).unwrap();
    assert!(store.committed.folders.is_empty());
    assert_consistent(&store);
}

fn user_with_root(store: &mut Store, id: u128) -> UserData {
    grant(store, id, None, true, true, true);
    user(id)
}

#[test]
fn deleting_and_renaming_files() {
    let mut store = Store::new();
    store.create_folder(new_folder("d", None), &admin()).unwrap();
    let d = folder_id(&store, "d");
    store.upload_file(upload("a", Some(d), None), &b"A".to_vec(), &admin()).unwrap();
    store.upload_file(upload("b", Some(d), None), &b"B".to_vec(), &admin()).unwrap();
    let a = file_id(&store, "a");
    let b = file_id(&store, "b");

    let taken = store.edit_file(EditFile { id: a, name: "b".to_string() }, &admin()).unwrap_err();
    assert_eq!(taken.kind, ErrorKind::Conflict);
    assert_eq!(taken.message, "file with this name already exists");
    let bad = store.edit_file(EditFile { id: a, name: "x|y".to_string() }, &admin()).unwrap_err();
    assert_eq!(bad.kind, ErrorKind::InvalidName);
    let missing = store.edit_file(EditFile { id: 999, name: "c".to_string() }, &admin()).unwrap_err();
    assert_eq!(missing.kind, ErrorKind::NotFound);
    assert_eq!(missing.message, "file not found");
    assert_consistent(&store);

    let ok = store.edit_file(EditFile { id: a, name: "c".to_string() }, &admin()).unwrap();
    assert_eq!((ok.status, ok.message.as_str()), (Status::NoContent, "renamed file"));
    assert_eq!(content_at(&store, &["d", "c"]), Some(b"A".to_vec()));
    assert_eq!(content_at(&store, &["d", "a"]), None);
    assert_consistent(&store);

    let gone = store.delete_file(RemoveFile { id: b }, &admin()).unwrap();
    assert_eq!((gone.status, gone.message.as_str()), (Status::NoContent, "deleted file"));
    assert_eq!(content_at(&store, &["d", "b"]), None);
    let again = store.delete_file(RemoveFile { id: b }, &admin()).unwrap_err();
    assert_eq!(again.kind, ErrorKind::NotFound);
    assert_consistent(&store);
}

#[test]
fn invalid_folder_names_never_reach_rows_or_disk() {
    let mut store = Store::new();
    for name in ["a/b", "NUL", "x\ny"] {
        let err = store.create_folder(new_folder(name, None), &admin()).unwrap_err();
        assert_eq!(err.kind, ErrorKind::InvalidName);
    }
    let long = "a".repeat(256);
    let err = store.create_folder(new_folder(&long, None), &admin()).unwrap_err();
    assert_eq!(err.message, "Name is too long");
    assert!(store.committed.folders.is_empty());
    assert!(store.disk.entries.is_empty());
    assert_eq!(store.next_id, 1);
}

#[test]
fn creating_below_a_parent_that_is_not_there_is_a_database_fault() {
    let mut store = Store::new();
    let err = store.create_folder(new_folder("a", Some(5)), &admin()).unwrap_err();
    assert_eq!(err.kind, ErrorKind::DatabaseFault);
    assert_eq!(err.kind.status().code(), 500);
    assert_eq!(err.message, "database error");
    assert_consistent(&store);
}
