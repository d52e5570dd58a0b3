use lempek_assets::assets::{
    create_folder, delete_file, delete_folder, edit_file, edit_folder, size_to_record, upload_file,
    EditFile, EditFolderData, NewFolderData, RemoveFile, RemoveFolderData, UploadFile,
};
use lempek_assets::models::{ErrorKind, File, Folder, Permission, Status, UserData};
use lempek_assets::saga::{Action, Event, Saga, Stage, UPLOAD_MODE};

fn admin() -> UserData {
    UserData { user_id: 1, login: "root".to_string(), username: "Root".to_string(), admin: true }
}

fn user(id: u128) -> UserData {
    UserData { user_id: id, login: format!("u{id}"), username: format!("User {id}"), admin: false }
}

fn folder(id: u128, parent_id: Option<u128>, name: &str) -> Folder {
    Folder { id, parent_id, owner_id: 1, name: name.to_string(), created_at: 0, updated_at: 0 }
}

fn path(names: &[&str]) -> Vec<String> {
    names.iter().map(|n| n.to_string()).collect()
}

fn edit_row(user_id: u128, folder_id: Option<u128>) -> Permission {
    Permission { id: 1, folder_id, user_id, read: false, modify: false, edit: true }
}

/// Feeds the answers to a saga, one after the other, and writes down what
/// it asks for.
fn drive(mut step: impl FnMut(Saga, Event) -> (Saga, Action), answers: Vec<Event>) -> Vec<String> {
    let mut saga = Saga::new();
    let mut asked = Vec::new();
    let mut event = Event::Start;
    let mut answers = answers.into_iter();
    loop {
        let (next, action) = step(saga, event);
        asked.push(format!("{action:?}"));
        if let Action::Finish(_) = action {
            assert_eq!(next.stage, Stage::Finished);
            return asked;
        }
        saga = next;
        event = answers.next().expect("the saga asks for more than the script answers");
    }
}

fn short(asked: &[String]) -> Vec<&str> {
    asked.iter().map(|a| a.split(|c| c == ' ' || c == '(').next().unwrap()).collect()
}

#[test]
fn create_folder_happy_path_for_a_user() {
    let data = NewFolderData { name: "docs".to_string(), parent: Some(3) };
    let who = user(7);
    let asked = drive(
        |s, e| create_folder(&data, &who, s, e),
        vec![
            Event::Done,
            Event::Permissions(vec![edit_row(7, Some(3))]),
            Event::Inserted(10),
            Event::Done,
            Event::Folders(vec![folder(3, None, "top"), folder(10, Some(3), "docs")]),
            Event::Done,
            Event::Done,
        ],
    );
    assert_eq!(
        short(&asked),
        ["Begin", "LookupPermission", "InsertFolder", "Grant", "LoadFolders", "MakeDir", "Commit", "Finish"]
    );
    assert_eq!(asked[1], format!("{:?}", Action::LookupPermission { user_id: 7, folder_id: Some(3) }));
    assert_eq!(
        asked[2],
        format!("{:?}", Action::InsertFolder { name: "docs".to_string(), parent_id: Some(3), owner_id: 7 })
    );
    assert_eq!(asked[3], format!("{:?}", Action::Grant { user_id: 7, folder_id: 10 }));
    assert_eq!(asked[4], format!("{:?}", Action::LoadFolders { id: Some(10) }));
    assert_eq!(asked[5], format!("{:?}", Action::MakeDir { path: path(&["top", "docs"]) }));
    assert!(asked[7].contains("Created"));
    assert!(asked[7].contains("created folder named: \\\"docs\\\""));
}

#[test]
fn create_folder_by_an_administrator_asks_for_no_permission_rows() {
    let data = NewFolderData { name: "docs".to_string(), parent: None };
    let who = admin();
    let asked = drive(
        |s, e| create_folder(&data, &who, s, e),
        vec![
            Event::Done,
            Event::Inserted(10),
            Event::Done,
            Event::Folders(vec![folder(10, None, "docs")]),
            Event::Done,
            Event::Done,
        ],
    );
    assert_eq!(short(&asked), ["Begin", "InsertFolder", "Grant", "LoadFolders", "MakeDir", "Commit", "Finish"]);
}

fn finish(asked: &[String]) -> &str {
    asked.last().unwrap()
}

#[test]
fn create_folder_refusals_touch_no_disk() {
    let data = NewFolderData { name: "docs".to_string(), parent: Some(3) };
    let who = user(7);
    // no row
    let asked = drive(|s, e| create_folder(&data, &who, s, e), vec![Event::Done, Event::Permissions(vec![]), Event::Done]);
    assert_eq!(short(&asked), ["Begin", "LookupPermission", "Rollback", "Finish"]);
    assert!(finish(&asked).contains("Forbidden"));
    assert!(finish(&asked).contains("no permissions to edit"));
    // bad name, found after the permission check and before any row is written
    let bad = NewFolderData { name: "do:cs".to_string(), parent: Some(3) };
    let asked = drive(
        |s, e| create_folder(&bad, &who, s, e),
        vec![Event::Done, Event::Permissions(vec![edit_row(7, Some(3))]), Event::Done],
    );
    assert_eq!(short(&asked), ["Begin", "LookupPermission", "Rollback", "Finish"]);
    assert!(finish(&asked).contains("InvalidName"));
    // taken name
    let asked = drive(
        |s, e| create_folder(&data, &who, s, e),
        vec![Event::Done, Event::Permissions(vec![edit_row(7, Some(3))]), Event::Duplicate, Event::Done],
    );
    assert_eq!(short(&asked), ["Begin", "LookupPermission", "InsertFolder", "Rollback", "Finish"]);
    assert!(finish(&asked).contains("Conflict"));
    // the transaction does not open
    let asked = drive(|s, e| create_folder(&data, &who, s, e), vec![Event::Failed]);
    assert_eq!(short(&asked), ["Begin", "Finish"]);
    assert!(finish(&asked).contains("DatabaseFault"));
}

#[test]
fn create_folder_undoes_the_directory_when_the_commit_fails() {
    let data = NewFolderData { name: "docs".to_string(), parent: None };
    let who = admin();
    let until_commit = || {
        vec![
            Event::Done,
            Event::Inserted(10),
            Event::Done,
            Event::Folders(vec![folder(10, None, "docs")]),
            Event::Done,
            Event::Failed,
        ]
    };
    let mut answers = until_commit();
    answers.push(Event::Done);
    let asked = drive(|s, e| create_folder(&data, &who, s, e), answers);
    assert_eq!(
        short(&asked),
        ["Begin", "InsertFolder", "Grant", "LoadFolders", "MakeDir", "Commit", "RemoveDir", "Finish"]
    );
    assert_eq!(asked[6], format!("{:?}", Action::RemoveDir { path: path(&["docs"]) }));
    assert!(finish(&asked).contains("DatabaseFault"));

    let mut answers = until_commit();
    answers.push(Event::Failed);
    let asked = drive(|s, e| create_folder(&data, &who, s, e), answers);
    assert!(finish(&asked).contains("PartialFailure"));
    assert!(finish(&asked).contains("error while removing created folder"));
    assert!(finish(&asked).contains("orphan: Some([\"docs\"])"));
}

#[test]
fn create_folder_cleans_up_and_rolls_back_when_the_directory_cannot_be_made() {
    let data = NewFolderData { name: "docs".to_string(), parent: None };
    let who = admin();
    for (cleanup, kind) in [(Event::Missing, "StorageFault"), (Event::Done, "StorageFault"), (Event::Failed, "PartialFailure")] {
        let asked = drive(
            |s, e| create_folder(&data, &who, s, e),
            vec![
                Event::Done,
                Event::Inserted(10),
                Event::Done,
                Event::Folders(vec![folder(10, None, "docs")]),
                Event::Failed,
                cleanup,
                Event::Done,
            ],
        );
        assert_eq!(
            short(&asked),
            ["Begin", "InsertFolder", "Grant", "LoadFolders", "MakeDir", "RemoveDir", "Rollback", "Finish"]
        );
        assert!(finish(&asked).contains(kind), "{}", finish(&asked));
    }
}

#[test]
fn delete_folder_commits_before_it_touches_the_disk() {
    let data = RemoveFolderData { id: 4 };
    let who = user(7);
    let rows = || vec![folder(2, None, "a"), folder(4, Some(2), "b")];
    let modify = Permission { id: 1, folder_id: Some(4), user_id: 7, read: false, modify: true, edit: false };
    let asked = drive(
        |s, e| delete_folder(&data, &who, s, e),
        vec![
            Event::Done,
            Event::Permissions(vec![modify]),
            Event::Folders(rows()),
            Event::Affected(1),
            Event::Done,
            Event::Done,
        ],
    );
    assert_eq!(
        short(&asked),
        ["Begin", "LookupPermission", "LoadFolders", "DeleteFolder", "Commit", "RemoveDirAll", "Finish"]
    );
    assert_eq!(asked[5], format!("{:?}", Action::RemoveDirAll { path: path(&["a", "b"]) }));
    assert!(finish(&asked).contains("NoContent"));

    // not found: by the resolver, or by the statement
    let who = admin();
    let asked = drive(|s, e| delete_folder(&data, &who, s, e), vec![Event::Done, Event::Folders(vec![]), Event::Done]);
    assert_eq!(short(&asked), ["Begin", "LoadFolders", "Rollback", "Finish"]);
    assert!(finish(&asked).contains("NotFound"));
    let asked = drive(
        |s, e| delete_folder(&data, &who, s, e),
        vec![Event::Done, Event::Folders(rows()), Event::Affected(0), Event::Done],
    );
    assert_eq!(short(&asked), ["Begin", "LoadFolders", "DeleteFolder", "Rollback", "Finish"]);
    assert!(finish(&asked).contains("NotFound"));

    // a failed commit leaves the disk alone
    let asked = drive(
        |s, e| delete_folder(&data, &who, s, e),
        vec![Event::Done, Event::Folders(rows()), Event::Affected(1), Event::Failed],
    );
    assert_eq!(short(&asked), ["Begin", "LoadFolders", "DeleteFolder", "Commit", "Finish"]);
    assert!(finish(&asked).contains("DatabaseFault"));

    // a permission row that lets read and edit does not let delete
    let who = user(7);
    let weak = Permission { id: 1, folder_id: Some(4), user_id: 7, read: true, modify: false, edit: true };
    let asked = drive(|s, e| delete_folder(&data, &who, s, e), vec![Event::Done, Event::Permissions(vec![weak]), Event::Done]);
    assert!(finish(&asked).contains("no permissions to modify"));
}

#[test]
fn edit_folder_moves_to_the_sibling_path() {
    let data = EditFolderData { id: 4, name: "c".to_string() };
    let who = admin();
    let rows = || vec![folder(2, None, "a"), folder(4, Some(2), "b")];
    let asked = drive(
        |s, e| edit_folder(&data, &who, s, e),
        vec![Event::Done, Event::Folders(rows()), Event::Affected(1), Event::Done, Event::Done],
    );
    assert_eq!(short(&asked), ["Begin", "LoadFolders", "RenameFolder", "Rename", "Commit", "Finish"]);
    assert_eq!(asked[2], format!("{:?}", Action::RenameFolder { id: 4, name: "c".to_string() }));
    assert_eq!(asked[3], format!("{:?}", Action::Rename { from: path(&["a", "b"]), to: path(&["a", "c"]) }));

    let asked = drive(
        |s, e| edit_folder(&data, &who, s, e),
        vec![Event::Done, Event::Folders(rows()), Event::Duplicate, Event::Done],
    );
    assert_eq!(short(&asked), ["Begin", "LoadFolders", "RenameFolder", "Rollback", "Finish"]);
    assert!(finish(&asked).contains("Conflict"));

    let asked = drive(
        |s, e| edit_folder(&data, &who, s, e),
        vec![Event::Done, Event::Folders(rows()), Event::Affected(1), Event::Done, Event::Failed, Event::Done],
    );
    assert_eq!(short(&asked), ["Begin", "LoadFolders", "RenameFolder", "Rename", "Commit", "Rename", "Finish"]);
    assert_eq!(asked[5], format!("{:?}", Action::Rename { from: path(&["a", "c"]), to: path(&["a", "b"]) }));
    assert!(finish(&asked).contains("DatabaseFault"));
}

fn file_row(id: u128, folder_id: Option<u128>, name: &str) -> File {
    File { id, folder_id, owner_id: 1, name: name.to_string(), size: Some(1), created_at: 0, updated_at: 0 }
}

#[test]
fn file_sagas_read_the_row_before_they_ask_for_permission() {
    let who = user(7);
    let del = RemoveFile { id: 9 };
    let asked = drive(
        |s, e| delete_file(&del, &who, s, e),
        vec![
            Event::Done,
            Event::FileRow(Some(file_row(9, Some(2), "f.txt"))),
            Event::Permissions(vec![edit_row(7, Some(2))]),
            Event::Folders(vec![folder(2, None, "a")]),
            Event::Affected(1),
            Event::Done,
            Event::Done,
        ],
    );
    assert_eq!(
        short(&asked),
        ["Begin", "FindFile", "LookupPermission", "LoadFolders", "DeleteFile", "Commit", "RemoveFile", "Finish"]
    );
    assert_eq!(asked[2], format!("{:?}", Action::LookupPermission { user_id: 7, folder_id: Some(2) }));
    assert_eq!(asked[6], format!("{:?}", Action::RemoveFile { path: path(&["a", "f.txt"]) }));

    let asked = drive(|s, e| delete_file(&del, &who, s, e), vec![Event::Done, Event::FileRow(None), Event::Done]);
    assert_eq!(short(&asked), ["Begin", "FindFile", "Rollback", "Finish"]);
    assert!(finish(&asked).contains("file not found"));

    let ren = EditFile { id: 9, name: "g.txt".to_string() };
    let asked = drive(
        |s, e| edit_file(&ren, &who, s, e),
        vec![
            Event::Done,
            Event::FileRow(Some(file_row(9, None, "f.txt"))),
            Event::Permissions(vec![edit_row(7, None)]),
            Event::Folders(vec![]),
            Event::Affected(1),
            Event::Done,
            Event::Done,
        ],
    );
    assert_eq!(
        short(&asked),
        ["Begin", "FindFile", "LookupPermission", "LoadFolders", "RenameFile", "Rename", "Commit", "Finish"]
    );
    assert_eq!(asked[5], format!("{:?}", Action::Rename { from: path(&["f.txt"]), to: path(&["g.txt"]) }));
    assert!(finish(&asked).contains("renamed file"));
}

#[test]
fn upload_sets_the_mode_and_records_the_size() {
    assert_eq!(UPLOAD_MODE, 0o664);
    let data = UploadFile { file_name: "x.bin".to_string(), folder: Some(2), name: None, overwrite: Some(true) };
    let who = admin();
    let asked = drive(
        |s, e| upload_file(&data, &who, s, e),
        vec![
            Event::Done,
            Event::Folders(vec![folder(2, None, "a")]),
            Event::Exists(true),
            Event::Affected(1),
            Event::Done,
            Event::Done,
            Event::Written(1234),
            Event::Inserted(5),
            Event::Done,
        ],
    );
    assert_eq!(
        short(&asked),
        [
            "Begin", "LoadFolders", "FileExists", "DeleteFileNamed", "RemoveFile", "EnsureDir", "WriteFile",
            "InsertFile", "Commit", "Finish"
        ]
    );
    assert_eq!(asked[5], format!("{:?}", Action::EnsureDir { path: path(&["a"]) }));
    assert_eq!(asked[6], format!("{:?}", Action::WriteFile { path: path(&["a", "x.bin"]), mode: 0o664 }));
    assert_eq!(
        asked[7],
        format!(
            "{:?}",
            Action::InsertFile { owner_id: 1, folder_id: Some(2), name: "x.bin".to_string(), size: 1234 }
        )
    );
    assert!(finish(&asked).contains("created file named: \\\"x.bin\\\""));
    assert_eq!(size_to_record(0), 0);
    assert_eq!(size_to_record(i64::MAX as u64), i64::MAX);
    assert_eq!(size_to_record(i64::MAX as u64 + 1), i64::MAX);
    assert_eq!(size_to_record(u64::MAX), i64::MAX);
}

#[test]
fn a_saga_that_is_over_stays_over() {
    let data = NewFolderData { name: "docs".to_string(), parent: None };
    let who = admin();
    let (saga, action) = create_folder(&data, &who, Saga::new(), Event::Start);
    assert!(matches!(action, Action::Begin));
    let (saga, action) = create_folder(&data, &who, saga, Event::Failed);
    assert!(matches!(action, Action::Finish(Err(_))));
    assert_eq!(saga.stage, Stage::Finished);
    let (saga, action) = create_folder(&data, &who, saga, Event::Done);
    match action {
        Action::Finish(Err(f)) => assert_eq!(f.kind, ErrorKind::DatabaseFault),
        other => panic!("{other:?}"),
    }
    assert_eq!(saga.stage, Stage::Finished);
    let _ = Status::Success;
}
