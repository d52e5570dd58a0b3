use lempek_assets::listing::{
    get_all_files, get_all_folders, get_files, get_folders, get_folders_path, get_ord,
    name_precedes, same_text, SortOrder,
};
use lempek_assets::models::{ErrorKind, File, Folder, Permission, UserData};

fn admin() -> UserData {
    UserData { user_id: 1, login: "root".to_string(), username: "Root".to_string(), admin: true }
}

fn user(id: u128) -> UserData {
    UserData { user_id: id, login: format!("u{id}"), username: format!("User {id}"), admin: false }
}

fn folder(id: u128, parent_id: Option<u128>, name: &str, created_at: i64, updated_at: i64) -> Folder {
    Folder { id, parent_id, owner_id: 1, name: name.to_string(), created_at, updated_at }
}

fn file(id: u128, folder_id: Option<u128>, name: &str, created_at: i64, updated_at: i64) -> File {
    File { id, folder_id, owner_id: 1, name: name.to_string(), size: Some(0), created_at, updated_at }
}

fn read(id: u128, user_id: u128, folder_id: Option<u128>) -> Permission {
    Permission { id, folder_id, user_id, read: true, modify: false, edit: false }
}

fn folder_names(rows: &[Folder]) -> Vec<&str> {
    rows.iter().map(|f| f.name.as_str()).collect()
}

fn file_names(rows: &[File]) -> Vec<&str> {
    rows.iter().map(|f| f.name.as_str()).collect()
}

fn some(s: &str) -> Option<String> {
    Some(s.to_string())
}

#[test]
fn order_clauses() {
    assert_eq!(get_ord(some("name_asc")), "f.name ASC");
    assert_eq!(get_ord(some("name_desc")), "f.name DESC");
    assert_eq!(get_ord(some("created_asc")), "f.created_at ASC");
    assert_eq!(get_ord(some("created_desc")), "f.created_at DESC");
    assert_eq!(get_ord(some("updated_asc")), "f.updated_at ASC");
    assert_eq!(get_ord(some("updated_desc")), "f.updated_at DESC");
}

#[test]
fn unknown_order_falls_back_to_name_ascending() {
    assert_eq!(get_ord(None), "f.name ASC");
    for odd in ["", "NAME_DESC", "name_desc ", "size_asc", "f.name; DROP TABLE folders", "name_descx"] {
        assert_eq!(get_ord(some(odd)), "f.name ASC", "{odd:?}");
        assert_eq!(SortOrder::parse(Some(odd)), SortOrder::NameAsc);
    }
    assert_eq!(SortOrder::parse(None), SortOrder::NameAsc);
    assert_eq!(SortOrder::parse(Some("updated_desc")), SortOrder::UpdatedDesc);
    assert_eq!(SortOrder::UpdatedDesc.clause(), "f.updated_at DESC");
}

#[test]
fn texts_compare_by_their_bytes() {
    assert!(same_text("abc", "abc"));
    assert!(!same_text("abc", "abd"));
    assert!(!same_text("abc", "ab"));
    assert!(same_text("", ""));
    assert!(same_text("é", "é"));
    assert!(name_precedes("a", "b"));
    assert!(!name_precedes("b", "a"));
    assert!(!name_precedes("a", "a"));
    assert!(name_precedes("a", "aa"));
    assert!(!name_precedes("aa", "a"));
    assert!(name_precedes("", "a"));
    assert!(!name_precedes("", ""));
    assert!(name_precedes("B", "a"));
    assert!(name_precedes("z", "é"));
}

fn tree() -> Vec<Folder> {
    vec![
        folder(1, None, "music", 30, 50),
        folder(2, None, "docs", 10, 90),
        folder(3, None, "Pictures", 20, 70),
        folder(4, Some(2), "inner", 40, 40),
        folder(5, None, "archive", 20, 60),
    ]
}

#[test]
fn folders_in_every_order() {
    let rows = tree();
    let none = vec![];
    let by = |order: &str| -> Vec<String> {
        get_folders(&rows, &none, None, some(order), &admin()).iter().map(|f| f.name.clone()).collect()
    };
    assert_eq!(by("name_asc"), ["Pictures", "archive", "docs", "music"]);
    assert_eq!(by("name_desc"), ["music", "docs", "archive", "Pictures"]);
    assert_eq!(by("created_asc"), ["docs", "Pictures", "archive", "music"]);
    assert_eq!(by("created_desc"), ["music", "Pictures", "archive", "docs"]);
    assert_eq!(by("updated_asc"), ["music", "archive", "Pictures", "docs"]);
    assert_eq!(by("updated_desc"), ["docs", "Pictures", "archive", "music"]);
    assert_eq!(by("whatever"), ["Pictures", "archive", "docs", "music"]);
    let default = get_folders(&rows, &none, None, None, &admin());
    assert_eq!(folder_names(&default), ["Pictures", "archive", "docs", "music"]);
}

#[test]
fn rows_that_tie_keep_the_order_they_came_in() {
    let rows = vec![
        folder(1, None, "c", 5, 0),
        folder(2, None, "a", 5, 0),
        folder(3, None, "b", 5, 0),
    ];
    let listed = get_folders(&rows, &vec![], None, some("created_asc"), &admin());
    assert_eq!(folder_names(&listed), ["c", "a", "b"]);
    let listed = get_folders(&rows, &vec![], None, some("created_desc"), &admin());
    assert_eq!(folder_names(&listed), ["c", "a", "b"]);
}

#[test]
fn only_direct_children_are_listed() {
    let rows = tree();
    let listed = get_folders(&rows, &vec![], Some(2), None, &admin());
    assert_eq!(folder_names(&listed), ["inner"]);
    assert!(get_folders(&rows, &vec![], Some(4), None, &admin()).is_empty());
    assert!(get_folders(&rows, &vec![], Some(99), None, &admin()).is_empty());
}

#[test]
fn a_user_sees_the_folders_they_may_read() {
    let rows = tree();
    let perms = vec![
        read(1, 7, Some(1)),
        read(2, 7, Some(4)),
        Permission { id: 3, folder_id: Some(2), user_id: 7, read: false, modify: true, edit: true },
        read(4, 8, Some(3)),
        read(5, 7, None),
    ];
    let listed = get_folders(&rows, &perms, None, None, &user(7));
    assert_eq!(folder_names(&listed), ["music"]);
    let listed = get_folders(&rows, &perms, Some(2), None, &user(7));
    assert_eq!(folder_names(&listed), ["inner"]);
    let listed = get_folders(&rows, &perms, None, None, &user(8));
    assert_eq!(folder_names(&listed), ["Pictures"]);
    assert!(get_folders(&rows, &perms, None, None, &user(9)).is_empty());
    assert_eq!(get_folders(&rows, &perms, None, None, &admin()).len(), 4);

    let all = get_all_folders(&rows, &perms, &user(7));
    assert_eq!(folder_names(&all), ["music", "inner"]);
    assert_eq!(get_all_folders(&rows, &perms, &admin()).len(), 5);
}

#[test]
fn a_user_sees_the_files_of_folders_they_may_read() {
    let files = vec![
        file(1, Some(2), "b.txt", 2, 2),
        file(2, Some(2), "a.txt", 1, 3),
        file(3, None, "root.txt", 0, 0),
        file(4, Some(3), "pic.png", 0, 0),
    ];
    let perms = vec![read(1, 7, Some(2)), read(2, 8, None)];
    let listed = get_files(&files, &perms, Some(2), None, &user(7));
    assert_eq!(file_names(&listed), ["a.txt", "b.txt"]);
    let listed = get_files(&files, &perms, Some(2), some("created_desc"), &user(7));
    assert_eq!(file_names(&listed), ["b.txt", "a.txt"]);
    assert!(get_files(&files, &perms, Some(3), None, &user(7)).is_empty());
    assert!(get_files(&files, &perms, None, None, &user(7)).is_empty());
    assert_eq!(file_names(&get_files(&files, &perms, None, None, &user(8))), ["root.txt"]);
    assert_eq!(file_names(&get_files(&files, &perms, Some(3), None, &admin())), ["pic.png"]);

    assert_eq!(file_names(&get_all_files(&files, &perms, &user(7))), ["b.txt", "a.txt"]);
    assert_eq!(file_names(&get_all_files(&files, &perms, &user(8))), ["root.txt"]);
    assert_eq!(get_all_files(&files, &perms, &admin()).len(), 4);
}

#[test]
fn the_path_of_a_folder_is_shown_to_those_who_may_read_it() {
    let rows = tree();
    let perms = vec![read(1, 7, Some(4))];
    let steps = get_folders_path(&rows, &perms, Some(4), &user(7)).unwrap();
    let shown: Vec<(u128, &str)> = steps.iter().map(|s| (s.id, s.name.as_str())).collect();
    assert_eq!(shown, [(2, "docs"), (4, "inner")]);

    let refused = get_folders_path(&rows, &perms, Some(2), &user(7)).unwrap_err();
    assert_eq!(refused.kind, ErrorKind::Forbidden);
    assert_eq!(refused.message, "no permissions to read");

    let missing = get_folders_path(&rows, &perms, Some(99), &admin()).unwrap_err();
    assert_eq!(missing.kind, ErrorKind::NotFound);
    assert_eq!(missing.message, "folder not found");

    assert!(get_folders_path(&rows, &perms, None, &admin()).unwrap().is_empty());

    let broken = vec![folder(1, Some(1), "loop", 0, 0)];
    let fault = get_folders_path(&broken, &perms, Some(1), &admin()).unwrap_err();
    assert_eq!(fault.kind, ErrorKind::DatabaseFault);
}
