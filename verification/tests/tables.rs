use lempek_assets::saga::Event;
use lempek_assets::tables::{
    file_taken, find_file_index, folder_lies_in, folder_taken, known_folder, subtree_holds, Tables,
};

fn is(e: Event, expected: &str) -> bool {
    format!("{e:?}") == expected
}

fn s(v: &str) -> String {
    v.to_string()
}

/// a(1) holds b(2) holds c(3); d(4) stands alone.
fn tree() -> Tables {
    let mut t = Tables::new();
    assert!(is(t.insert_folder(&s("a"), None, 9, 1, 10), "Inserted(1)"));
    assert!(is(t.insert_folder(&s("b"), Some(1), 9, 2, 11), "Inserted(2)"));
    assert!(is(t.insert_folder(&s("c"), Some(2), 9, 3, 12), "Inserted(3)"));
    assert!(is(t.insert_folder(&s("d"), None, 9, 4, 13), "Inserted(4)"));
    assert!(is(t.insert_file(9, Some(2), &s("f"), 7, 5, 14), "Inserted(5)"));
    assert!(is(t.insert_file(9, None, &s("f"), 8, 6, 15), "Inserted(6)"));
    assert!(is(t.insert_file(9, Some(4), &s("g"), 9, 7, 16), "Inserted(7)"));
    assert!(is(t.grant_all(9, 1, 8), "Done"));
    assert!(is(t.grant_all(9, 3, 9), "Done"));
    assert!(is(t.grant_all(9, 4, 10), "Done"));
    t
}

#[test]
fn inserting_folders_keeps_names_apart_and_parents_real() {
    let mut t = tree();
    assert!(is(t.insert_folder(&s("a"), None, 9, 20, 0), "Duplicate"));
    assert!(is(t.insert_folder(&s("b"), Some(1), 9, 20, 0), "Duplicate"));
    assert!(is(t.insert_folder(&s("x"), Some(77), 9, 20, 0), "Failed"));
    assert!(is(t.insert_folder(&s("a"), Some(1), 9, 20, 5), "Inserted(20)"));
    let row = t.folders.last().unwrap();
    assert_eq!((row.id, row.parent_id, row.owner_id, row.created_at, row.updated_at), (20, Some(1), 9, 5, 5));
    assert!(folder_taken(&t.folders, Some(1), &s("a"), None));
    assert!(!folder_taken(&t.folders, Some(1), &s("a"), Some(20)));
    assert!(!folder_taken(&t.folders, Some(2), &s("a"), None));
    assert!(known_folder(&t.folders, None));
    assert!(known_folder(&t.folders, Some(3)));
    assert!(!known_folder(&t.folders, Some(77)));
}

#[test]
fn grants_are_one_per_user_and_folder() {
    let mut t = tree();
    assert!(is(t.grant_all(9, 1, 30), "Failed"));
    assert!(is(t.grant_all(9, 77, 30), "Failed"));
    assert!(is(t.grant_all(8, 1, 30), "Done"));
    let row = t.permissions.last().unwrap();
    assert_eq!((row.id, row.user_id, row.folder_id), (30, 8, Some(1)));
    assert!(row.read && row.modify && row.edit);
}

#[test]
fn subtrees() {
    let t = tree();
    for (root, x, inside) in [(1, 1, true), (1, 2, true), (1, 3, true), (1, 4, false), (2, 1, false), (2, 3, true), (3, 3, true), (3, 2, false), (4, 4, true), (77, 1, false), (1, 77, false)] {
        assert_eq!(subtree_holds(&t.folders, root, x), inside, "{root} {x}");
    }
    assert!(!folder_lies_in(&t.folders, 1, None));
    assert!(folder_lies_in(&t.folders, 1, Some(3)));
}

#[test]
fn deleting_a_folder_cascades() {
    let mut t = tree();
    assert!(is(t.delete_folder(77), "Affected(0)"));
    assert_eq!(t.folders.len(), 4);
    assert!(is(t.delete_folder(2), "Affected(1)"));
    let folders: Vec<u128> = t.folders.iter().map(|f| f.id).collect();
    let files: Vec<u128> = t.files.iter().map(|f| f.id).collect();
    let grants: Vec<Option<u128>> = t.permissions.iter().map(|p| p.folder_id).collect();
    assert_eq!(folders, [1, 4]);
    assert_eq!(files, [6, 7]);
    assert_eq!(grants, [Some(1), Some(4)]);
    assert!(is(t.delete_folder(2), "Affected(0)"));
}

#[test]
fn renaming_rows() {
    let mut t = tree();
    assert!(is(t.rename_folder(77, &s("x"), 50), "Affected(0)"));
    assert!(is(t.rename_folder(4, &s("a"), 50), "Duplicate"));
    assert!(is(t.rename_folder(4, &s("d"), 50), "Affected(1)"));
    assert!(is(t.rename_folder(4, &s("b"), 51), "Affected(1)"));
    assert_eq!((t.folders[3].name.as_str(), t.folders[3].created_at, t.folders[3].updated_at), ("b", 13, 51));

    assert!(is(t.insert_file(9, Some(2), &s("h"), 1, 40, 0), "Inserted(40)"));
    assert!(is(t.rename_file(40, &s("f"), 60), "Duplicate"));
    assert!(is(t.rename_file(40, &s("h"), 60), "Affected(1)"));
    assert!(is(t.rename_file(40, &s("i"), 61), "Affected(1)"));
    assert!(is(t.rename_file(77, &s("i"), 61), "Affected(0)"));
    let row = t.files.last().unwrap();
    assert_eq!((row.name.as_str(), row.size, row.updated_at), ("i", Some(1), 61));
}

#[test]
fn file_rows() {
    let mut t = tree();
    assert!(is(t.insert_file(9, Some(2), &s("f"), 1, 40, 0), "Duplicate"));
    assert!(is(t.insert_file(9, Some(77), &s("f"), 1, 40, 0), "Failed"));
    assert!(file_taken(&t.files, None, &s("f"), None));
    assert!(!file_taken(&t.files, None, &s("f"), Some(6)));
    assert!(!file_taken(&t.files, Some(1), &s("f"), None));
    assert_eq!(find_file_index(&t.files, 6), Some(1));
    assert_eq!(find_file_index(&t.files, 77), None);
    assert_eq!(t.find_file(7).unwrap().name, "g");
    assert!(t.find_file(77).is_none());
    assert!(is(t.delete_file_named(Some(1), &s("f")), "Affected(0)"));
    assert!(is(t.delete_file_named(None, &s("f")), "Affected(1)"));
    assert!(is(t.delete_file(5), "Affected(1)"));
    assert!(is(t.delete_file(5), "Affected(0)"));
    assert_eq!(t.files.len(), 1);
    let copy = t.duplicate();
    assert_eq!(format!("{copy:?}"), format!("{t:?}"));
}
