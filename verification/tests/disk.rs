use lempek_assets::disk::{copy_bytes, path_has_prefix, path_take, same_path, Disk};
use lempek_assets::saga::Event;

fn path(names: &[&str]) -> Vec<String> {
    names.iter().map(|n| n.to_string()).collect()
}

fn is(e: Event, expected: &str) -> bool {
    format!("{e:?}") == expected
}

fn paths(disk: &Disk) -> Vec<String> {
    disk.entries.iter().map(|e| e.path.join("/")).collect()
}

fn tree() -> Disk {
    let mut d = Disk::new();
    assert!(is(d.make_dir(&path(&["a"])), "Done"));
    assert!(is(d.make_dir(&path(&["a", "b"])), "Done"));
    assert!(is(d.write_file(&path(&["a", "f.txt"]), &b"one".to_vec()), "Written(3)"));
    assert!(is(d.write_file(&path(&["a", "b", "g.txt"]), &b"four".to_vec()), "Written(4)"));
    assert!(is(d.make_dir(&path(&["z"])), "Done"));
    d
}

#[test]
fn paths_compare_name_by_name() {
    assert!(same_path(&path(&[]), &path(&[])));
    assert!(same_path(&path(&["a", "b"]), &path(&["a", "b"])));
    assert!(!same_path(&path(&["a", "b"]), &path(&["a"])));
    assert!(!same_path(&path(&["a", "b"]), &path(&["a", "c"])));
    assert!(!same_path(&path(&["ab"]), &path(&["a", "b"])));
    assert!(path_has_prefix(&path(&["a", "b"]), &path(&[])));
    assert!(path_has_prefix(&path(&["a", "b"]), &path(&["a"])));
    assert!(path_has_prefix(&path(&["a", "b"]), &path(&["a", "b"])));
    assert!(!path_has_prefix(&path(&["a"]), &path(&["a", "b"])));
    assert!(!path_has_prefix(&path(&["ab", "c"]), &path(&["a"])));
    assert_eq!(path_take(&path(&["a", "b", "c"]), 2), path(&["a", "b"]));
    assert_eq!(path_take(&path(&["a"]), 0), path(&[]));
    assert_eq!(copy_bytes(&vec![1, 2, 3]), vec![1, 2, 3]);
}

#[test]
fn the_root_is_always_a_directory_and_never_an_entry() {
    let mut d = Disk::new();
    assert!(d.dir_at(&path(&[])));
    assert!(!d.file_at(&path(&[])));
    assert_eq!(d.find(&path(&[])), None);
    assert!(is(d.make_dir(&path(&[])), "Failed"));
    assert!(is(d.remove_dir(&path(&[])), "Failed"));
    assert!(is(d.remove_dir_all(&path(&[])), "Failed"));
    assert!(is(d.write_file(&path(&[]), &vec![]), "Failed"));
    assert!(is(d.ensure_dir(&path(&[])), "Done"));
    assert!(d.entries.is_empty());
}

#[test]
fn a_directory_needs_its_parent_and_a_free_place() {
    let mut d = tree();
    assert!(is(d.make_dir(&path(&["a"])), "Failed"));
    assert!(is(d.make_dir(&path(&["a", "f.txt"])), "Failed"));
    assert!(is(d.make_dir(&path(&["nope", "x"])), "Failed"));
    assert!(is(d.make_dir(&path(&["a", "f.txt", "x"])), "Failed"));
    assert_eq!(paths(&d), ["a", "a/b", "a/f.txt", "a/b/g.txt", "z"]);
    assert!(d.dir_at(&path(&["a", "b"])));
    assert!(!d.dir_at(&path(&["a", "f.txt"])));
    assert!(d.file_at(&path(&["a", "f.txt"])));
    assert!(d.child_below(&path(&["a"])));
    assert!(!d.child_below(&path(&["z"])));
    assert!(d.parent_is_dir(&path(&["a", "new"])));
    assert!(!d.parent_is_dir(&path(&["a", "f.txt", "new"])));
}

#[test]
fn only_empty_directories_are_removed_one_by_one() {
    let mut d = tree();
    assert!(is(d.remove_dir(&path(&["a"])), "Failed"));
    assert!(is(d.remove_dir(&path(&["a", "f.txt"])), "Failed"));
    assert!(is(d.remove_dir(&path(&["nope"])), "Missing"));
    assert!(is(d.remove_dir(&path(&["z"])), "Done"));
    assert_eq!(paths(&d), ["a", "a/b", "a/f.txt", "a/b/g.txt"]);
}

#[test]
fn removing_a_directory_with_all_takes_what_is_below_and_nothing_else() {
    let mut d = tree();
    d.make_dir(&path(&["ab"]));
    assert!(is(d.remove_dir_all(&path(&["nope"])), "Missing"));
    assert!(is(d.remove_dir_all(&path(&["a", "f.txt"])), "Failed"));
    assert!(is(d.remove_dir_all(&path(&["a"])), "Done"));
    assert_eq!(paths(&d), ["z", "ab"]);
}

#[test]
fn moving_takes_everything_below_along() {
    let mut d = tree();
    assert!(is(d.rename(&path(&["a"]), &path(&["z"])), "Failed"));
    assert!(is(d.rename(&path(&["a"]), &path(&["a", "b", "c"])), "Failed"));
    assert!(is(d.rename(&path(&["nope"]), &path(&["n"])), "Failed"));
    assert!(is(d.rename(&path(&["a"]), &path(&["nope", "a"])), "Failed"));
    assert!(is(d.rename(&path(&["a"]), &path(&[])), "Failed"));
    assert!(is(d.rename(&path(&["a"]), &path(&["a"])), "Done"));
    assert_eq!(paths(&d), ["a", "a/b", "a/f.txt", "a/b/g.txt", "z"]);
    assert!(is(d.rename(&path(&["a"]), &path(&["z", "moved"])), "Done"));
    assert_eq!(paths(&d), ["z/moved", "z/moved/b", "z/moved/f.txt", "z/moved/b/g.txt", "z"]);
    assert_eq!(d.entries[3].content, Some(b"four".to_vec()));
    assert!(is(d.rename(&path(&["z", "moved", "f.txt"]), &path(&["z", "moved", "h.txt"])), "Done"));
    assert!(d.file_at(&path(&["z", "moved", "h.txt"])));
    assert!(!d.file_at(&path(&["z", "moved", "f.txt"])));
}

#[test]
fn storing_replaces_the_content_of_a_file_and_never_a_directory() {
    let mut d = tree();
    assert!(is(d.write_file(&path(&["a", "f.txt"]), &b"longer".to_vec()), "Written(6)"));
    assert_eq!(d.entries.len(), 5);
    assert_eq!(d.entries[2].content, Some(b"longer".to_vec()));
    assert!(is(d.write_file(&path(&["a", "b"]), &vec![]), "Failed"));
    assert!(is(d.write_file(&path(&["nope", "f"]), &vec![]), "Failed"));
    assert!(is(d.write_file(&path(&["a", "empty"]), &vec![]), "Written(0)"));
    assert!(is(d.remove_file(&path(&["a", "empty"])), "Done"));
    assert!(is(d.remove_file(&path(&["a", "empty"])), "Missing"));
    assert!(is(d.remove_file(&path(&["a", "b"])), "Failed"));
}

#[test]
fn making_sure_of_a_directory_makes_what_is_missing() {
    let mut d = tree();
    assert!(is(d.ensure_dir(&path(&["a", "b"])), "Done"));
    assert_eq!(d.entries.len(), 5);
    assert!(is(d.ensure_dir(&path(&["a", "x", "y"])), "Done"));
    assert_eq!(paths(&d), ["a", "a/b", "a/f.txt", "a/b/g.txt", "z", "a/x", "a/x/y"]);
    assert!(is(d.ensure_dir(&path(&["a", "f.txt", "sub"])), "Failed"));
    assert!(is(d.ensure_dir(&path(&["a", "f.txt"])), "Failed"));
    assert_eq!(d.entries.len(), 7);
}
