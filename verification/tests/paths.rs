use lempek_assets::models::Folder;
use lempek_assets::paths::{
    find_folder, get_ancestry, get_folder_path, join_path, remove_last_path, ResolveError,
};

fn folder(id: u128, parent_id: Option<u128>, name: &str) -> Folder {
    Folder { id, parent_id, owner_id: 1, name: name.to_string(), created_at: 0, updated_at: 0 }
}

fn names(path: &[&str]) -> Vec<String> {
    path.iter().map(|s| s.to_string()).collect()
}

#[test]
fn root_resolves_to_the_empty_path() {
    let rows = vec![folder(1, None, "a")];
    assert_eq!(get_folder_path(&rows, None), Ok(vec![]));
    assert_eq!(get_folder_path(&vec![], None), Ok(vec![]));
}

#[test]
fn names_come_from_the_root_down() {
    let rows = vec![
        folder(3, Some(2), "c"),
        folder(1, None, "a"),
        folder(2, Some(1), "b"),
        folder(4, None, "other"),
    ];
    assert_eq!(get_folder_path(&rows, Some(1)), Ok(names(&["a"])));
    assert_eq!(get_folder_path(&rows, Some(2)), Ok(names(&["a", "b"])));
    assert_eq!(get_folder_path(&rows, Some(3)), Ok(names(&["a", "b", "c"])));
    assert_eq!(get_folder_path(&rows, Some(4)), Ok(names(&["other"])));
    let steps = get_ancestry(&rows, Some(3)).unwrap();
    let ids: Vec<u128> = steps.iter().map(|s| s.id).collect();
    assert_eq!(ids, vec![1, 2, 3]);
    assert_eq!(steps[2].name, "c");
}

#[test]
fn unknown_identifier_is_not_found() {
    let rows = vec![folder(1, None, "a")];
    assert_eq!(get_folder_path(&rows, Some(9)), Err(ResolveError::NotFound));
    assert_eq!(get_folder_path(&vec![], Some(1)), Err(ResolveError::NotFound));
    assert_eq!(find_folder(&rows, 9), None);
    assert_eq!(find_folder(&rows, 1), Some(0));
}

#[test]
fn parent_without_row_is_dangling() {
    let rows = vec![folder(2, Some(1), "b")];
    assert_eq!(get_folder_path(&rows, Some(2)), Err(ResolveError::Dangling));
}

#[test]
fn cycles_end_the_walk() {
    let own_parent = vec![folder(1, Some(1), "a")];
    assert_eq!(get_folder_path(&own_parent, Some(1)), Err(ResolveError::Cycle));
    let ring = vec![folder(1, Some(3), "a"), folder(2, Some(1), "b"), folder(3, Some(2), "c")];
    for id in 1..=3 {
        assert_eq!(get_folder_path(&ring, Some(id)), Err(ResolveError::Cycle));
    }
}

#[test]
fn a_chain_as_long_as_the_table_still_resolves() {
    let mut rows = Vec::new();
    for i in 0..50u128 {
        rows.push(folder(i + 1, if i == 0 { None } else { Some(i) }, &format!("n{i}")));
    }
    let path = get_folder_path(&rows, Some(50)).unwrap();
    assert_eq!(path.len(), 50);
    assert_eq!(path[0], "n0");
    assert_eq!(path[49], "n49");
}

#[test]
fn paths_are_written_with_slashes() {
    assert_eq!(join_path(&vec![]), "");
    assert_eq!(join_path(&names(&["a"])), "a");
    assert_eq!(join_path(&names(&["a", "b", "c"])), "a/b/c");
    assert_eq!(join_path(&names(&["docs", "2024", "report.pdf"])), "docs/2024/report.pdf");
}

#[test]
fn removing_the_last_name_gives_the_directory_above() {
    assert_eq!(remove_last_path("a/b/c"), "a/b");
    assert_eq!(remove_last_path("a/b"), "a");
    assert_eq!(remove_last_path("a"), "");
    assert_eq!(remove_last_path(""), "");
    assert_eq!(remove_last_path("a/"), "a");
    assert_eq!(remove_last_path("/a"), "");
    assert_eq!(remove_last_path("é/ü/ö"), "é/ü");
    for path in [names(&["a"]), names(&["a", "b"]), names(&["x", "y", "z", "w"])] {
        let mut above = path.clone();
        above.pop();
        assert_eq!(remove_last_path(&join_path(&path)), join_path(&above));
    }
}
