use lempek_assets::models::{ErrorKind, Permission, Status, UserData};
use lempek_assets::perms::{check_permission, has_capability, PermissionKind};

fn user(id: u128, admin: bool) -> UserData {
    UserData { user_id: id, login: format!("u{id}"), username: format!("User {id}"), admin }
}

fn row(id: u128, user_id: u128, folder_id: Option<u128>, read: bool, modify: bool, edit: bool) -> Permission {
    Permission { id, folder_id, user_id, read, modify, edit }
}

#[test]
fn capability_names() {
    assert_eq!(PermissionKind::Read.as_str(), "read");
    assert_eq!(PermissionKind::Modify.as_str(), "modify");
    assert_eq!(PermissionKind::Edit.as_str(), "edit");
}

#[test]
fn administrator_passes_without_any_row() {
    let rows = vec![];
    for kind in [PermissionKind::Read, PermissionKind::Modify, PermissionKind::Edit] {
        assert!(check_permission(&rows, &user(1, true), Some(7), kind).is_ok());
        assert!(check_permission(&rows, &user(1, true), None, kind).is_ok());
    }
    // even a row that denies everything does not hold an administrator back
    let deny = vec![row(1, 1, Some(7), false, false, false)];
    assert!(check_permission(&deny, &user(1, true), Some(7), PermissionKind::Edit).is_ok());
}

#[test]
fn missing_row_grants_nothing() {
    let rows = vec![row(1, 2, Some(7), true, true, true)];
    for kind in [PermissionKind::Read, PermissionKind::Modify, PermissionKind::Edit] {
        let err = check_permission(&rows, &user(3, false), Some(7), kind).unwrap_err();
        assert_eq!(err.kind, ErrorKind::Forbidden);
        assert_eq!(err.kind.status(), Status::Forbidden);
        assert_eq!(err.message, format!("no permissions to {}", kind.as_str()));
        assert!(err.orphan.is_none());
    }
}

#[test]
fn each_capability_is_its_own_bit() {
    let rows = vec![
        row(1, 5, Some(1), true, false, false),
        row(2, 5, Some(2), false, true, false),
        row(3, 5, Some(3), false, false, true),
    ];
    let u = user(5, false);
    let expect = [
        (1, [true, false, false]),
        (2, [false, true, false]),
        (3, [false, false, true]),
    ];
    for (folder, bits) in expect {
        let kinds = [PermissionKind::Read, PermissionKind::Modify, PermissionKind::Edit];
        for (kind, allowed) in kinds.iter().zip(bits) {
            assert_eq!(check_permission(&rows, &u, Some(folder), *kind).is_ok(), allowed);
            assert_eq!(has_capability(&rows, 5, Some(folder), *kind), allowed);
        }
    }
}

#[test]
fn a_grant_on_the_parent_does_not_reach_the_child() {
    // folder 2 lies below folder 1; the user holds everything on 1 and nothing on 2
    let rows = vec![row(1, 5, Some(1), true, true, true)];
    let u = user(5, false);
    assert!(check_permission(&rows, &u, Some(1), PermissionKind::Read).is_ok());
    assert!(check_permission(&rows, &u, Some(2), PermissionKind::Read).is_err());
    // nor does a grant at the root
    let root = vec![row(1, 5, None, true, true, true)];
    assert!(check_permission(&root, &u, None, PermissionKind::Edit).is_ok());
    assert!(check_permission(&root, &u, Some(1), PermissionKind::Edit).is_err());
}

#[test]
fn root_is_addressed_by_no_folder() {
    let rows = vec![row(1, 5, Some(1), true, true, true), row(2, 5, None, true, false, false)];
    let u = user(5, false);
    assert!(check_permission(&rows, &u, None, PermissionKind::Read).is_ok());
    assert!(check_permission(&rows, &u, None, PermissionKind::Modify).is_err());
}

#[test]
fn the_first_row_for_user_and_folder_decides() {
    let rows = vec![
        row(1, 9, Some(4), true, true, true),
        row(2, 5, Some(4), false, false, false),
        row(3, 5, Some(4), true, true, true),
    ];
    assert!(!has_capability(&rows, 5, Some(4), PermissionKind::Read));
    assert!(has_capability(&rows, 9, Some(4), PermissionKind::Read));
}
