//! The permission gate: may this principal do that in this folder?
//!
//! Capabilities are looked up, never inferred: a grant on a folder says
//! nothing about its children. Administrators pass without a lookup.
use crate::models::{failure, ErrorKind, Failure, Permission, UserData};
use vstd::prelude::*;

verus! {

/// The three capabilities a user can hold in a folder.
#[derive(Debug, Clone, Copy, PartialEq, Eq, Structural)]
pub enum PermissionKind {
    Read,
    Modify,
    Edit,
}

impl PermissionKind {
    /// The capability's name, as it appears in messages and column names.
    pub open spec fn name(self) -> Seq<char> {
        match self {
            PermissionKind::Read => "read"@,
            PermissionKind::Modify => "modify"@,
            PermissionKind::Edit => "edit"@,
        }
    }

    /// The capability's name.
    pub fn as_str(&self) -> (res: &'static str)
        ensures
            res@ == self.name(),
    {
        match self {
            PermissionKind::Read => "read",
            PermissionKind::Modify => "modify",
            PermissionKind::Edit => "edit",
        }
    }
}

/// Whether `row` grants `kind`.
pub open spec fn grants(row: Permission, kind: PermissionKind) -> bool {
    match kind {
        PermissionKind::Read => row.read,
        PermissionKind::Modify => row.modify,
        PermissionKind::Edit => row.edit,
    }
}

/// Whether `row` is the row of `user_id` for `folder_id`. No folder stands
/// for the root, and matches only rows without a folder.
pub open spec fn is_row_for(row: Permission, user_id: u128, folder_id: Option<u128>) -> bool {
    row.user_id == user_id && row.folder_id == folder_id
}

/// `i` is the place of the first row of `user_id` for `folder_id`.
pub open spec fn first_row_at(
    rows: Seq<Permission>,
    user_id: u128,
    folder_id: Option<u128>,
    i: int,
) -> bool {
    &&& 0 <= i < rows.len()
    &&& is_row_for(rows[i], user_id, folder_id)
    &&& forall|j: int| 0 <= j < i ==> !is_row_for(#[trigger] rows[j], user_id, folder_id)
}

/// Whether the rows grant `kind` to `user_id` in `folder_id`: the first row
/// keyed by that user and folder decides, and a missing row grants nothing.
pub open spec fn row_grants(
    rows: Seq<Permission>,
    user_id: u128,
    folder_id: Option<u128>,
    kind: PermissionKind,
) -> bool {
    exists|i: int| first_row_at(rows, user_id, folder_id, i) && grants(rows[i], kind)
}

/// The permission gate's answer: administrators always pass; everyone else needs the
/// capability in their own row for exactly this folder.
pub open spec fn permitted(
    rows: Seq<Permission>,
    user_id: u128,
    admin: bool,
    folder_id: Option<u128>,
    kind: PermissionKind,
) -> bool {
    admin || row_grants(rows, user_id, folder_id, kind)
}

/// What the permission gate says when it refuses.
pub open spec fn forbidden(kind: PermissionKind) -> crate::models::FailureView {
    failure(ErrorKind::Forbidden, "no permissions to "@ + kind.name())
}

/// Whether `row` grants `kind`.
pub fn row_allows(row: &Permission, kind: PermissionKind) -> (res: bool)
    ensures
        res == grants(*row, kind),
{
    match kind {
        PermissionKind::Read => row.read,
        PermissionKind::Modify => row.modify,
        PermissionKind::Edit => row.edit,
    }
}

/// Whether the rows grant `kind` to `user_id` in `folder_id`.
pub fn has_capability(
    rows: &Vec<Permission>,
    user_id: u128,
    folder_id: Option<u128>,
    kind: PermissionKind,
) -> (res: bool)
    ensures
        res == row_grants(rows@, user_id, folder_id, kind),
{
    let mut i: usize = 0;
    while i < rows.len()
        invariant
            i <= rows.len(),
            forall|j: int| 0 <= j < i ==> !is_row_for(#[trigger] rows@[j], user_id, folder_id),
        decreases rows.len() - i,
    {
        let row = &rows[i];
        if row.user_id == user_id && row.folder_id == folder_id {
            let res = row_allows(row, kind);
            proof {
                assert(first_row_at(rows@, user_id, folder_id, i as int));
                assert forall|k: int| first_row_at(rows@, user_id, folder_id, k) implies k == i by {
                    if k < i {
                        assert(!is_row_for(rows@[k], user_id, folder_id));
                    }
                    if k > i {
                        assert(!is_row_for(rows@[i as int], user_id, folder_id));
                    }
                }
            }
            return res;
        }
        i += 1;
    }
    false
}

/// The permission gate.
///
/// `rows` are the permission rows that the caller's transaction sees; rows
/// of other users and folders are ignored. An administrator passes
/// whatever the rows say. Anyone else passes if and only if the first row
/// keyed by their identifier and by `folder_id` grants `permission`; with no
/// such row nothing is granted. No folder stands for the root. A grant on an
/// ancestor of the folder does not count.
pub fn check_permission(
    rows: &Vec<Permission>,
    user: &UserData,
    folder_id: Option<u128>,
    permission: PermissionKind,
) -> (res: Result<(), Failure>)
    ensures
        res is Ok <==> permitted(rows@, user.user_id, user.admin, folder_id, permission),
        res is Err ==> res->Err_0.deep_view() == forbidden(permission),
{
    if user.admin {
        return Ok(());
    }
    if has_capability(rows, user.user_id, folder_id, permission) {
        Ok(())
    } else {
        let message = String::from_str("no permissions to ").concat(permission.as_str());
        Err(Failure { kind: ErrorKind::Forbidden, message, orphan: None })
    }
}

/// A grant on one folder says nothing about another: rows keyed by other
/// folders, its ancestors included, never let a user who is no
/// administrator pass the permission gate.
pub proof fn lemma_no_inheritance(
    rows: Seq<Permission>,
    user_id: u128,
    folder_id: Option<u128>,
    kind: PermissionKind,
)
    requires
        forall|i: int| 0 <= i < rows.len() ==> (#[trigger] rows[i]).folder_id != folder_id,
    ensures
        !permitted(rows, user_id, false, folder_id, kind),
{
}

/// An administrator passes the permission gate whatever the rows hold.
pub proof fn lemma_admin_bypass(
    rows: Seq<Permission>,
    user_id: u128,
    folder_id: Option<u128>,
    kind: PermissionKind,
)
    ensures
        permitted(rows, user_id, true, folder_id, kind),
{
}

} // verus!
