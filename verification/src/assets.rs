//! The tree mutator: the step functions of the store's mutations.
//!
//! Every mutation follows one shape. It opens a transaction, passes the
//! permission gate, changes rows, makes exactly one change on disk and
//! commits. The order is fixed so that a failure on either side can be
//! answered: rows that were changed are rolled back, and what was put on
//! disk is taken away again. Where that is no longer possible the mutation
//! ends in a partial failure that names the path left behind.
//!
//! Each function here is one step of one mutation: from where the mutation
//! stands and from the answer to its last request it computes where the
//! mutation stands next and what it asks for.
use crate::models::{
    failure, partial_failure, ErrorKind, Failure, FailureView, Status, StorePath, UserData,
};
use crate::names::{check_name, name_verdict, InvalidName};
use crate::paths::{folder_path, get_folder_path, ResolveError};
use crate::perms::{forbidden, has_capability, row_grants, PermissionKind};
use crate::saga::{
    abort, closing_step, compensate, database_fault, fail, proceed, succeed, Action, ActionView,
    Event, EventView, Saga, SagaView, Stage, UPLOAD_MODE,
};
use vstd::prelude::*;

verus! {

/// The request to create a folder.
#[derive(Debug)]
pub struct NewFolderData {
    pub name: String,
    pub parent: Option<u128>,
}

/// The request to delete a folder.
#[derive(Debug, Clone, Copy)]
pub struct RemoveFolderData {
    pub id: u128,
}

/// The request to rename a folder.
#[derive(Debug)]
pub struct EditFolderData {
    pub id: u128,
    pub name: String,
}

/// The request to store a file. `file_name` is the name that came with the
/// content; `name`, where given, takes its place.
#[derive(Debug)]
pub struct UploadFile {
    pub file_name: String,
    pub folder: Option<u128>,
    pub name: Option<String>,
    pub overwrite: Option<bool>,
}

/// The request to delete a file.
#[derive(Debug, Clone, Copy)]
pub struct RemoveFile {
    pub id: u128,
}

/// The request to rename a file.
#[derive(Debug)]
pub struct EditFile {
    pub id: u128,
    pub name: String,
}

/// The failure for a name that the validator rejected.
pub open spec fn invalid_name(e: InvalidName) -> FailureView {
    failure(ErrorKind::InvalidName, e.text())
}

/// The failure for a name that the validator rejected.
pub fn name_failure(e: InvalidName) -> (res: Failure)
    ensures
        res.deep_view() == invalid_name(e),
{
    Failure { kind: ErrorKind::InvalidName, message: e.message(), orphan: None }
}

/// The step after the transaction has opened: an administrator goes
/// straight on, anyone else has their permission rows looked up.
pub open spec fn after_opening(
    s: SagaView,
    user_id: u128,
    admin: bool,
    folder_id: Option<u128>,
    e: EventView,
    onward: (SagaView, ActionView),
) -> (SagaView, ActionView) {
    if !(e is Done) {
        fail(s, database_fault())
    } else if admin {
        onward
    } else {
        proceed(s, Stage::Gating, ActionView::LookupPermission { user_id, folder_id })
    }
}

/// The step after the permission rows have come: the permission gate lets the saga go
/// on or makes it give up.
pub open spec fn after_gating(
    s: SagaView,
    user_id: u128,
    folder_id: Option<u128>,
    kind: PermissionKind,
    e: EventView,
    onward: (SagaView, ActionView),
) -> (SagaView, ActionView) {
    match e {
        EventView::Permissions(rows) => {
            if row_grants(rows, user_id, folder_id, kind) {
                onward
            } else {
                abort(s, forbidden(kind))
            }
        },
        _ => abort(s, database_fault()),
    }
}

/// Whether the answer is the permission rows, and they grant `kind`.
pub open spec fn gate_opens(
    user_id: u128,
    folder_id: Option<u128>,
    kind: PermissionKind,
    e: EventView,
) -> bool {
    e is Permissions && row_grants(e->Permissions_0, user_id, folder_id, kind)
}

/// What the permission gate answers to an event that does not let the saga go on.
pub fn gate_refusal(saga: Saga, kind: PermissionKind, event: &Event) -> (res: (Saga, Action))
    ensures
        res.deep_view() == (match event.deep_view() {
            EventView::Permissions(_) => abort(saga.deep_view(), forbidden(kind)),
            _ => abort(saga.deep_view(), database_fault()),
        }),
{
    match event {
        Event::Permissions(_) => {
            let message = String::from_str("no permissions to ").concat(kind.as_str());
            saga.abort(Failure { kind: ErrorKind::Forbidden, message, orphan: None })
        },
        _ => saga.abort_database(),
    }
}

/// Whether the answer lets the saga pass the permission gate.
pub fn gate_passes(
    user: &UserData,
    folder_id: Option<u128>,
    kind: PermissionKind,
    event: &Event,
) -> (res:
    bool)
    ensures
        res == gate_opens(user.user_id, folder_id, kind, event.deep_view()),
{
    match event {
        Event::Permissions(rows) => has_capability(rows, user.user_id, folder_id, kind),
        _ => false,
    }
}

/// The message that tells which folder was created.
pub open spec fn created_folder_message(name: Seq<char>) -> Seq<char> {
    "created folder named: \""@ + name + "\""@
}

/// One step of creating a folder.
///
/// The stages, in order: the transaction opens; the permission gate asks for `Edit`
/// on the parent; the name is validated; the row is inserted, where a
/// taken name ends the saga in a conflict with nothing on disk touched;
/// the creator is granted everything in the new folder; the new folder's
/// path is resolved; the directory is made; the transaction commits. If
/// the directory cannot be made, whatever was made of it is removed and
/// the rows are rolled back. If the commit fails, the directory is
/// removed; if that fails too, the saga ends in a partial failure that
/// names the directory.
pub open spec fn create_folder_step(
    name: Seq<char>,
    parent: Option<u128>,
    user_id: u128,
    admin: bool,
    s: SagaView,
    e: EventView,
) -> (SagaView, ActionView) {
    let insert = match name_verdict(name) {
        Err(bad) => abort(s, invalid_name(bad)),
        Ok(_) => proceed(
            s,
            Stage::Inserting,
            ActionView::InsertFolder { name, parent_id: parent, owner_id: user_id },
        ),
    };
    match s.stage {
        Stage::Start => proceed(s, Stage::Opening, ActionView::Begin),
        Stage::Opening => after_opening(s, user_id, admin, parent, e, insert),
        Stage::Gating => after_gating(s, user_id, parent, PermissionKind::Edit, e, insert),
        Stage::Inserting => match e {
            EventView::Inserted(id) => proceed(
                SagaView { id, ..s },
                Stage::Granting,
                ActionView::Grant { user_id, folder_id: id },
            ),
            EventView::Duplicate => abort(
                s,
                failure(ErrorKind::Conflict, "folder with this name already exists"@),
            ),
            _ => abort(s, database_fault()),
        },
        Stage::Granting => match e {
            EventView::Done => proceed(
                s,
                Stage::Resolving,
                ActionView::LoadFolders { id: Some(s.id) },
            ),
            _ => abort(s, database_fault()),
        },
        Stage::Resolving => match e {
            EventView::Folders(rows) => match folder_path(rows, Some(s.id)) {
                Ok(path) => proceed(
                    SagaView { path, ..s },
                    Stage::MakingDir,
                    ActionView::MakeDir { path },
                ),
                Err(_) => abort(s, database_fault()),
            },
            _ => abort(s, database_fault()),
        },
        Stage::MakingDir => match e {
            EventView::Done => proceed(s, Stage::Committing, ActionView::Commit),
            _ => compensate(
                s,
                Stage::Scrubbing,
                failure(ErrorKind::StorageFault, "error while creating folder"@),
                ActionView::RemoveDir { path: s.path },
            ),
        },
        Stage::Scrubbing => match e {
            EventView::Done | EventView::Missing => abort(s, crate::saga::kept_verdict(s)),
            _ => abort(s, partial_failure("error while removing created folder"@, s.path)),
        },
        Stage::Committing => match e {
            EventView::Done => succeed(s, Status::Created, created_folder_message(name)),
            _ => compensate(
                s,
                Stage::Undoing,
                database_fault(),
                ActionView::RemoveDir { path: s.path },
            ),
        },
        Stage::Undoing => match e {
            EventView::Done | EventView::Missing => fail(s, crate::saga::kept_verdict(s)),
            _ => fail(s, partial_failure("error while removing created folder"@, s.path)),
        },
        _ => closing_step(s),
    }
}

/// The failure that the saga kept, or a fault of the database.
pub fn kept_failure(saga: &Saga) -> (res: Failure)
    ensures
        res.deep_view() == crate::saga::kept_verdict(saga.deep_view()),
{
    match &saga.verdict {
        Some(f) => f.clone(),
        None => Failure::new(ErrorKind::DatabaseFault, "database error"),
    }
}

/// One step of creating a folder: from where the saga stands and the answer
/// to its last request, to where it stands next and what it asks for.
pub fn create_folder(data: &NewFolderData, auth: &UserData, saga: Saga, event: Event) -> (res: (
    Saga,
    Action,
))
    ensures
        res.deep_view() == create_folder_step(
            data.name@,
            data.parent,
            auth.user_id,
            auth.admin,
            saga.deep_view(),
            event.deep_view(),
        ),
{
    match saga.stage {
        Stage::Start => saga.proceed(Stage::Opening, Action::Begin),
        Stage::Opening => {
            match event {
                Event::Done => {
                    if auth.admin {
                        create_folder_insert(data, auth, saga)
                    } else {
                        saga.proceed(
                            Stage::Gating,
                            Action::LookupPermission {
                                user_id: auth.user_id,
                                folder_id: data.parent,
                            },
                        )
                    }
                },
                _ => saga.fail_database(),
            }
        },
        Stage::Gating => {
            if gate_passes(auth, data.parent, PermissionKind::Edit, &event) {
                create_folder_insert(data, auth, saga)
            } else {
                gate_refusal(saga, PermissionKind::Edit, &event)
            }
        },
        Stage::Inserting => {
            match event {
                Event::Inserted(id) => {
                    let next = Saga { id, ..saga };
                    next.proceed(
                        Stage::Granting,
                        Action::Grant { user_id: auth.user_id, folder_id: id },
                    )
                },
                Event::Duplicate => saga.abort(
                    Failure::new(ErrorKind::Conflict, "folder with this name already exists"),
                ),
                _ => saga.abort_database(),
            }
        },
        Stage::Granting => {
            match event {
                Event::Done => {
                    let id = saga.id;
                    saga.proceed(Stage::Resolving, Action::LoadFolders { id: Some(id) })
                },
                _ => saga.abort_database(),
            }
        },
        Stage::Resolving => {
            match event {
                Event::Folders(rows) => {
                    match get_folder_path(&rows, Some(saga.id)) {
                        Ok(path) => {
                            let target = crate::models::clone_path(&path);
                            let next = Saga { path, ..saga };
                            next.proceed(Stage::MakingDir, Action::MakeDir { path: target })
                        },
                        Err(_) => saga.abort_database(),
                    }
                },
                _ => saga.abort_database(),
            }
        },
        Stage::MakingDir => {
            match event {
                Event::Done => saga.proceed(Stage::Committing, Action::Commit),
                _ => {
                    let path = crate::models::clone_path(&saga.path);
                    saga.compensate(
                        Stage::Scrubbing,
                        Failure::new(ErrorKind::StorageFault, "error while creating folder"),
                        Action::RemoveDir { path },
                    )
                },
            }
        },
        Stage::Scrubbing => {
            match event {
                Event::Done | Event::Missing => {
                    let f = kept_failure(&saga);
                    saga.abort(f)
                },
                _ => {
                    let path = crate::models::clone_path(&saga.path);
                    saga.abort(Failure::partial("error while removing created folder", path))
                },
            }
        },
        Stage::Committing => {
            match event {
                Event::Done => {
                    let message = String::from_str("created folder named: \"").concat(
                        data.name.as_str(),
                    ).concat("\"");
                    saga.succeed(Status::Created, message)
                },
                _ => {
                    let path = crate::models::clone_path(&saga.path);
                    saga.compensate(
                        Stage::Undoing,
                        Failure::new(ErrorKind::DatabaseFault, "database error"),
                        Action::RemoveDir { path },
                    )
                },
            }
        },
        Stage::Undoing => {
            match event {
                Event::Done | Event::Missing => {
                    let f = kept_failure(&saga);
                    saga.fail(f)
                },
                _ => {
                    let path = crate::models::clone_path(&saga.path);
                    saga.fail(Failure::partial("error while removing created folder", path))
                },
            }
        },
        _ => saga.closing_step(),
    }
}

/// The step that follows the permission gate when a folder is created: the name is
/// validated and the row is asked for.
fn create_folder_insert(data: &NewFolderData, auth: &UserData, saga: Saga) -> (res: (Saga, Action))
    ensures
        res.deep_view() == (match name_verdict(data.name@) {
            Err(bad) => abort(saga.deep_view(), invalid_name(bad)),
            Ok(_) => proceed(
                saga.deep_view(),
                Stage::Inserting,
                ActionView::InsertFolder {
                    name: data.name@,
                    parent_id: data.parent,
                    owner_id: auth.user_id,
                },
            ),
        }),
{
    match check_name(data.name.as_str()) {
        Err(bad) => saga.abort(name_failure(bad)),
        Ok(_) => saga.proceed(
            Stage::Inserting,
            Action::InsertFolder {
                name: data.name.clone(),
                parent_id: data.parent,
                owner_id: auth.user_id,
            },
        ),
    }
}

/// The failure for a missing target.
pub open spec fn not_found(message: Seq<char>) -> FailureView {
    failure(ErrorKind::NotFound, message)
}

/// One step of deleting a folder.
///
/// The stages, in order: the transaction opens; the permission gate asks for `Modify`
/// on the folder; the folder's path is resolved, where a folder without a
/// row ends the saga as not found; the row is deleted, and with it all that
/// hangs below; the transaction commits; the directory is removed with all
/// that is in it. The rows go first and for good: if the directory cannot be
/// removed after the commit, the saga ends in a partial failure that names
/// the directory. A failed commit leaves the disk as it was.
pub open spec fn delete_folder_step(
    id: u128,
    user_id: u128,
    admin: bool,
    s: SagaView,
    e: EventView,
) -> (SagaView, ActionView) {
    let resolve = proceed(s, Stage::Resolving, ActionView::LoadFolders { id: Some(id) });
    match s.stage {
        Stage::Start => proceed(s, Stage::Opening, ActionView::Begin),
        Stage::Opening => after_opening(s, user_id, admin, Some(id), e, resolve),
        Stage::Gating => after_gating(s, user_id, Some(id), PermissionKind::Modify, e, resolve),
        Stage::Resolving => match e {
            EventView::Folders(rows) => match folder_path(rows, Some(id)) {
                Ok(path) => proceed(
                    SagaView { path, ..s },
                    Stage::Deleting,
                    ActionView::DeleteFolder { id },
                ),
                Err(ResolveError::NotFound) => abort(s, not_found("folder not found"@)),
                Err(_) => abort(s, database_fault()),
            },
            _ => abort(s, database_fault()),
        },
        Stage::Deleting => match e {
            EventView::Affected(n) => if n == 0 {
                abort(s, not_found("folder not found"@))
            } else {
                proceed(s, Stage::Committing, ActionView::Commit)
            },
            _ => abort(s, database_fault()),
        },
        Stage::Committing => match e {
            EventView::Done => proceed(
                s,
                Stage::Removing,
                ActionView::RemoveDirAll { path: s.path },
            ),
            _ => fail(s, database_fault()),
        },
        Stage::Removing => match e {
            EventView::Done | EventView::Missing => succeed(
                s,
                Status::NoContent,
                "deleted folder"@,
            ),
            _ => fail(s, partial_failure("error while deleting folder"@, s.path)),
        },
        _ => closing_step(s),
    }
}

/// The step after the transaction has opened.
fn open_gate(saga: Saga, auth: &UserData, folder_id: Option<u128>, event: &Event) -> (res: Result<
    Saga,
    (Saga, Action),
>)
    ensures
        match res {
            Ok(next) => event.deep_view() is Done && auth.admin && next.deep_view()
                == saga.deep_view(),
            Err(out) => !(event.deep_view() is Done && auth.admin) && out.deep_view() == (if !(
            event.deep_view() is Done) {
                fail(saga.deep_view(), database_fault())
            } else {
                proceed(
                    saga.deep_view(),
                    Stage::Gating,
                    ActionView::LookupPermission { user_id: auth.user_id, folder_id },
                )
            }),
        },
{
    match event {
        Event::Done => {
            if auth.admin {
                Ok(saga)
            } else {
                Err(
                    saga.proceed(
                        Stage::Gating,
                        Action::LookupPermission { user_id: auth.user_id, folder_id },
                    ),
                )
            }
        },
        _ => Err(saga.fail_database()),
    }
}

/// One step of deleting a folder: from where the saga stands and the answer
/// to its last request, to where it stands next and what it asks for.
pub fn delete_folder(data: &RemoveFolderData, auth: &UserData, saga: Saga, event: Event) -> (res: (
    Saga,
    Action,
))
    ensures
        res.deep_view() == delete_folder_step(
            data.id,
            auth.user_id,
            auth.admin,
            saga.deep_view(),
            event.deep_view(),
        ),
{
    let id = data.id;
    match saga.stage {
        Stage::Start => saga.proceed(Stage::Opening, Action::Begin),
        Stage::Opening => {
            match open_gate(saga, auth, Some(id), &event) {
                Ok(saga) => saga.proceed(Stage::Resolving, Action::LoadFolders { id: Some(id) }),
                Err(out) => out,
            }
        },
        Stage::Gating => {
            if gate_passes(auth, Some(id), PermissionKind::Modify, &event) {
                saga.proceed(Stage::Resolving, Action::LoadFolders { id: Some(id) })
            } else {
                gate_refusal(saga, PermissionKind::Modify, &event)
            }
        },
        Stage::Resolving => {
            match event {
                Event::Folders(rows) => {
                    match get_folder_path(&rows, Some(id)) {
                        Ok(path) => {
                            let next = Saga { path, ..saga };
                            next.proceed(Stage::Deleting, Action::DeleteFolder { id })
                        },
                        Err(ResolveError::NotFound) => saga.abort(
                            Failure::new(ErrorKind::NotFound, "folder not found"),
                        ),
                        Err(_) => saga.abort_database(),
                    }
                },
                _ => saga.abort_database(),
            }
        },
        Stage::Deleting => {
            match event {
                Event::Affected(n) => {
                    if n == 0 {
                        saga.abort(Failure::new(ErrorKind::NotFound, "folder not found"))
                    } else {
                        saga.proceed(Stage::Committing, Action::Commit)
                    }
                },
                _ => saga.abort_database(),
            }
        },
        Stage::Committing => {
            match event {
                Event::Done => {
                    let path = crate::models::clone_path(&saga.path);
                    saga.proceed(Stage::Removing, Action::RemoveDirAll { path })
                },
                _ => saga.fail_database(),
            }
        },
        Stage::Removing => {
            match event {
                Event::Done | Event::Missing => saga.succeed(
                    Status::NoContent,
                    String::from_str("deleted folder"),
                ),
                _ => {
                    let path = crate::models::clone_path(&saga.path);
                    saga.fail(Failure::partial("error while deleting folder", path))
                },
            }
        },
        _ => saga.closing_step(),
    }
}

/// The path of the sibling called `name`: `path` with its last name
/// replaced.
pub open spec fn sibling_path(path: Seq<Seq<char>>, name: Seq<char>) -> Seq<Seq<char>> {
    path.drop_last().push(name)
}

/// The path of the sibling called `name`.
pub fn sibling(path: &StorePath, name: &String) -> (res: StorePath)
    requires
        path.len() > 0,
    ensures
        res.deep_view() == sibling_path(path.deep_view(), name@),
{
    let mut out = crate::models::clone_path(path);
    out.pop();
    out.push(name.clone());
    assert(out.deep_view() =~= sibling_path(path.deep_view(), name@));
    out
}

/// The path of the entry called `name` in directory `dir`.
pub fn child(dir: &StorePath, name: &String) -> (res: StorePath)
    ensures
        res.deep_view() == dir.deep_view().push(name@),
{
    let mut out = crate::models::clone_path(dir);
    out.push(name.clone());
    assert(out.deep_view() =~= dir.deep_view().push(name@));
    out
}

/// One step of renaming a folder.
///
/// The stages, in order: the transaction opens; the permission gate asks for `Modify`
/// on the folder; the new name is validated; the folder's present path is
/// resolved, where a folder without a row ends the saga as not found; the
/// row is renamed, where a taken name ends the saga in a conflict; the
/// directory is moved to the same place under the new name; the
/// transaction commits. If the move fails the rows are rolled back, so the
/// name is what it was. If the commit fails the directory is moved back; if
/// that fails too, the saga ends in a partial failure that names where the
/// directory is now.
pub open spec fn edit_folder_step(
    id: u128,
    name: Seq<char>,
    user_id: u128,
    admin: bool,
    s: SagaView,
    e: EventView,
) -> (SagaView, ActionView) {
    let resolve = match name_verdict(name) {
        Err(bad) => abort(s, invalid_name(bad)),
        Ok(_) => proceed(s, Stage::Resolving, ActionView::LoadFolders { id: Some(id) }),
    };
    match s.stage {
        Stage::Start => proceed(s, Stage::Opening, ActionView::Begin),
        Stage::Opening => after_opening(s, user_id, admin, Some(id), e, resolve),
        Stage::Gating => after_gating(s, user_id, Some(id), PermissionKind::Modify, e, resolve),
        Stage::Resolving => match e {
            EventView::Folders(rows) => match folder_path(rows, Some(id)) {
                Ok(path) => if path.len() == 0 {
                    abort(s, database_fault())
                } else {
                    proceed(
                        SagaView { path, dest: sibling_path(path, name), ..s },
                        Stage::Renaming,
                        ActionView::RenameFolder { id, name },
                    )
                },
                Err(ResolveError::NotFound) => abort(s, not_found("folder not found"@)),
                Err(_) => abort(s, database_fault()),
            },
            _ => abort(s, database_fault()),
        },
        Stage::Renaming | Stage::Moving | Stage::Committing | Stage::Undoing => rename_tail_step(
            s,
            e,
            "folder with this name already exists"@,
            "folder not found"@,
            "error while renaming folder"@,
            "renamed folder"@,
        ),
        _ => closing_step(s),
    }
}

/// The steps that renaming a folder and renaming a file share: from the
/// renamed row to the end.
fn rename_tail(
    saga: Saga,
    event: Event,
    taken: &str,
    missing: &str,
    stuck: &str,
    done: &str,
) -> (res: (Saga, Action))
    requires
        saga.stage == Stage::Renaming || saga.stage == Stage::Moving || saga.stage
            == Stage::Committing || saga.stage == Stage::Undoing,
    ensures
        res.deep_view() == rename_tail_step(
            saga.deep_view(),
            event.deep_view(),
            taken@,
            missing@,
            stuck@,
            done@,
        ),
{
    match saga.stage {
        Stage::Renaming => {
            match event {
                Event::Affected(n) => {
                    if n == 0 {
                        saga.abort(Failure::new(ErrorKind::NotFound, missing))
                    } else {
                        let from = crate::models::clone_path(&saga.path);
                        let to = crate::models::clone_path(&saga.dest);
                        saga.proceed(Stage::Moving, Action::Rename { from, to })
                    }
                },
                Event::Duplicate => saga.abort(Failure::new(ErrorKind::Conflict, taken)),
                _ => saga.abort_database(),
            }
        },
        Stage::Moving => {
            match event {
                Event::Done => saga.proceed(Stage::Committing, Action::Commit),
                _ => saga.abort(Failure::new(ErrorKind::StorageFault, stuck)),
            }
        },
        Stage::Committing => {
            match event {
                Event::Done => saga.succeed(Status::NoContent, String::from_str(done)),
                _ => {
                    let from = crate::models::clone_path(&saga.dest);
                    let to = crate::models::clone_path(&saga.path);
                    saga.compensate(
                        Stage::Undoing,
                        Failure::new(ErrorKind::DatabaseFault, "database error"),
                        Action::Rename { from, to },
                    )
                },
            }
        },
        _ => {
            match event {
                Event::Done => {
                    let f = kept_failure(&saga);
                    saga.fail(f)
                },
                _ => {
                    let path = crate::models::clone_path(&saga.dest);
                    saga.fail(Failure::partial(stuck, path))
                },
            }
        },
    }
}

/// What a rename does from the renamed row to the end, with the messages
/// of the kind of entry that is renamed.
///
/// A row that was not there ends the saga as not found, a taken name in a
/// conflict. Then the entry is moved on disk; if that fails the rows are
/// rolled back. Then the transaction commits; if that fails the entry is
/// moved back, and if that fails too the saga ends in a partial failure
/// that names where the entry is now.
pub open spec fn rename_tail_step(
    s: SagaView,
    e: EventView,
    taken: Seq<char>,
    missing: Seq<char>,
    stuck: Seq<char>,
    done: Seq<char>,
) -> (SagaView, ActionView) {
    match s.stage {
        Stage::Renaming => match e {
            EventView::Affected(n) => if n == 0 {
                abort(s, not_found(missing))
            } else {
                proceed(s, Stage::Moving, ActionView::Rename { from: s.path, to: s.dest })
            },
            EventView::Duplicate => abort(s, failure(ErrorKind::Conflict, taken)),
            _ => abort(s, database_fault()),
        },
        Stage::Moving => match e {
            EventView::Done => proceed(s, Stage::Committing, ActionView::Commit),
            _ => abort(s, failure(ErrorKind::StorageFault, stuck)),
        },
        Stage::Committing => match e {
            EventView::Done => succeed(s, Status::NoContent, done),
            _ => compensate(
                s,
                Stage::Undoing,
                database_fault(),
                ActionView::Rename { from: s.dest, to: s.path },
            ),
        },
        _ => match e {
            EventView::Done => fail(s, crate::saga::kept_verdict(s)),
            _ => fail(s, partial_failure(stuck, s.dest)),
        },
    }
}

/// The step that follows the permission gate when a folder is renamed.
fn edit_folder_resolve(data: &EditFolderData, saga: Saga) -> (res: (Saga, Action))
    ensures
        res.deep_view() == (match name_verdict(data.name@) {
            Err(bad) => abort(saga.deep_view(), invalid_name(bad)),
            Ok(_) => proceed(
                saga.deep_view(),
                Stage::Resolving,
                ActionView::LoadFolders { id: Some(data.id) },
            ),
        }),
{
    match check_name(data.name.as_str()) {
        Err(bad) => saga.abort(name_failure(bad)),
        Ok(_) => saga.proceed(Stage::Resolving, Action::LoadFolders { id: Some(data.id) }),
    }
}

/// One step of renaming a folder: from where the saga stands and the answer
/// to its last request, to where it stands next and what it asks for.
pub fn edit_folder(data: &EditFolderData, auth: &UserData, saga: Saga, event: Event) -> (res: (
    Saga,
    Action,
))
    ensures
        res.deep_view() == edit_folder_step(
            data.id,
            data.name@,
            auth.user_id,
            auth.admin,
            saga.deep_view(),
            event.deep_view(),
        ),
{
    let id = data.id;
    match saga.stage {
        Stage::Start => saga.proceed(Stage::Opening, Action::Begin),
        Stage::Opening => {
            match open_gate(saga, auth, Some(id), &event) {
                Ok(saga) => edit_folder_resolve(data, saga),
                Err(out) => out,
            }
        },
        Stage::Gating => {
            if gate_passes(auth, Some(id), PermissionKind::Modify, &event) {
                edit_folder_resolve(data, saga)
            } else {
                gate_refusal(saga, PermissionKind::Modify, &event)
            }
        },
        Stage::Resolving => {
            match event {
                Event::Folders(rows) => {
                    match get_folder_path(&rows, Some(id)) {
                        Ok(path) => {
                            if path.len() == 0 {
                                saga.abort_database()
                            } else {
                                let dest = sibling(&path, &data.name);
                                let next = Saga { path, dest, ..saga };
                                next.proceed(
                                    Stage::Renaming,
                                    Action::RenameFolder { id, name: data.name.clone() },
                                )
                            }
                        },
                        Err(ResolveError::NotFound) => saga.abort(
                            Failure::new(ErrorKind::NotFound, "folder not found"),
                        ),
                        Err(_) => saga.abort_database(),
                    }
                },
                _ => saga.abort_database(),
            }
        },
        Stage::Renaming | Stage::Moving | Stage::Committing | Stage::Undoing => rename_tail(
            saga,
            event,
            "folder with this name already exists",
            "folder not found",
            "error while renaming folder",
            "renamed folder",
        ),
        _ => saga.closing_step(),
    }
}

/// One step of deleting a file.
///
/// The stages, in order: the transaction opens; the file's row is read,
/// where a file without a row ends the saga as not found; the permission gate asks for
/// `Edit` on the file's folder; the folder's path is resolved; the row is
/// deleted; the transaction commits; the file is removed from the disk. The
/// row goes first and for good: if the file cannot be removed after the
/// commit, the saga ends in a partial failure that names the file. A failed
/// commit leaves the disk as it was.
pub open spec fn delete_file_step(
    id: u128,
    user_id: u128,
    admin: bool,
    s: SagaView,
    e: EventView,
) -> (SagaView, ActionView) {
    match s.stage {
        Stage::Start => proceed(s, Stage::Opening, ActionView::Begin),
        Stage::Opening => match e {
            EventView::Done => proceed(s, Stage::Finding, ActionView::FindFile { id }),
            _ => fail(s, database_fault()),
        },
        Stage::Finding => match e {
            EventView::FileRow(Some(file)) => {
                let found = SagaView { folder_id: file.folder_id, name: file.name, ..s };
                if admin {
                    proceed(
                        found,
                        Stage::Resolving,
                        ActionView::LoadFolders { id: file.folder_id },
                    )
                } else {
                    proceed(
                        found,
                        Stage::Gating,
                        ActionView::LookupPermission { user_id, folder_id: file.folder_id },
                    )
                }
            },
            EventView::FileRow(None) => abort(s, not_found("file not found"@)),
            _ => abort(s, database_fault()),
        },
        Stage::Gating => after_gating(
            s,
            user_id,
            s.folder_id,
            PermissionKind::Edit,
            e,
            proceed(s, Stage::Resolving, ActionView::LoadFolders { id: s.folder_id }),
        ),
        Stage::Resolving => match e {
            EventView::Folders(rows) => match folder_path(rows, s.folder_id) {
                Ok(dir) => proceed(
                    SagaView { path: dir.push(s.name), ..s },
                    Stage::Deleting,
                    ActionView::DeleteFile { id },
                ),
                Err(_) => abort(s, database_fault()),
            },
            _ => abort(s, database_fault()),
        },
        Stage::Deleting => match e {
            EventView::Affected(n) => if n == 0 {
                abort(s, not_found("file not found"@))
            } else {
                proceed(s, Stage::Committing, ActionView::Commit)
            },
            _ => abort(s, database_fault()),
        },
        Stage::Committing => match e {
            EventView::Done => proceed(s, Stage::Removing, ActionView::RemoveFile { path: s.path }),
            _ => fail(s, database_fault()),
        },
        Stage::Removing => match e {
            EventView::Done | EventView::Missing => succeed(s, Status::NoContent, "deleted file"@),
            _ => fail(s, partial_failure("error while deleting file"@, s.path)),
        },
        _ => closing_step(s),
    }
}

/// The step after a file's row has come: the saga remembers where the file
/// is and what it is called.
fn file_found(saga: Saga, event: Event) -> (res: Result<Saga, (Saga, Action)>)
    ensures
        match res {
            Ok(found) => event.deep_view() is FileRow && event.deep_view()->FileRow_0 is Some
                && found.deep_view() == (SagaView {
                folder_id: event.deep_view()->FileRow_0->0.folder_id,
                name: event.deep_view()->FileRow_0->0.name,
                ..saga.deep_view()
            }),
            Err(out) => out.deep_view() == (match event.deep_view() {
                EventView::FileRow(None) => abort(saga.deep_view(), not_found("file not found"@)),
                _ => abort(saga.deep_view(), database_fault()),
            }) && !(event.deep_view() is FileRow && event.deep_view()->FileRow_0 is Some),
        },
{
    match event {
        Event::FileRow(Some(file)) => Ok(
            Saga { folder_id: file.folder_id, name: file.name, ..saga },
        ),
        Event::FileRow(None) => Err(
            saga.abort(Failure::new(ErrorKind::NotFound, "file not found")),
        ),
        _ => Err(saga.abort_database()),
    }
}

/// One step of deleting a file: from where the saga stands and the answer
/// to its last request, to where it stands next and what it asks for.
pub fn delete_file(data: &RemoveFile, auth: &UserData, saga: Saga, event: Event) -> (res: (
    Saga,
    Action,
))
    ensures
        res.deep_view() == delete_file_step(
            data.id,
            auth.user_id,
            auth.admin,
            saga.deep_view(),
            event.deep_view(),
        ),
{
    let id = data.id;
    match saga.stage {
        Stage::Start => saga.proceed(Stage::Opening, Action::Begin),
        Stage::Opening => {
            match event {
                Event::Done => saga.proceed(Stage::Finding, Action::FindFile { id }),
                _ => saga.fail_database(),
            }
        },
        Stage::Finding => {
            match file_found(saga, event) {
                Ok(found) => {
                    let folder_id = found.folder_id;
                    if auth.admin {
                        found.proceed(Stage::Resolving, Action::LoadFolders { id: folder_id })
                    } else {
                        found.proceed(
                            Stage::Gating,
                            Action::LookupPermission { user_id: auth.user_id, folder_id },
                        )
                    }
                },
                Err(out) => out,
            }
        },
        Stage::Gating => {
            let folder_id = saga.folder_id;
            if gate_passes(auth, folder_id, PermissionKind::Edit, &event) {
                saga.proceed(Stage::Resolving, Action::LoadFolders { id: folder_id })
            } else {
                gate_refusal(saga, PermissionKind::Edit, &event)
            }
        },
        Stage::Resolving => {
            match event {
                Event::Folders(rows) => {
                    match get_folder_path(&rows, saga.folder_id) {
                        Ok(dir) => {
                            let path = child(&dir, &saga.name);
                            let next = Saga { path, ..saga };
                            next.proceed(Stage::Deleting, Action::DeleteFile { id })
                        },
                        Err(_) => saga.abort_database(),
                    }
                },
                _ => saga.abort_database(),
            }
        },
        Stage::Deleting => {
            match event {
                Event::Affected(n) => {
                    if n == 0 {
                        saga.abort(Failure::new(ErrorKind::NotFound, "file not found"))
                    } else {
                        saga.proceed(Stage::Committing, Action::Commit)
                    }
                },
                _ => saga.abort_database(),
            }
        },
        Stage::Committing => {
            match event {
                Event::Done => {
                    let path = crate::models::clone_path(&saga.path);
                    saga.proceed(Stage::Removing, Action::RemoveFile { path })
                },
                _ => saga.fail_database(),
            }
        },
        Stage::Removing => {
            match event {
                Event::Done | Event::Missing => saga.succeed(
                    Status::NoContent,
                    String::from_str("deleted file"),
                ),
                _ => {
                    let path = crate::models::clone_path(&saga.path);
                    saga.fail(Failure::partial("error while deleting file", path))
                },
            }
        },
        _ => saga.closing_step(),
    }
}

/// One step of renaming a file.
///
/// The stages, in order: the transaction opens; the file's row is read,
/// where a file without a row ends the saga as not found; the permission gate asks for
/// `Edit` on the file's folder; the new name is validated; the folder's path
/// is resolved; the row is renamed, where a taken name ends the saga in a
/// conflict; the file is moved to the new name in the same directory; the
/// transaction commits. If the move fails the rows are rolled back. If the
/// commit fails the file is moved back; if that fails too, the saga ends in a
/// partial failure that names where the file is now.
pub open spec fn edit_file_step(
    id: u128,
    name: Seq<char>,
    user_id: u128,
    admin: bool,
    s: SagaView,
    e: EventView,
) -> (SagaView, ActionView) {
    match s.stage {
        Stage::Start => proceed(s, Stage::Opening, ActionView::Begin),
        Stage::Opening => match e {
            EventView::Done => proceed(s, Stage::Finding, ActionView::FindFile { id }),
            _ => fail(s, database_fault()),
        },
        Stage::Finding => match e {
            EventView::FileRow(Some(file)) => {
                let found = SagaView { folder_id: file.folder_id, name: file.name, ..s };
                if admin {
                    edit_file_resolve(name, found)
                } else {
                    proceed(
                        found,
                        Stage::Gating,
                        ActionView::LookupPermission { user_id, folder_id: file.folder_id },
                    )
                }
            },
            EventView::FileRow(None) => abort(s, not_found("file not found"@)),
            _ => abort(s, database_fault()),
        },
        Stage::Gating => after_gating(
            s,
            user_id,
            s.folder_id,
            PermissionKind::Edit,
            e,
            edit_file_resolve(name, s),
        ),
        Stage::Resolving => match e {
            EventView::Folders(rows) => match folder_path(rows, s.folder_id) {
                Ok(dir) => proceed(
                    SagaView { path: dir.push(s.name), dest: dir.push(name), ..s },
                    Stage::Renaming,
                    ActionView::RenameFile { id, name },
                ),
                Err(_) => abort(s, database_fault()),
            },
            _ => abort(s, database_fault()),
        },
        Stage::Renaming | Stage::Moving | Stage::Committing | Stage::Undoing => rename_tail_step(
            s,
            e,
            "file with this name already exists"@,
            "file not found"@,
            "error while renaming file"@,
            "renamed file"@,
        ),
        _ => closing_step(s),
    }
}

/// The step that follows the permission gate when a file is renamed: the new name is
/// validated and the folder rows are asked for.
pub open spec fn edit_file_resolve(name: Seq<char>, s: SagaView) -> (SagaView, ActionView) {
    match name_verdict(name) {
        Err(bad) => abort(s, invalid_name(bad)),
        Ok(_) => proceed(s, Stage::Resolving, ActionView::LoadFolders { id: s.folder_id }),
    }
}

/// The step that follows the permission gate when a file is renamed.
fn edit_file_onward(data: &EditFile, saga: Saga) -> (res: (Saga, Action))
    ensures
        res.deep_view() == edit_file_resolve(data.name@, saga.deep_view()),
{
    match check_name(data.name.as_str()) {
        Err(bad) => saga.abort(name_failure(bad)),
        Ok(_) => {
            let id = saga.folder_id;
            saga.proceed(Stage::Resolving, Action::LoadFolders { id })
        },
    }
}

/// One step of renaming a file: from where the saga stands and the answer
/// to its last request, to where it stands next and what it asks for.
pub fn edit_file(data: &EditFile, auth: &UserData, saga: Saga, event: Event) -> (res: (
    Saga,
    Action,
))
    ensures
        res.deep_view() == edit_file_step(
            data.id,
            data.name@,
            auth.user_id,
            auth.admin,
            saga.deep_view(),
            event.deep_view(),
        ),
{
    let id = data.id;
    match saga.stage {
        Stage::Start => saga.proceed(Stage::Opening, Action::Begin),
        Stage::Opening => {
            match event {
                Event::Done => saga.proceed(Stage::Finding, Action::FindFile { id }),
                _ => saga.fail_database(),
            }
        },
        Stage::Finding => {
            match file_found(saga, event) {
                Ok(found) => {
                    if auth.admin {
                        edit_file_onward(data, found)
                    } else {
                        let folder_id = found.folder_id;
                        found.proceed(
                            Stage::Gating,
                            Action::LookupPermission { user_id: auth.user_id, folder_id },
                        )
                    }
                },
                Err(out) => out,
            }
        },
        Stage::Gating => {
            if gate_passes(auth, saga.folder_id, PermissionKind::Edit, &event) {
                edit_file_onward(data, saga)
            } else {
                gate_refusal(saga, PermissionKind::Edit, &event)
            }
        },
        Stage::Resolving => {
            match event {
                Event::Folders(rows) => {
                    match get_folder_path(&rows, saga.folder_id) {
                        Ok(dir) => {
                            let path = child(&dir, &saga.name);
                            let dest = child(&dir, &data.name);
                            let next = Saga { path, dest, ..saga };
                            next.proceed(
                                Stage::Renaming,
                                Action::RenameFile { id, name: data.name.clone() },
                            )
                        },
                        Err(_) => saga.abort_database(),
                    }
                },
                _ => saga.abort_database(),
            }
        },
        Stage::Renaming | Stage::Moving | Stage::Committing | Stage::Undoing => rename_tail(
            saga,
            event,
            "file with this name already exists",
            "file not found",
            "error while renaming file",
            "renamed file",
        ),
        _ => saga.closing_step(),
    }
}

/// The name an upload is stored under: the name given with the request
/// where there is one, else the name that came with the content.
pub open spec fn stored_name(file_name: Seq<char>, name: Option<Seq<char>>) -> Seq<char> {
    match name {
        Some(given) => given,
        None => file_name,
    }
}

/// The size recorded for a stored file: its size in bytes, or the largest
/// size a row can hold where the file is larger than that.
pub open spec fn recorded_size(size: u64) -> i64 {
    if size > i64::MAX as u64 {
        i64::MAX
    } else {
        size as i64
    }
}

/// The message that tells which file was stored.
pub open spec fn created_file_message(name: Seq<char>) -> Seq<char> {
    "created file named: \""@ + name + "\""@
}

/// What a failed upload reports once the new content is off the disk
/// again. Where the file that was to be overwritten is already gone, the
/// rows that the rollback brings back speak of a file that is no longer
/// there: the failure becomes a partial failure that names it.
pub open spec fn after_loss(s: SagaView, f: FailureView) -> FailureView {
    if s.replaced {
        partial_failure(f.message, s.path)
    } else {
        f
    }
}

/// The step that follows the permission gate when a file is stored: the name is
/// settled and validated, and the folder rows are asked for.
pub open spec fn upload_resolve(
    file_name: Seq<char>,
    folder: Option<u128>,
    name: Option<Seq<char>>,
    s: SagaView,
) -> (SagaView, ActionView) {
    let stored = stored_name(file_name, name);
    match name_verdict(stored) {
        Err(bad) => abort(s, invalid_name(bad)),
        Ok(_) => proceed(
            SagaView { name: stored, folder_id: folder, ..s },
            Stage::Resolving,
            ActionView::LoadFolders { id: folder },
        ),
    }
}

/// One step of storing a file.
///
/// The stages, in order: the transaction opens; the permission gate asks for `Edit`
/// on the folder; the name is settled, the one given with the request
/// before the one that came with the content, and validated; the folder's
/// path is resolved, where a folder without a row ends the saga as not
/// found; the folder is asked whether it holds a file of that name. If it
/// does and the request does not ask to overwrite, the saga ends in a
/// conflict with nothing touched. If it does and the request asks to
/// overwrite, the old row is deleted and the old file removed. Then the
/// directory is made sure of, the content is stored, the row is inserted
/// with the size of what was stored, and the transaction commits.
///
/// Whatever fails after the content was stored, the content is removed
/// again. Where that cannot be done, or where the old file is already gone,
/// the saga ends in a partial failure that names the file.
pub open spec fn upload_file_step(
    file_name: Seq<char>,
    folder: Option<u128>,
    name: Option<Seq<char>>,
    overwrite: bool,
    user_id: u128,
    admin: bool,
    s: SagaView,
    e: EventView,
) -> (SagaView, ActionView) {
    let resolve = upload_resolve(file_name, folder, name, s);
    let scrub = ActionView::RemoveFile { path: s.path };
    match s.stage {
        Stage::Start => proceed(s, Stage::Opening, ActionView::Begin),
        Stage::Opening => after_opening(s, user_id, admin, folder, e, resolve),
        Stage::Gating => after_gating(s, user_id, folder, PermissionKind::Edit, e, resolve),
        Stage::Resolving => match e {
            EventView::Folders(rows) => match folder_path(rows, folder) {
                Ok(dir) => proceed(
                    SagaView { dest: dir, path: dir.push(s.name), ..s },
                    Stage::Probing,
                    ActionView::FileExists { folder_id: folder, name: s.name },
                ),
                Err(ResolveError::NotFound) => abort(s, not_found("folder not found"@)),
                Err(_) => abort(s, database_fault()),
            },
            _ => abort(s, database_fault()),
        },
        Stage::Probing => match e {
            EventView::Exists(true) => if overwrite {
                proceed(
                    s,
                    Stage::Unlinking,
                    ActionView::DeleteFileNamed { folder_id: folder, name: s.name },
                )
            } else {
                abort(s, failure(ErrorKind::Conflict, "file with this name already exists"@))
            },
            EventView::Exists(false) => proceed(
                s,
                Stage::Preparing,
                ActionView::EnsureDir { path: s.dest },
            ),
            _ => abort(s, database_fault()),
        },
        Stage::Unlinking => match e {
            EventView::Affected(_) => proceed(s, Stage::Clearing, scrub),
            _ => abort(s, database_fault()),
        },
        Stage::Clearing => match e {
            EventView::Done | EventView::Missing => proceed(
                SagaView { replaced: true, ..s },
                Stage::Preparing,
                ActionView::EnsureDir { path: s.dest },
            ),
            _ => abort(s, failure(ErrorKind::StorageFault, "error while overwriting file"@)),
        },
        Stage::Preparing => match e {
            EventView::Done => proceed(
                s,
                Stage::Writing,
                ActionView::WriteFile { path: s.path, mode: UPLOAD_MODE },
            ),
            _ => abort(
                s,
                after_loss(s, failure(ErrorKind::StorageFault, "could not create folders"@)),
            ),
        },
        Stage::Writing => match e {
            EventView::Written(size) => proceed(
                s,
                Stage::Recording,
                ActionView::InsertFile {
                    owner_id: user_id,
                    folder_id: folder,
                    name: s.name,
                    size: recorded_size(size),
                },
            ),
            _ => compensate(
                s,
                Stage::Scrubbing,
                failure(ErrorKind::StorageFault, "failed to save file"@),
                scrub,
            ),
        },
        Stage::Recording => match e {
            EventView::Done | EventView::Inserted(_) => proceed(
                s,
                Stage::Committing,
                ActionView::Commit,
            ),
            EventView::Duplicate => compensate(
                s,
                Stage::Scrubbing,
                failure(ErrorKind::Conflict, "file with this name already exists"@),
                scrub,
            ),
            _ => compensate(s, Stage::Scrubbing, database_fault(), scrub),
        },
        Stage::Scrubbing => match e {
            EventView::Done | EventView::Missing => abort(
                s,
                after_loss(s, crate::saga::kept_verdict(s)),
            ),
            _ => abort(s, partial_failure(crate::saga::kept_verdict(s).message, s.path)),
        },
        Stage::Committing => match e {
            EventView::Done => succeed(s, Status::Created, created_file_message(s.name)),
            _ => compensate(s, Stage::Undoing, database_fault(), scrub),
        },
        Stage::Undoing => match e {
            EventView::Done | EventView::Missing => fail(
                s,
                after_loss(s, crate::saga::kept_verdict(s)),
            ),
            _ => fail(s, partial_failure(crate::saga::kept_verdict(s).message, s.path)),
        },
        _ => closing_step(s),
    }
}

/// What a failed upload reports once the new content is off the disk again.
fn failure_after_loss(saga: &Saga, f: Failure) -> (res: Failure)
    ensures
        res.deep_view() == after_loss(saga.deep_view(), f.deep_view()),
{
    if saga.replaced {
        Failure {
            kind: ErrorKind::PartialFailure,
            message: f.message,
            orphan: Some(crate::models::clone_path(&saga.path)),
        }
    } else {
        f
    }
}

/// The partial failure of an upload whose content could not be removed
/// again.
fn failure_stuck(saga: &Saga) -> (res: Failure)
    ensures
        res.deep_view() == partial_failure(
            crate::saga::kept_verdict(saga.deep_view()).message,
            saga.deep_view().path,
        ),
{
    let kept = kept_failure(saga);
    Failure {
        kind: ErrorKind::PartialFailure,
        message: kept.message,
        orphan: Some(crate::models::clone_path(&saga.path)),
    }
}

/// The step that follows the permission gate when a file is stored.
fn upload_onward(data: &UploadFile, saga: Saga) -> (res: (Saga, Action))
    ensures
        res.deep_view() == upload_resolve(
            data.file_name@,
            data.folder,
            data.name.deep_view(),
            saga.deep_view(),
        ),
{
    let stored = match &data.name {
        Some(given) => given.clone(),
        None => data.file_name.clone(),
    };
    match check_name(stored.as_str()) {
        Err(bad) => saga.abort(name_failure(bad)),
        Ok(_) => {
            let next = Saga { name: stored, folder_id: data.folder, ..saga };
            next.proceed(Stage::Resolving, Action::LoadFolders { id: data.folder })
        },
    }
}

/// The size recorded for a stored file.
pub fn size_to_record(size: u64) -> (res: i64)
    ensures
        res == recorded_size(size),
{
    if size > 0x7fff_ffff_ffff_ffffu64 {
        i64::MAX
    } else {
        size as i64
    }
}

/// Whether the request asks to overwrite; it does not unless it says so.
pub open spec fn wants_overwrite(overwrite: Option<bool>) -> bool {
    match overwrite {
        Some(b) => b,
        None => false,
    }
}

/// One step of storing a file: from where the saga stands and the answer
/// to its last request, to where it stands next and what it asks for.
pub fn upload_file(data: &UploadFile, auth: &UserData, saga: Saga, event: Event) -> (res: (
    Saga,
    Action,
))
    ensures
        res.deep_view() == upload_file_step(
            data.file_name@,
            data.folder,
            data.name.deep_view(),
            wants_overwrite(data.overwrite),
            auth.user_id,
            auth.admin,
            saga.deep_view(),
            event.deep_view(),
        ),
{
    let folder = data.folder;
    let overwrite = match data.overwrite {
        Some(b) => b,
        None => false,
    };
    match saga.stage {
        Stage::Start => saga.proceed(Stage::Opening, Action::Begin),
        Stage::Opening => {
            match open_gate(saga, auth, folder, &event) {
                Ok(saga) => upload_onward(data, saga),
                Err(out) => out,
            }
        },
        Stage::Gating => {
            if gate_passes(auth, folder, PermissionKind::Edit, &event) {
                upload_onward(data, saga)
            } else {
                gate_refusal(saga, PermissionKind::Edit, &event)
            }
        },
        Stage::Resolving => {
            match event {
                Event::Folders(rows) => {
                    match get_folder_path(&rows, folder) {
                        Ok(dir) => {
                            let path = child(&dir, &saga.name);
                            let name = saga.name.clone();
                            let next = Saga { dest: dir, path, ..saga };
                            next.proceed(
                                Stage::Probing,
                                Action::FileExists { folder_id: folder, name },
                            )
                        },
                        Err(ResolveError::NotFound) => saga.abort(
                            Failure::new(ErrorKind::NotFound, "folder not found"),
                        ),
                        Err(_) => saga.abort_database(),
                    }
                },
                _ => saga.abort_database(),
            }
        },
        Stage::Probing => {
            match event {
                Event::Exists(true) => {
                    if overwrite {
                        let name = saga.name.clone();
                        saga.proceed(
                            Stage::Unlinking,
                            Action::DeleteFileNamed { folder_id: folder, name },
                        )
                    } else {
                        saga.abort(
                            Failure::new(ErrorKind::Conflict, "file with this name already exists"),
                        )
                    }
                },
                Event::Exists(false) => {
                    let path = crate::models::clone_path(&saga.dest);
                    saga.proceed(Stage::Preparing, Action::EnsureDir { path })
                },
                _ => saga.abort_database(),
            }
        },
        Stage::Unlinking => {
            match event {
                Event::Affected(_) => {
                    let path = crate::models::clone_path(&saga.path);
                    saga.proceed(Stage::Clearing, Action::RemoveFile { path })
                },
                _ => saga.abort_database(),
            }
        },
        Stage::Clearing => {
            match event {
                Event::Done | Event::Missing => {
                    let path = crate::models::clone_path(&saga.dest);
                    let next = Saga { replaced: true, ..saga };
                    next.proceed(Stage::Preparing, Action::EnsureDir { path })
                },
                _ => saga.abort(
                    Failure::new(ErrorKind::StorageFault, "error while overwriting file"),
                ),
            }
        },
        Stage::Preparing => {
            match event {
                Event::Done => {
                    let path = crate::models::clone_path(&saga.path);
                    saga.proceed(Stage::Writing, Action::WriteFile { path, mode: UPLOAD_MODE })
                },
                _ => {
                    let f = failure_after_loss(
                        &saga,
                        Failure::new(ErrorKind::StorageFault, "could not create folders"),
                    );
                    saga.abort(f)
                },
            }
        },
        Stage::Writing => {
            let path = crate::models::clone_path(&saga.path);
            match event {
                Event::Written(size) => {
                    let name = saga.name.clone();
                    saga.proceed(
                        Stage::Recording,
                        Action::InsertFile {
                            owner_id: auth.user_id,
                            folder_id: folder,
                            name,
                            size: size_to_record(size),
                        },
                    )
                },
                _ => saga.compensate(
                    Stage::Scrubbing,
                    Failure::new(ErrorKind::StorageFault, "failed to save file"),
                    Action::RemoveFile { path },
                ),
            }
        },
        Stage::Recording => {
            let path = crate::models::clone_path(&saga.path);
            match event {
                Event::Done | Event::Inserted(_) => saga.proceed(Stage::Committing, Action::Commit),
                Event::Duplicate => saga.compensate(
                    Stage::Scrubbing,
                    Failure::new(ErrorKind::Conflict, "file with this name already exists"),
                    Action::RemoveFile { path },
                ),
                _ => saga.compensate(
                    Stage::Scrubbing,
                    Failure::new(ErrorKind::DatabaseFault, "database error"),
                    Action::RemoveFile { path },
                ),
            }
        },
        Stage::Scrubbing => {
            match event {
                Event::Done | Event::Missing => {
                    let f = failure_after_loss(&saga, kept_failure(&saga));
                    saga.abort(f)
                },
                _ => {
                    let f = failure_stuck(&saga);
                    saga.abort(f)
                },
            }
        },
        Stage::Committing => {
            match event {
                Event::Done => {
                    let message = String::from_str("created file named: \"").concat(
                        saga.name.as_str(),
                    ).concat("\"");
                    saga.succeed(Status::Created, message)
                },
                _ => {
                    let path = crate::models::clone_path(&saga.path);
                    saga.compensate(
                        Stage::Undoing,
                        Failure::new(ErrorKind::DatabaseFault, "database error"),
                        Action::RemoveFile { path },
                    )
                },
            }
        },
        Stage::Undoing => {
            match event {
                Event::Done | Event::Missing => {
                    let f = failure_after_loss(&saga, kept_failure(&saga));
                    saga.fail(f)
                },
                _ => {
                    let f = failure_stuck(&saga);
                    saga.fail(f)
                },
            }
        },
        _ => saga.closing_step(),
    }
}

} // verus!
