//! What a folder or a file that was deleted has changed.
use crate::disk::{has_entry, has_prefix, remove_dir_all, remove_file, EntryView};
use crate::models::{FileView, FolderView, Permission, ReplyView, Status};
use crate::paths::{ancestry, folder_path, has_folder, ResolveError, UuidPathView};
use crate::tables::{cascade, delete_file_row, find_file, has_file, in_subtree, lies_in};
use crate::perms::{permitted, PermissionKind};
use crate::saga::{fresh_saga, ActionView, EventView, SagaView, Stage};
use crate::store::{apply, run, run_from, step, MAX_STEPS, OperationView, StoreView};
use vstd::prelude::*;

verus! {

/// What must hold of store `w` for folder `id` to be deleted: the
/// permission gate lets the principal pass, and the folder is there and has
/// a path.
pub open spec fn may_delete_folder(w: StoreView, id: u128, user_id: u128, admin: bool) -> bool {
    &&& permitted(w.committed.permissions, user_id, admin, Some(id), PermissionKind::Modify)
    &&& has_folder(w.committed.folders, id)
    &&& folder_path(w.committed.folders, Some(id)) is Ok
}

/// What a deleted folder has changed: the committed rows are those that
/// the cascade leaves, the folder's directory is gone from the disk with all
/// that was in it, and no transaction is left open.
pub open spec fn folder_deleted(before: StoreView, after: StoreView, id: u128) -> bool {
    let path = folder_path(before.committed.folders, Some(id))->Ok_0;
    &&& after.committed == cascade(before.committed, id)
    &&& after.pending is None
    &&& after.disk == remove_dir_all(before.disk, path).0
    &&& remove_dir_all(before.disk, path).1 is Done || remove_dir_all(before.disk, path).1
        is Missing
}

/// What holds while a folder is being deleted and nothing has gone wrong.
pub open spec fn deleting_folder_on_course(
    before: StoreView,
    id: u128,
    user_id: u128,
    admin: bool,
    w: StoreView,
    s: SagaView,
    e: EventView,
) -> bool {
    let t0 = before.committed;
    let untouched = w.committed == t0 && w.disk == before.disk;
    let allowed = permitted(t0.permissions, user_id, admin, Some(id), PermissionKind::Modify);
    let resolved = folder_path(t0.folders, Some(id)) == Ok::<Seq<Seq<char>>, ResolveError>(
        s.path,
    );
    &&& before.pending is None
    &&& match s.stage {
        Stage::Start => w == before,
        Stage::Opening => e is Done ==> untouched && w.pending == Some(t0),
        Stage::Gating => e is Permissions ==> untouched && w.pending == Some(t0)
            && e->Permissions_0 == t0.permissions && !admin,
        Stage::Resolving => e is Folders ==> untouched && w.pending == Some(t0) && allowed
            && e->Folders_0 == t0.folders,
        Stage::Deleting => e is Affected && e->Affected_0 != 0 ==> untouched && allowed
            && resolved && has_folder(t0.folders, id) && w.pending == Some(cascade(t0, id)),
        Stage::Committing => e is Done ==> allowed && resolved && has_folder(t0.folders, id)
            && w.committed == cascade(t0, id) && w.pending is None && w.disk == before.disk,
        Stage::Removing => e is Done || e is Missing ==> allowed && resolved && has_folder(
            t0.folders,
            id,
        ) && w.committed == cascade(t0, id) && w.pending is None && remove_dir_all(
            before.disk,
            s.path,
        ) == (w.disk, e),
        _ => true,
    }
}

/// The folder is deleted, and the saga says so.
pub open spec fn deleted_folder_well(
    before: StoreView,
    after: StoreView,
    id: u128,
    user_id: u128,
    admin: bool,
    reply: ReplyView,
) -> bool {
    &&& reply == ReplyView { status: Status::NoContent, message: "deleted folder"@ }
    &&& may_delete_folder(before, id, user_id, admin)
    &&& folder_deleted(before, after, id)
}

/// One step keeps the deletion on course.
pub proof fn lemma_deleting_folder_step_holds(
    before: StoreView,
    id: u128,
    user_id: u128,
    admin: bool,
    w: StoreView,
    content: Seq<u8>,
    s: SagaView,
    e: EventView,
)
    requires
        deleting_folder_on_course(before, id, user_id, admin, w, s, e),
    ensures
        ({
            let op = OperationView::DeleteFolder { id };
            let (next, action) = step(op, user_id, admin, s, e);
            match action {
                ActionView::Finish(result) => result is Ok ==> deleted_folder_well(
                    before,
                    w,
                    id,
                    user_id,
                    admin,
                    result->Ok_0,
                ),
                _ => {
                    let (after, answer) = apply(w, action, content);
                    deleting_folder_on_course(before, id, user_id, admin, after, next, answer)
                },
            }
        }),
{
    lemma_deleting_folder_step(before, id, user_id, admin, w, content, s, e);
}

proof fn lemma_deleting_folder_step(
    before: StoreView,
    id: u128,
    user_id: u128,
    admin: bool,
    w: StoreView,
    content: Seq<u8>,
    s: SagaView,
    e: EventView,
)
    requires
        deleting_folder_on_course(before, id, user_id, admin, w, s, e),
    ensures
        ({
            let (next, action) = step(OperationView::DeleteFolder { id }, user_id, admin, s, e);
            match action {
                ActionView::Finish(result) => result is Ok ==> deleted_folder_well(
                    before,
                    w,
                    id,
                    user_id,
                    admin,
                    result->Ok_0,
                ),
                _ => {
                    let (after, answer) = apply(w, action, content);
                    deleting_folder_on_course(before, id, user_id, admin, after, next, answer)
                },
            }
        }),
{
}

proof fn lemma_deleting_folder_run(
    before: StoreView,
    id: u128,
    user_id: u128,
    admin: bool,
    w: StoreView,
    content: Seq<u8>,
    s: SagaView,
    e: EventView,
    fuel: nat,
)
    requires
        deleting_folder_on_course(before, id, user_id, admin, w, s, e),
    ensures
        ({
            let op = OperationView::DeleteFolder { id };
            let (after, result) = run_from(op, user_id, admin, w, content, s, e, fuel);
            result is Ok ==> deleted_folder_well(before, after, id, user_id, admin, result->Ok_0)
        }),
    decreases fuel,
{
    let op = OperationView::DeleteFolder { id };
    lemma_deleting_folder_step(before, id, user_id, admin, w, content, s, e);
    let (next, action) = step(op, user_id, admin, s, e);
    if !(action is Finish) && fuel > 0 {
        let (after, answer) = apply(w, action, content);
        lemma_deleting_folder_run(
            before,
            id,
            user_id,
            admin,
            after,
            content,
            next,
            answer,
            (fuel - 1) as nat,
        );
    }
}

/// A folder is deleted only where it may be, and then with all that hangs
/// below it.
///
/// Where deleting a folder ends well, the permission gate has let the
/// principal pass and the folder was there. The committed rows are those
/// that the cascade leaves: the folder, every folder below it and every file
/// and permission of those are gone, all other rows stay. The disk is the
/// old one without the folder's directory and all that was in it. No
/// transaction is left open.
pub proof fn lemma_delete_folder_effect(
    w: StoreView,
    id: u128,
    user_id: u128,
    admin: bool,
    content: Seq<u8>,
)
    requires
        w.pending is None,
    ensures
        ({
            let op = OperationView::DeleteFolder { id };
            let (after, result) = run(op, user_id, admin, w, content);
            result is Ok ==> deleted_folder_well(w, after, id, user_id, admin, result->Ok_0)
        }),
{
    lemma_deleting_folder_run(
        w,
        id,
        user_id,
        admin,
        w,
        content,
        fresh_saga(),
        EventView::Start,
        MAX_STEPS as nat,
    );
}

/// What must hold of store `w` for file `id` to be deleted: the file is
/// there, the permission gate lets the principal pass for the file's folder,
/// and that folder has a path.
pub open spec fn may_delete_file(w: StoreView, id: u128, user_id: u128, admin: bool) -> bool {
    let file = find_file(w.committed, id)->0;
    &&& has_file(w.committed.files, id)
    &&& permitted(w.committed.permissions, user_id, admin, file.folder_id, PermissionKind::Edit)
    &&& folder_path(w.committed.folders, file.folder_id) is Ok
}

/// Where file `id` of store `w` is on disk.
pub open spec fn file_place(w: StoreView, id: u128) -> Seq<Seq<char>> {
    let file = find_file(w.committed, id)->0;
    folder_path(w.committed.folders, file.folder_id)->Ok_0.push(file.name)
}

/// What a deleted file has changed: its row is gone from the committed
/// rows, the file is gone from the disk, and no transaction is left open.
pub open spec fn file_deleted(before: StoreView, after: StoreView, id: u128) -> bool {
    let place = file_place(before, id);
    &&& after.committed == delete_file_row(before.committed, id).0
    &&& after.pending is None
    &&& after.disk == remove_file(before.disk, place).0
    &&& remove_file(before.disk, place).1 is Done || remove_file(before.disk, place).1 is Missing
}

/// What holds while a file is being deleted and nothing has gone wrong.
pub open spec fn deleting_file_on_course(
    before: StoreView,
    id: u128,
    user_id: u128,
    admin: bool,
    w: StoreView,
    s: SagaView,
    e: EventView,
) -> bool {
    let t0 = before.committed;
    let file = find_file(t0, id)->0;
    let untouched = w.committed == t0 && w.disk == before.disk;
    let found = has_file(t0.files, id) && s.folder_id == file.folder_id && s.name == file.name;
    let allowed = permitted(
        t0.permissions,
        user_id,
        admin,
        file.folder_id,
        PermissionKind::Edit,
    );
    let resolved = folder_path(t0.folders, file.folder_id) is Ok && s.path == file_place(
        before,
        id,
    );
    let gone = delete_file_row(t0, id).0;
    &&& before.pending is None
    &&& match s.stage {
        Stage::Start => w == before,
        Stage::Opening => e is Done ==> untouched && w.pending == Some(t0),
        Stage::Finding => e is FileRow ==> untouched && w.pending == Some(t0)
            && e->FileRow_0 == find_file(t0, id),
        Stage::Gating => e is Permissions ==> untouched && w.pending == Some(t0) && found
            && e->Permissions_0 == t0.permissions && !admin,
        Stage::Resolving => e is Folders ==> untouched && w.pending == Some(t0) && found
            && allowed && e->Folders_0 == t0.folders,
        Stage::Deleting => e is Affected && e->Affected_0 != 0 ==> untouched && found && allowed
            && resolved && w.pending == Some(gone),
        Stage::Committing => e is Done ==> found && allowed && resolved && w.committed == gone
            && w.pending is None && w.disk == before.disk,
        Stage::Removing => e is Done || e is Missing ==> found && allowed && resolved
            && w.committed == gone && w.pending is None && remove_file(before.disk, s.path) == (
            w.disk,
            e,
        ),
        _ => true,
    }
}

/// The file is deleted, and the saga says so.
pub open spec fn deleted_file_well(
    before: StoreView,
    after: StoreView,
    id: u128,
    user_id: u128,
    admin: bool,
    reply: ReplyView,
) -> bool {
    &&& reply == ReplyView { status: Status::NoContent, message: "deleted file"@ }
    &&& may_delete_file(before, id, user_id, admin)
    &&& file_deleted(before, after, id)
}

/// One step keeps the deletion on course.
pub proof fn lemma_deleting_file_step_holds(
    before: StoreView,
    id: u128,
    user_id: u128,
    admin: bool,
    w: StoreView,
    content: Seq<u8>,
    s: SagaView,
    e: EventView,
)
    requires
        deleting_file_on_course(before, id, user_id, admin, w, s, e),
    ensures
        ({
            let op = OperationView::DeleteFile { id };
            let (next, action) = step(op, user_id, admin, s, e);
            match action {
                ActionView::Finish(result) => result is Ok ==> deleted_file_well(
                    before,
                    w,
                    id,
                    user_id,
                    admin,
                    result->Ok_0,
                ),
                _ => {
                    let (after, answer) = apply(w, action, content);
                    deleting_file_on_course(before, id, user_id, admin, after, next, answer)
                },
            }
        }),
{
    lemma_deleting_file_step(before, id, user_id, admin, w, content, s, e);
}

proof fn lemma_deleting_file_step(
    before: StoreView,
    id: u128,
    user_id: u128,
    admin: bool,
    w: StoreView,
    content: Seq<u8>,
    s: SagaView,
    e: EventView,
)
    requires
        deleting_file_on_course(before, id, user_id, admin, w, s, e),
    ensures
        ({
            let (next, action) = step(OperationView::DeleteFile { id }, user_id, admin, s, e);
            match action {
                ActionView::Finish(result) => result is Ok ==> deleted_file_well(
                    before,
                    w,
                    id,
                    user_id,
                    admin,
                    result->Ok_0,
                ),
                _ => {
                    let (after, answer) = apply(w, action, content);
                    deleting_file_on_course(before, id, user_id, admin, after, next, answer)
                },
            }
        }),
{
}

proof fn lemma_deleting_file_run(
    before: StoreView,
    id: u128,
    user_id: u128,
    admin: bool,
    w: StoreView,
    content: Seq<u8>,
    s: SagaView,
    e: EventView,
    fuel: nat,
)
    requires
        deleting_file_on_course(before, id, user_id, admin, w, s, e),
    ensures
        ({
            let op = OperationView::DeleteFile { id };
            let (after, result) = run_from(op, user_id, admin, w, content, s, e, fuel);
            result is Ok ==> deleted_file_well(before, after, id, user_id, admin, result->Ok_0)
        }),
    decreases fuel,
{
    let op = OperationView::DeleteFile { id };
    lemma_deleting_file_step(before, id, user_id, admin, w, content, s, e);
    let (next, action) = step(op, user_id, admin, s, e);
    if !(action is Finish) && fuel > 0 {
        let (after, answer) = apply(w, action, content);
        lemma_deleting_file_run(
            before,
            id,
            user_id,
            admin,
            after,
            content,
            next,
            answer,
            (fuel - 1) as nat,
        );
    }
}

/// A file is deleted only where it may be, and then from rows and disk
/// alike.
///
/// Where deleting a file ends well, the file was there and the permission
/// gate has let the principal pass for the file's folder. The committed rows
/// are the old ones without the file's row, the disk is the old one without
/// the file, and no transaction is left open.
pub proof fn lemma_delete_file_effect(
    w: StoreView,
    id: u128,
    user_id: u128,
    admin: bool,
    content: Seq<u8>,
)
    requires
        w.pending is None,
    ensures
        ({
            let op = OperationView::DeleteFile { id };
            let (after, result) = run(op, user_id, admin, w, content);
            result is Ok ==> deleted_file_well(w, after, id, user_id, admin, result->Ok_0)
        }),
{
    lemma_deleting_file_run(
        w,
        id,
        user_id,
        admin,
        w,
        content,
        fresh_saga(),
        EventView::Start,
        MAX_STEPS as nat,
    );
}

/// What was below a deleted folder is gone.
///
/// Once folder `id` is deleted, neither it nor any folder `x` that was
/// below it has a row: looking `x` up finds nothing. No file and no
/// permission that belonged to one of those folders has a row. The
/// directory of the folder is gone from the disk, and where it was there to
/// be removed, nothing that was in it is left.
pub proof fn lemma_deleted_subtree_is_gone(
    w: StoreView,
    id: u128,
    user_id: u128,
    admin: bool,
    content: Seq<u8>,
    x: u128,
)
    requires
        w.pending is None,
        run(OperationView::DeleteFolder { id }, user_id, admin, w, content).1 is Ok,
        in_subtree(w.committed.folders, id, x),
    ensures
        ({
            let after = run(OperationView::DeleteFolder { id }, user_id, admin, w, content).0;
            let path = folder_path(w.committed.folders, Some(id))->Ok_0;
            &&& !has_folder(after.committed.folders, x)
            &&& ancestry(after.committed.folders, Some(x)) == Err::<
                Seq<UuidPathView>,
                ResolveError,
            >(ResolveError::NotFound)
            &&& folder_path(after.committed.folders, Some(x)) == Err::<
                Seq<Seq<char>>,
                ResolveError,
            >(ResolveError::NotFound)
            &&& forall|i: int|
                0 <= i < after.committed.files.len() ==> (
                #[trigger] after.committed.files[i]).folder_id != Some(x)
            &&& forall|i: int|
                0 <= i < after.committed.permissions.len() ==> (
                #[trigger] after.committed.permissions[i]).folder_id != Some(x)
            &&& !has_entry(after.disk, path)
            &&& remove_dir_all(w.disk, path).1 is Done ==> forall|k: int|
                0 <= k < after.disk.len() ==> !has_prefix((#[trigger] after.disk[k]).path, path)
        }),
{
    lemma_delete_folder_effect(w, id, user_id, admin, content);
    let after = run(OperationView::DeleteFolder { id }, user_id, admin, w, content).0;
    let t0 = w.committed;
    let path = folder_path(t0.folders, Some(id))->Ok_0;
    let kept_folder = |f: FolderView| !in_subtree(t0.folders, id, f.id);
    let kept_file = |f: FileView| !lies_in(t0.folders, id, f.folder_id);
    let kept_row = |p: Permission| !lies_in(t0.folders, id, p.folder_id);
    let outside = |e: EntryView| !has_prefix(e.path, path);
    assert(after.committed.folders == t0.folders.filter(kept_folder));
    assert forall|i: int| 0 <= i < after.committed.folders.len() implies (
    #[trigger] after.committed.folders[i]).id != x by {
        t0.folders.lemma_filter_pred(kept_folder, i);
    }
    assert forall|i: int| 0 <= i < after.committed.files.len() implies (
    #[trigger] after.committed.files[i]).folder_id != Some(x) by {
        t0.files.lemma_filter_pred(kept_file, i);
    }
    assert forall|i: int| 0 <= i < after.committed.permissions.len() implies (
    #[trigger] after.committed.permissions[i]).folder_id != Some(x) by {
        t0.permissions.lemma_filter_pred(kept_row, i);
    }
    if remove_dir_all(w.disk, path).1 is Done {
        assert(after.disk == w.disk.filter(outside));
        assert forall|k: int| 0 <= k < after.disk.len() implies !has_prefix(
            (#[trigger] after.disk[k]).path,
            path,
        ) by {
            w.disk.lemma_filter_pred(outside, k);
        }
        assert(!has_entry(after.disk, path)) by {
            if has_entry(after.disk, path) {
                let k = choose|k: int|
                    0 <= k < after.disk.len() && (#[trigger] after.disk[k]).path == path;
                assert(path.take(path.len() as int) =~= path);
                assert(has_prefix(after.disk[k].path, path));
            }
        }
    }
}

} // verus!
