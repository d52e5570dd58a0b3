//! What a folder or a file that was renamed has changed.
use crate::assets::sibling_path;
use crate::disk::{lemma_moved_keeps_content, moved_path, rename};
use crate::effects::deleting::file_place;
use crate::models::{ReplyView, Status};
use crate::names::valid_name;
use crate::paths::{folder_path, has_folder, position, ResolveError};
use crate::perms::{permitted, PermissionKind};
use crate::saga::{fresh_saga, ActionView, EventView, SagaView, Stage};
use crate::store::{apply, run, run_from, step, MAX_STEPS, OperationView, StoreView};
use crate::tables::{
    file_name_taken_by_other, find_file, folder_name_taken_by_other, has_file, rename_file_row,
    rename_folder_row,
};
use vstd::prelude::*;

verus! {

/// What must hold of store `w` for folder `id` to be renamed: the
/// permission gate lets the principal pass, the new name is valid, the
/// folder is there and has a path, and no other folder below the same parent
/// has the new name.
pub open spec fn may_rename_folder(
    w: StoreView,
    id: u128,
    name: Seq<char>,
    user_id: u128,
    admin: bool,
) -> bool {
    let row = w.committed.folders[position(w.committed.folders, id)];
    &&& permitted(w.committed.permissions, user_id, admin, Some(id), PermissionKind::Modify)
    &&& valid_name(name)
    &&& has_folder(w.committed.folders, id)
    &&& folder_path(w.committed.folders, Some(id)) is Ok
    &&& folder_path(w.committed.folders, Some(id))->Ok_0.len() > 0
    &&& !folder_name_taken_by_other(w.committed.folders, row.parent_id, name, id)
}

/// What a renamed folder has changed: its row has the new name and the
/// time of the change, its directory is where the old one was but under the
/// new name, with all that was in it, and no transaction is left open.
pub open spec fn folder_renamed(
    before: StoreView,
    after: StoreView,
    id: u128,
    name: Seq<char>,
) -> bool {
    let path = folder_path(before.committed.folders, Some(id))->Ok_0;
    &&& after.committed == rename_folder_row(before.committed, id, name, before.clock).0
    &&& after.pending is None
    &&& rename(before.disk, path, sibling_path(path, name)) == (after.disk, EventView::Done)
}

/// What holds while a folder is being renamed and nothing has gone wrong.
pub open spec fn renaming_folder_on_course(
    before: StoreView,
    id: u128,
    name: Seq<char>,
    user_id: u128,
    admin: bool,
    w: StoreView,
    s: SagaView,
    e: EventView,
) -> bool {
    let t0 = before.committed;
    let untouched = w.committed == t0 && w.disk == before.disk && w.clock == before.clock;
    let allowed = permitted(t0.permissions, user_id, admin, Some(id), PermissionKind::Modify)
        && valid_name(name);
    let resolved = folder_path(t0.folders, Some(id)) == Ok::<Seq<Seq<char>>, ResolveError>(
        s.path,
    ) && s.path.len() > 0 && s.dest == sibling_path(s.path, name);
    let renamed = rename_folder_row(t0, id, name, before.clock);
    let done = has_folder(t0.folders, id) && renamed.1 is Affected;
    &&& before.pending is None
    &&& match s.stage {
        Stage::Start => w == before,
        Stage::Opening => e is Done ==> untouched && w.pending == Some(t0),
        Stage::Gating => e is Permissions ==> untouched && w.pending == Some(t0)
            && e->Permissions_0 == t0.permissions && !admin,
        Stage::Resolving => e is Folders ==> untouched && w.pending == Some(t0) && allowed
            && e->Folders_0 == t0.folders,
        Stage::Renaming => e is Affected && e->Affected_0 != 0 ==> w.committed == t0 && w.disk
            == before.disk && allowed && resolved && done && w.pending == Some(renamed.0),
        Stage::Moving => e is Done ==> w.committed == t0 && allowed && resolved && done
            && w.pending == Some(renamed.0) && rename(before.disk, s.path, s.dest) == (
            w.disk,
            EventView::Done,
        ),
        Stage::Committing => e is Done ==> allowed && resolved && done && w.committed
            == renamed.0 && w.pending is None && rename(before.disk, s.path, s.dest) == (
            w.disk,
            EventView::Done,
        ),
        _ => true,
    }
}

/// The folder is renamed, and the saga says so.
pub open spec fn renamed_folder_well(
    before: StoreView,
    after: StoreView,
    id: u128,
    name: Seq<char>,
    user_id: u128,
    admin: bool,
    reply: ReplyView,
) -> bool {
    &&& reply == ReplyView { status: Status::NoContent, message: "renamed folder"@ }
    &&& may_rename_folder(before, id, name, user_id, admin)
    &&& folder_renamed(before, after, id, name)
}

/// One step keeps the renaming on course.
pub proof fn lemma_renaming_folder_step_holds(
    before: StoreView,
    id: u128,
    name: Seq<char>,
    user_id: u128,
    admin: bool,
    w: StoreView,
    content: Seq<u8>,
    s: SagaView,
    e: EventView,
)
    requires
        renaming_folder_on_course(before, id, name, user_id, admin, w, s, e),
    ensures
        ({
            let op = OperationView::EditFolder { id, name };
            let (next, action) = step(op, user_id, admin, s, e);
            match action {
                ActionView::Finish(result) => result is Ok ==> renamed_folder_well(
                    before,
                    w,
                    id,
                    name,
                    user_id,
                    admin,
                    result->Ok_0,
                ),
                _ => {
                    let (after, answer) = apply(w, action, content);
                    renaming_folder_on_course(before, id, name, user_id, admin, after, next, answer)
                },
            }
        }),
{
    lemma_renaming_folder_step(before, id, name, user_id, admin, w, content, s, e);
}

proof fn lemma_renaming_folder_step(
    before: StoreView,
    id: u128,
    name: Seq<char>,
    user_id: u128,
    admin: bool,
    w: StoreView,
    content: Seq<u8>,
    s: SagaView,
    e: EventView,
)
    requires
        renaming_folder_on_course(before, id, name, user_id, admin, w, s, e),
    ensures
        ({
            let op = OperationView::EditFolder { id, name };
            let (next, action) = step(op, user_id, admin, s, e);
            match action {
                ActionView::Finish(result) => result is Ok ==> renamed_folder_well(
                    before,
                    w,
                    id,
                    name,
                    user_id,
                    admin,
                    result->Ok_0,
                ),
                _ => {
                    let (after, answer) = apply(w, action, content);
                    renaming_folder_on_course(before, id, name, user_id, admin, after, next, answer)
                },
            }
        }),
{
}

proof fn lemma_renaming_folder_run(
    before: StoreView,
    id: u128,
    name: Seq<char>,
    user_id: u128,
    admin: bool,
    w: StoreView,
    content: Seq<u8>,
    s: SagaView,
    e: EventView,
    fuel: nat,
)
    requires
        renaming_folder_on_course(before, id, name, user_id, admin, w, s, e),
    ensures
        ({
            let op = OperationView::EditFolder { id, name };
            let (after, result) = run_from(op, user_id, admin, w, content, s, e, fuel);
            result is Ok ==> renamed_folder_well(
                before,
                after,
                id,
                name,
                user_id,
                admin,
                result->Ok_0,
            )
        }),
    decreases fuel,
{
    let op = OperationView::EditFolder { id, name };
    lemma_renaming_folder_step(before, id, name, user_id, admin, w, content, s, e);
    let (next, action) = step(op, user_id, admin, s, e);
    if !(action is Finish) && fuel > 0 {
        let (after, answer) = apply(w, action, content);
        lemma_renaming_folder_run(
            before,
            id,
            name,
            user_id,
            admin,
            after,
            content,
            next,
            answer,
            (fuel - 1) as nat,
        );
    }
}

/// A folder is renamed only where it may be, and then in rows and on disk
/// alike.
///
/// Where renaming a folder ends well, the permission gate has let the
/// principal pass, the new name is valid, the folder was there and no other
/// folder below the same parent had the new name. In the committed rows the
/// folder's row has the new name; every other row is what it was. On disk
/// the folder's directory, with all that was in it, has moved to the same
/// place under the new name. No transaction is left open.
pub proof fn lemma_edit_folder_effect(
    w: StoreView,
    id: u128,
    name: Seq<char>,
    user_id: u128,
    admin: bool,
    content: Seq<u8>,
)
    requires
        w.pending is None,
    ensures
        ({
            let op = OperationView::EditFolder { id, name };
            let (after, result) = run(op, user_id, admin, w, content);
            result is Ok ==> renamed_folder_well(w, after, id, name, user_id, admin, result->Ok_0)
        }),
{
    lemma_renaming_folder_run(
        w,
        id,
        name,
        user_id,
        admin,
        w,
        content,
        fresh_saga(),
        EventView::Start,
        MAX_STEPS as nat,
    );
}

/// What must hold of store `w` for file `id` to be renamed: the file is
/// there, the permission gate lets the principal pass for the file's folder,
/// the new name is valid, the folder has a path, and no other file in the
/// folder has the new name.
pub open spec fn may_rename_file(
    w: StoreView,
    id: u128,
    name: Seq<char>,
    user_id: u128,
    admin: bool,
) -> bool {
    let file = find_file(w.committed, id)->0;
    &&& has_file(w.committed.files, id)
    &&& permitted(w.committed.permissions, user_id, admin, file.folder_id, PermissionKind::Edit)
    &&& valid_name(name)
    &&& folder_path(w.committed.folders, file.folder_id) is Ok
    &&& !file_name_taken_by_other(w.committed.files, file.folder_id, name, id)
}

/// Where file `id` of store `w` is on disk once it is called `name`.
pub open spec fn file_place_as(w: StoreView, id: u128, name: Seq<char>) -> Seq<Seq<char>> {
    let file = find_file(w.committed, id)->0;
    folder_path(w.committed.folders, file.folder_id)->Ok_0.push(name)
}

/// What a renamed file has changed: its row has the new name and the time
/// of the change, the file is in the same directory under the new name, and
/// no transaction is left open.
pub open spec fn file_renamed(
    before: StoreView,
    after: StoreView,
    id: u128,
    name: Seq<char>,
) -> bool {
    &&& after.committed == rename_file_row(before.committed, id, name, before.clock).0
    &&& after.pending is None
    &&& rename(before.disk, file_place(before, id), file_place_as(before, id, name)) == (
        after.disk,
        EventView::Done,
    )
}

/// What holds while a file is being renamed and nothing has gone wrong.
pub open spec fn renaming_file_on_course(
    before: StoreView,
    id: u128,
    name: Seq<char>,
    user_id: u128,
    admin: bool,
    w: StoreView,
    s: SagaView,
    e: EventView,
) -> bool {
    let t0 = before.committed;
    let file = find_file(t0, id)->0;
    let untouched = w.committed == t0 && w.disk == before.disk && w.clock == before.clock;
    let found = has_file(t0.files, id) && s.folder_id == file.folder_id && s.name == file.name;
    let allowed = permitted(
        t0.permissions,
        user_id,
        admin,
        file.folder_id,
        PermissionKind::Edit,
    ) && valid_name(name);
    let resolved = folder_path(t0.folders, file.folder_id) is Ok && s.path == file_place(
        before,
        id,
    ) && s.dest == file_place_as(before, id, name);
    let renamed = rename_file_row(t0, id, name, before.clock);
    let done = renamed.1 is Affected;
    &&& before.pending is None
    &&& match s.stage {
        Stage::Start => w == before,
        Stage::Opening => e is Done ==> untouched && w.pending == Some(t0),
        Stage::Finding => e is FileRow ==> untouched && w.pending == Some(t0)
            && e->FileRow_0 == find_file(t0, id),
        Stage::Gating => e is Permissions ==> untouched && w.pending == Some(t0) && found
            && e->Permissions_0 == t0.permissions && !admin,
        Stage::Resolving => e is Folders ==> untouched && w.pending == Some(t0) && found
            && allowed && e->Folders_0 == t0.folders,
        Stage::Renaming => e is Affected && e->Affected_0 != 0 ==> w.committed == t0 && w.disk
            == before.disk && found && allowed && resolved && done && w.pending == Some(
            renamed.0,
        ),
        Stage::Moving => e is Done ==> w.committed == t0 && found && allowed && resolved && done
            && w.pending == Some(renamed.0) && rename(before.disk, s.path, s.dest) == (
            w.disk,
            EventView::Done,
        ),
        Stage::Committing => e is Done ==> found && allowed && resolved && done && w.committed
            == renamed.0 && w.pending is None && rename(before.disk, s.path, s.dest) == (
            w.disk,
            EventView::Done,
        ),
        _ => true,
    }
}

/// The file is renamed, and the saga says so.
pub open spec fn renamed_file_well(
    before: StoreView,
    after: StoreView,
    id: u128,
    name: Seq<char>,
    user_id: u128,
    admin: bool,
    reply: ReplyView,
) -> bool {
    &&& reply == ReplyView { status: Status::NoContent, message: "renamed file"@ }
    &&& may_rename_file(before, id, name, user_id, admin)
    &&& file_renamed(before, after, id, name)
}

/// One step keeps the renaming on course.
pub proof fn lemma_renaming_file_step_holds(
    before: StoreView,
    id: u128,
    name: Seq<char>,
    user_id: u128,
    admin: bool,
    w: StoreView,
    content: Seq<u8>,
    s: SagaView,
    e: EventView,
)
    requires
        renaming_file_on_course(before, id, name, user_id, admin, w, s, e),
    ensures
        ({
            let op = OperationView::EditFile { id, name };
            let (next, action) = step(op, user_id, admin, s, e);
            match action {
                ActionView::Finish(result) => result is Ok ==> renamed_file_well(
                    before,
                    w,
                    id,
                    name,
                    user_id,
                    admin,
                    result->Ok_0,
                ),
                _ => {
                    let (after, answer) = apply(w, action, content);
                    renaming_file_on_course(before, id, name, user_id, admin, after, next, answer)
                },
            }
        }),
{
    lemma_renaming_file_step(before, id, name, user_id, admin, w, content, s, e);
}

proof fn lemma_renaming_file_step(
    before: StoreView,
    id: u128,
    name: Seq<char>,
    user_id: u128,
    admin: bool,
    w: StoreView,
    content: Seq<u8>,
    s: SagaView,
    e: EventView,
)
    requires
        renaming_file_on_course(before, id, name, user_id, admin, w, s, e),
    ensures
        ({
            let op = OperationView::EditFile { id, name };
            let (next, action) = step(op, user_id, admin, s, e);
            match action {
                ActionView::Finish(result) => result is Ok ==> renamed_file_well(
                    before,
                    w,
                    id,
                    name,
                    user_id,
                    admin,
                    result->Ok_0,
                ),
                _ => {
                    let (after, answer) = apply(w, action, content);
                    renaming_file_on_course(before, id, name, user_id, admin, after, next, answer)
                },
            }
        }),
{
}

proof fn lemma_renaming_file_run(
    before: StoreView,
    id: u128,
    name: Seq<char>,
    user_id: u128,
    admin: bool,
    w: StoreView,
    content: Seq<u8>,
    s: SagaView,
    e: EventView,
    fuel: nat,
)
    requires
        renaming_file_on_course(before, id, name, user_id, admin, w, s, e),
    ensures
        ({
            let op = OperationView::EditFile { id, name };
            let (after, result) = run_from(op, user_id, admin, w, content, s, e, fuel);
            result is Ok ==> renamed_file_well(
                before,
                after,
                id,
                name,
                user_id,
                admin,
                result->Ok_0,
            )
        }),
    decreases fuel,
{
    let op = OperationView::EditFile { id, name };
    lemma_renaming_file_step(before, id, name, user_id, admin, w, content, s, e);
    let (next, action) = step(op, user_id, admin, s, e);
    if !(action is Finish) && fuel > 0 {
        let (after, answer) = apply(w, action, content);
        lemma_renaming_file_run(
            before,
            id,
            name,
            user_id,
            admin,
            after,
            content,
            next,
            answer,
            (fuel - 1) as nat,
        );
    }
}

/// A file is renamed only where it may be, and then in rows and on disk
/// alike.
///
/// Where renaming a file ends well, the file was there, the permission gate
/// has let the principal pass for the file's folder, the new name is valid
/// and no other file in the folder had it. In the committed rows the file's
/// row has the new name; every other row is what it was. On disk the file
/// is in the same directory under the new name. No transaction is left
/// open.
pub proof fn lemma_edit_file_effect(
    w: StoreView,
    id: u128,
    name: Seq<char>,
    user_id: u128,
    admin: bool,
    content: Seq<u8>,
)
    requires
        w.pending is None,
    ensures
        ({
            let op = OperationView::EditFile { id, name };
            let (after, result) = run(op, user_id, admin, w, content);
            result is Ok ==> renamed_file_well(w, after, id, name, user_id, admin, result->Ok_0)
        }),
{
    lemma_renaming_file_run(
        w,
        id,
        name,
        user_id,
        admin,
        w,
        content,
        fresh_saga(),
        EventView::Start,
        MAX_STEPS as nat,
    );
}

/// A renamed folder keeps what was in it: once a folder is renamed, every
/// entry of the disk is still there with the content it had. What was at or
/// below the folder's old place is at the same place below the new one, and
/// everything else is where it was.
pub proof fn lemma_renamed_folder_keeps_content(
    w: StoreView,
    id: u128,
    name: Seq<char>,
    user_id: u128,
    admin: bool,
    content: Seq<u8>,
    k: int,
)
    requires
        w.pending is None,
        run(OperationView::EditFolder { id, name }, user_id, admin, w, content).1 is Ok,
        0 <= k < w.disk.len(),
    ensures
        ({
            let after = run(OperationView::EditFolder { id, name }, user_id, admin, w, content).0;
            let path = folder_path(w.committed.folders, Some(id))->Ok_0;
            &&& after.disk.len() == w.disk.len()
            &&& after.disk[k].content == w.disk[k].content
            &&& after.disk[k].path == moved_path(w.disk[k].path, path, sibling_path(path, name))
        }),
{
    lemma_edit_folder_effect(w, id, name, user_id, admin, content);
    let path = folder_path(w.committed.folders, Some(id))->Ok_0;
    lemma_moved_keeps_content(w.disk, path, sibling_path(path, name), k);
}

} // verus!
