//! What a folder that was created has changed.
use crate::assets::{create_folder_step, created_folder_message};
use crate::disk::{dir_entry, make_dir};
use crate::models::{FailureView, FolderView, Permission, ReplyView, Status};
use crate::names::valid_name;
use crate::paths::{folder_path, has_folder, ResolveError};
use crate::perms::{first_row_at, grants, is_row_for, permitted, row_grants, PermissionKind};
use crate::saga::{fresh_saga, ActionView, EventView, SagaView, Stage};
use crate::store::{apply, run, run_from, step, MAX_STEPS, OperationView, StoreView};
use crate::laws::{lemma_create_folder_conflict, name_conflict, untouched};
use crate::listing::{folder_readable, folders_listed, lemma_folders_listed, SortOrder};
use crate::tables::{folder_known, folder_name_taken, has_row_for, TablesView};
use vstd::prelude::*;

verus! {

/// The row of the folder that `user_id` creates in store `w`.
pub open spec fn new_folder_row(
    w: StoreView,
    name: Seq<char>,
    parent: Option<u128>,
    user_id: u128,
) -> FolderView {
    FolderView {
        id: w.next_id,
        parent_id: parent,
        owner_id: user_id,
        name,
        created_at: w.clock,
        updated_at: w.clock,
    }
}

/// The row that grants the creator everything in the folder created in
/// store `w`.
pub open spec fn creator_grant(w: StoreView, user_id: u128) -> Permission {
    Permission {
        id: (w.next_id + 1) as u128,
        folder_id: Some(w.next_id),
        user_id,
        read: true,
        modify: true,
        edit: true,
    }
}

/// The rows of store `w` with the new folder.
pub open spec fn with_folder(
    w: StoreView,
    name: Seq<char>,
    parent: Option<u128>,
    user_id: u128,
) -> TablesView {
    TablesView {
        folders: w.committed.folders.push(new_folder_row(w, name, parent, user_id)),
        ..w.committed
    }
}

/// The rows of store `w` with the new folder and the creator's grant.
pub open spec fn with_folder_granted(
    w: StoreView,
    name: Seq<char>,
    parent: Option<u128>,
    user_id: u128,
) -> TablesView {
    TablesView {
        permissions: w.committed.permissions.push(creator_grant(w, user_id)),
        ..with_folder(w, name, parent, user_id)
    }
}

/// What must hold of store `w` for a folder to be created in it: the
/// permission gate lets the principal pass, the name is valid, the parent is
/// there, no sibling has the name, the creator has no row yet for the
/// identifier that the folder gets, and two identifiers are left.
pub open spec fn may_create_folder(
    w: StoreView,
    name: Seq<char>,
    parent: Option<u128>,
    user_id: u128,
    admin: bool,
) -> bool {
    &&& permitted(w.committed.permissions, user_id, admin, parent, PermissionKind::Edit)
    &&& valid_name(name)
    &&& folder_known(w.committed.folders, parent)
    &&& !folder_name_taken(w.committed.folders, parent, name)
    &&& !has_row_for(w.committed.permissions, user_id, Some(w.next_id))
    &&& w.next_id + 1 < u128::MAX
}

/// What a created folder has changed: the committed rows have the folder
/// and its creator's grant, the disk has the folder's directory, which was
/// not there before, and no transaction is left open.
pub open spec fn folder_created(
    before: StoreView,
    after: StoreView,
    name: Seq<char>,
    parent: Option<u128>,
    user_id: u128,
) -> bool {
    let rows = with_folder_granted(before, name, parent, user_id);
    &&& after.committed == rows
    &&& after.pending is None
    &&& folder_path(rows.folders, Some(before.next_id)) is Ok
    &&& after.disk == before.disk.push(
        dir_entry(folder_path(rows.folders, Some(before.next_id))->Ok_0),
    )
    &&& make_dir(before.disk, folder_path(rows.folders, Some(before.next_id))->Ok_0).1 is Done
}

/// The folder is created, and the saga says so.
pub open spec fn created_folder_well(
    before: StoreView,
    after: StoreView,
    name: Seq<char>,
    parent: Option<u128>,
    user_id: u128,
    admin: bool,
    reply: ReplyView,
) -> bool {
    &&& reply == ReplyView { status: Status::Created, message: created_folder_message(name) }
    &&& may_create_folder(before, name, parent, user_id, admin)
    &&& folder_created(before, after, name, parent, user_id)
}

/// What holds while a folder is being created and nothing has gone wrong.
pub open spec fn creating_on_course(
    before: StoreView,
    name: Seq<char>,
    parent: Option<u128>,
    user_id: u128,
    admin: bool,
    w: StoreView,
    s: SagaView,
    e: EventView,
) -> bool {
    let t0 = before.committed;
    let t1 = with_folder(before, name, parent, user_id);
    let t2 = with_folder_granted(before, name, parent, user_id);
    let id = before.next_id;
    let untouched = w.committed == t0 && w.disk == before.disk;
    let allowed = may_create_folder(before, name, parent, user_id, admin);
    &&& before.pending is None
    &&& match s.stage {
        Stage::Start => w == before,
        Stage::Opening => e is Done ==> untouched && w.pending == Some(t0) && w.next_id == id
            && w.clock == before.clock,
        Stage::Gating => e is Permissions ==> untouched && w.pending == Some(t0) && w.next_id
            == id && w.clock == before.clock && e->Permissions_0 == t0.permissions && !admin,
        Stage::Inserting => e is Inserted ==> untouched && e->Inserted_0 == id && w.pending
            == Some(t1) && w.next_id == id + 1 && folder_known(t0.folders, parent)
            && !folder_name_taken(t0.folders, parent, name) && valid_name(name) && permitted(
            t0.permissions,
            user_id,
            admin,
            parent,
            PermissionKind::Edit,
        ),
        Stage::Granting => e is Done ==> untouched && allowed && s.id == id && w.pending == Some(
            t2,
        ),
        Stage::Resolving => e is Folders ==> untouched && allowed && s.id == id && w.pending
            == Some(t2) && e->Folders_0 == t2.folders,
        Stage::MakingDir => e is Done ==> allowed && w.committed == t0 && w.pending == Some(t2)
            && folder_path(t2.folders, Some(id)) == Ok::<Seq<Seq<char>>, ResolveError>(s.path)
            && make_dir(before.disk, s.path) == (w.disk, EventView::Done),
        Stage::Committing => e is Done ==> allowed && w.committed == t2 && w.pending is None
            && folder_path(t2.folders, Some(id)) == Ok::<Seq<Seq<char>>, ResolveError>(s.path)
            && make_dir(before.disk, s.path) == (w.disk, EventView::Done),
        _ => true,
    }
}

/// One step on, a creation that was on course still is; and where the step
/// ends it well, the folder is created.
pub open spec fn creating_after_step(
    before: StoreView,
    name: Seq<char>,
    parent: Option<u128>,
    user_id: u128,
    admin: bool,
    w: StoreView,
    content: Seq<u8>,
    s: SagaView,
    e: EventView,
) -> bool {
    let (next, action) = create_folder_step(name, parent, user_id, admin, s, e);
    match action {
        ActionView::Finish(result) => result is Ok ==> {
            &&& result->Ok_0 == ReplyView {
                status: Status::Created,
                message: created_folder_message(name),
            }
            &&& may_create_folder(before, name, parent, user_id, admin)
            &&& folder_created(before, w, name, parent, user_id)
        },
        _ => {
            let (after, answer) = apply(w, action, content);
            creating_on_course(before, name, parent, user_id, admin, after, next, answer)
        },
    }
}

/// One step keeps a creation on course.
pub proof fn lemma_creating_step_holds(
    before: StoreView,
    name: Seq<char>,
    parent: Option<u128>,
    user_id: u128,
    admin: bool,
    w: StoreView,
    content: Seq<u8>,
    s: SagaView,
    e: EventView,
)
    requires
        creating_on_course(before, name, parent, user_id, admin, w, s, e),
    ensures
        creating_after_step(before, name, parent, user_id, admin, w, content, s, e),
{
    lemma_creating_step(before, name, parent, user_id, admin, w, content, s, e);
}

proof fn lemma_creating_step(
    before: StoreView,
    name: Seq<char>,
    parent: Option<u128>,
    user_id: u128,
    admin: bool,
    w: StoreView,
    content: Seq<u8>,
    s: SagaView,
    e: EventView,
)
    requires
        creating_on_course(before, name, parent, user_id, admin, w, s, e),
    ensures
        creating_after_step(before, name, parent, user_id, admin, w, content, s, e),
{
}

proof fn lemma_creating_run(
    before: StoreView,
    name: Seq<char>,
    parent: Option<u128>,
    user_id: u128,
    admin: bool,
    w: StoreView,
    content: Seq<u8>,
    s: SagaView,
    e: EventView,
    fuel: nat,
)
    requires
        creating_on_course(before, name, parent, user_id, admin, w, s, e),
    ensures
        ({
            let op = OperationView::CreateFolder { name, parent };
            let (after, result) = run_from(op, user_id, admin, w, content, s, e, fuel);
            result is Ok ==> {
                &&& result->Ok_0 == ReplyView {
                    status: Status::Created,
                    message: created_folder_message(name),
                }
                &&& may_create_folder(before, name, parent, user_id, admin)
                &&& folder_created(before, after, name, parent, user_id)
            }
        }),
    decreases fuel,
{
    let op = OperationView::CreateFolder { name, parent };
    lemma_creating_step(before, name, parent, user_id, admin, w, content, s, e);
    let (next, action) = step(op, user_id, admin, s, e);
    if !(action is Finish) && fuel > 0 {
        let (after, answer) = apply(w, action, content);
        lemma_creating_run(
            before,
            name,
            parent,
            user_id,
            admin,
            after,
            content,
            next,
            answer,
            (fuel - 1) as nat,
        );
    }
}

/// A folder is created only where it may be, and then exactly as asked.
///
/// Where creating a folder ends well, the permission gate has let the
/// principal pass, the name is valid, the parent is there and no sibling had
/// the name. The committed rows are the old ones with the folder's row and
/// its creator's grant put last; the disk is the old one with the folder's
/// directory, at the path that the new rows resolve the folder to; and no
/// transaction is left open.
pub proof fn lemma_create_folder_effect(
    w: StoreView,
    name: Seq<char>,
    parent: Option<u128>,
    user_id: u128,
    admin: bool,
    content: Seq<u8>,
)
    requires
        w.pending is None,
    ensures
        ({
            let op = OperationView::CreateFolder { name, parent };
            let (after, result) = run(op, user_id, admin, w, content);
            result is Ok ==> {
                &&& result->Ok_0 == ReplyView {
                    status: Status::Created,
                    message: created_folder_message(name),
                }
                &&& may_create_folder(w, name, parent, user_id, admin)
                &&& folder_created(w, after, name, parent, user_id)
            }
        }),
{
    lemma_creating_run(
        w,
        name,
        parent,
        user_id,
        admin,
        w,
        content,
        fresh_saga(),
        EventView::Start,
        MAX_STEPS as nat,
    );
}

/// Who creates a folder gets to see it: once a folder is created, the
/// listing of its parent, made for the creator in whatever order, holds the
/// new folder.
pub proof fn lemma_created_folder_is_listed(
    w: StoreView,
    name: Seq<char>,
    parent: Option<u128>,
    user_id: u128,
    admin: bool,
    content: Seq<u8>,
    order: SortOrder,
)
    requires
        w.pending is None,
        run(OperationView::CreateFolder { name, parent }, user_id, admin, w, content).1 is Ok,
    ensures
        ({
            let after = run(
                OperationView::CreateFolder { name, parent },
                user_id,
                admin,
                w,
                content,
            ).0;
            folders_listed(
                after.committed.folders,
                after.committed.permissions,
                parent,
                order,
                user_id,
                admin,
            ).contains(new_folder_row(w, name, parent, user_id))
        }),
{
    lemma_create_folder_effect(w, name, parent, user_id, admin, content);
    let after = run(OperationView::CreateFolder { name, parent }, user_id, admin, w, content).0;
    let row = new_folder_row(w, name, parent, user_id);
    let folders = after.committed.folders;
    let rows = after.committed.permissions;
    assert(folders[folders.len() - 1] == row);
    assert(folders.contains(row));
    if !admin {
        let last = rows.len() - 1;
        assert(rows[last] == creator_grant(w, user_id));
        assert forall|j: int| 0 <= j < last implies !is_row_for(
            #[trigger] rows[j],
            user_id,
            Some(w.next_id),
        ) by {
            assert(rows[j] == w.committed.permissions[j]);
        }
        assert(first_row_at(rows, user_id, Some(w.next_id), last));
        assert(grants(rows[last], PermissionKind::Read));
        assert(row_grants(rows, user_id, Some(w.next_id), PermissionKind::Read));
    }
    assert(folder_readable(rows, user_id, admin, row));
    lemma_folders_listed(folders, rows, parent, order, user_id, admin);
}

/// One name, one folder: once a folder is created, creating a folder of
/// the same name below the same parent ends in a conflict and changes
/// nothing, whoever tries, as long as they may create folders there and no
/// request fails.
pub proof fn lemma_same_name_again_conflicts(
    w: StoreView,
    name: Seq<char>,
    parent: Option<u128>,
    first: (u128, bool),
    second: (u128, bool),
    content: Seq<u8>,
)
    requires
        w.pending is None,
        run(OperationView::CreateFolder { name, parent }, first.0, first.1, w, content).1 is Ok,
        ({
            let between = run(
                OperationView::CreateFolder { name, parent },
                first.0,
                first.1,
                w,
                content,
            ).0;
            &&& between.faults.len() == 0
            &&& between.next_id < u128::MAX
            &&& permitted(
                between.committed.permissions,
                second.0,
                second.1,
                parent,
                PermissionKind::Edit,
            )
        }),
    ensures
        ({
            let op = OperationView::CreateFolder { name, parent };
            let between = run(op, first.0, first.1, w, content).0;
            let (after, result) = run(op, second.0, second.1, between, content);
            &&& result == Err::<ReplyView, FailureView>(name_conflict(op))
            &&& untouched(between, after)
        }),
{
    let op = OperationView::CreateFolder { name, parent };
    lemma_create_folder_effect(w, name, parent, first.0, first.1, content);
    let between = run(op, first.0, first.1, w, content).0;
    let folders = between.committed.folders;
    let row = new_folder_row(w, name, parent, first.0);
    assert(folders[folders.len() - 1] == row);
    assert(folder_name_taken(folders, parent, name));
    if parent is Some {
        let k = choose|k: int|
            0 <= k < w.committed.folders.len() && (#[trigger] w.committed.folders[k]).id
                == parent->0;
        assert(folders[k].id == parent->0);
    }
    lemma_create_folder_conflict(between, name, parent, second.0, second.1, content);
}

/// Where a folder may be created, it is: with no request failing, creating
/// a folder ends well wherever the principal may create it and the
/// directory can be made at the place that the new rows resolve the folder
/// to.
pub proof fn lemma_create_folder_succeeds(
    w: StoreView,
    name: Seq<char>,
    parent: Option<u128>,
    user_id: u128,
    admin: bool,
    content: Seq<u8>,
)
    requires
        w.pending is None,
        w.faults.len() == 0,
        may_create_folder(w, name, parent, user_id, admin),
        folder_path(with_folder_granted(w, name, parent, user_id).folders, Some(w.next_id)) is Ok,
        make_dir(
            w.disk,
            folder_path(
                with_folder_granted(w, name, parent, user_id).folders,
                Some(w.next_id),
            )->Ok_0,
        ).1 is Done,
    ensures
        run(OperationView::CreateFolder { name, parent }, user_id, admin, w, content).1 is Ok,
{
    let row = new_folder_row(w, name, parent, user_id);
    let t1 = with_folder(w, name, parent, user_id);
    assert(t1.folders[t1.folders.len() - 1] == row);
    assert(has_folder(t1.folders, w.next_id));
    reveal_with_fuel(run_from, 9);
}

} // verus!
