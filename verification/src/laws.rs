//! What holds of every mutation, whatever the store it starts from and
//! whichever requests fail.
use crate::models::{failure, ErrorKind, FailureView, ReplyView};
use crate::perms::{forbidden, permitted, row_grants, PermissionKind};
use crate::saga::{fresh_saga, ActionView, EventView, SagaView, Stage};
use crate::store::{apply, run, run_from, step, MAX_STEPS, OperationView, StoreView};
use crate::assets::{invalid_name, not_found, stored_name};
use crate::names::{name_verdict, valid_name};
use crate::paths::{folder_path, has_folder, position};
use crate::tables::{
    file_name_taken, find_file, folder_known, folder_name_taken, folder_name_taken_by_other,
    has_file,
};
use vstd::prelude::*;

verus! {

/// The folder whose permission row decides whether `op` may run, where
/// that can be told from the request alone.
pub open spec fn gated_folder(op: OperationView) -> Option<Option<u128>> {
    match op {
        OperationView::CreateFolder { name, parent } => Some(parent),
        OperationView::DeleteFolder { id } => Some(Some(id)),
        OperationView::EditFolder { id, name } => Some(Some(id)),
        OperationView::UploadFile { file_name, folder, name, overwrite } => Some(folder),
        _ => None,
    }
}

/// The capability that `op` asks for.
pub open spec fn needed_capability(op: OperationView) -> PermissionKind {
    match op {
        OperationView::DeleteFolder { id } => PermissionKind::Modify,
        OperationView::EditFolder { id, name } => PermissionKind::Modify,
        _ => PermissionKind::Edit,
    }
}

/// Without the capability, nothing happens: a principal who is no
/// administrator and whose row for the folder does not grant what the
/// mutation asks for is refused, and the committed rows and the disk are
/// what they were. With no fault planted the refusal is exactly the
/// permission gate's.
pub proof fn lemma_refused_without_capability(
    op: OperationView,
    user_id: u128,
    w: StoreView,
    content: Seq<u8>,
)
    requires
        w.pending is None,
        gated_folder(op) is Some,
        !row_grants(
            w.committed.permissions,
            user_id,
            gated_folder(op)->0,
            needed_capability(op),
        ),
    ensures
        run(op, user_id, false, w, content).1 is Err,
        run(op, user_id, false, w, content).0.committed == w.committed,
        run(op, user_id, false, w, content).0.disk == w.disk,
        run(op, user_id, false, w, content).0.pending is None,
        w.faults.len() == 0 ==> run(op, user_id, false, w, content).1 == Err::<
            ReplyView,
            FailureView,
        >(forbidden(needed_capability(op))),
{
    reveal_with_fuel(run_from, 5);
}

/// An administrator's saga never waits for permission rows and keeps no
/// refusal to report.
pub open spec fn never_refusing(s: SagaView) -> bool {
    s.stage != Stage::Gating && (s.verdict is Some ==> s.verdict->0.kind != ErrorKind::Forbidden)
}

proof fn lemma_admin_step(op: OperationView, user_id: u128, s: SagaView, e: EventView)
    requires
        never_refusing(s),
    ensures
        ({
            let (next, action) = step(op, user_id, true, s, e);
            &&& never_refusing(next)
            &&& action is Finish && action->Finish_0 is Err ==> action->Finish_0->Err_0.kind
                != ErrorKind::Forbidden
        }),
{
}

proof fn lemma_admin_run(
    op: OperationView,
    user_id: u128,
    w: StoreView,
    content: Seq<u8>,
    s: SagaView,
    e: EventView,
    fuel: nat,
)
    requires
        never_refusing(s),
    ensures
        ({
            let result = run_from(op, user_id, true, w, content, s, e, fuel).1;
            result is Err ==> result->Err_0.kind != ErrorKind::Forbidden
        }),
    decreases fuel,
{
    lemma_admin_step(op, user_id, s, e);
    let (next, action) = step(op, user_id, true, s, e);
    if !(action is Finish) && fuel > 0 {
        let (after, answer) = apply(w, action, content);
        lemma_admin_run(op, user_id, after, content, next, answer, (fuel - 1) as nat);
    }
}

/// An administrator is never refused: whatever the mutation, the store and
/// the permission rows, and whichever requests fail, the result is no
/// refusal by the permission gate.
pub proof fn lemma_admin_never_refused(
    op: OperationView,
    user_id: u128,
    w: StoreView,
    content: Seq<u8>,
)
    ensures
        ({
            let result = run(op, user_id, true, w, content).1;
            result is Err ==> result->Err_0.kind != ErrorKind::Forbidden
        }),
{
    lemma_admin_run(op, user_id, w, content, fresh_saga(), EventView::Start, MAX_STEPS as nat);
}

/// The kinds of failure that are found before anything was changed.
pub open spec fn found_early(kind: ErrorKind) -> bool {
    kind == ErrorKind::InvalidName || kind == ErrorKind::Forbidden || kind == ErrorKind::Conflict
        || kind == ErrorKind::NotFound
}

/// The store is where it was: the committed rows and the disk are
/// unchanged and no transaction is open.
pub open spec fn untouched(before: StoreView, after: StoreView) -> bool {
    after.committed == before.committed && after.disk == before.disk && after.pending is None
}

/// The stages in which a saga has not yet asked anything of the disk.
pub open spec fn before_disk(stage: Stage) -> bool {
    stage == Stage::Start || stage == Stage::Opening || stage == Stage::Finding || stage
        == Stage::Gating || stage == Stage::Resolving || stage == Stage::Probing || stage
        == Stage::Inserting || stage == Stage::Granting || stage == Stage::Deleting || stage
        == Stage::Renaming || stage == Stage::Unlinking
}

/// What holds of a saga under way, as far as failures that are found early
/// are concerned.
///
/// Until the commit the committed rows are what they were, and until the
/// first request to the disk so is the disk. A saga that waits for its
/// rollback has no transaction left, and where the failure it keeps is one
/// that is found early, the disk is what it was. A failure kept through a
/// cleanup is never one that is found early. An upload that has come to
/// store its content has made sure that no row of its name is in the way.
pub open spec fn clean_so_far(
    op: OperationView,
    before: StoreView,
    w: StoreView,
    s: SagaView,
    e: EventView,
) -> bool {
    let committed = (s.stage == Stage::Committing && e is Done) || s.stage == Stage::Removing
        || s.stage == Stage::Finished;
    &&& before.pending is None
    &&& !committed ==> w.committed == before.committed
    &&& before_disk(s.stage) ==> w.disk == before.disk
    &&& s.stage == Stage::Start ==> w.pending is None
    &&& s.stage == Stage::Opening && !(e is Done) ==> w.pending is None
    &&& s.stage == Stage::Aborting ==> {
        &&& w.pending is None
        &&& s.verdict is Some
        &&& found_early(s.verdict->0.kind) ==> w.disk == before.disk
    }
    &&& s.stage == Stage::Scrubbing || s.stage == Stage::Undoing ==> s.verdict is Some
        && !found_early(s.verdict->0.kind)
    &&& op is UploadFile ==> {
        let folder = op->UploadFile_folder;
        let free = !file_name_taken(w.visible().files, folder, s.name);
        &&& s.stage == Stage::Probing && e is Exists ==> e->Exists_0 == !free
        &&& s.stage == Stage::Unlinking && e is Affected ==> free
        &&& s.stage == Stage::Clearing || s.stage == Stage::Preparing || s.stage
            == Stage::Writing ==> free
        &&& s.stage == Stage::Recording ==> !(e is Duplicate)
    }
}

/// One step on, what held of the saga still holds; and where the step
/// ends the saga in a failure that is found early, the store is where it
/// was.
pub open spec fn clean_after_step(
    op: OperationView,
    user_id: u128,
    admin: bool,
    before: StoreView,
    w: StoreView,
    content: Seq<u8>,
    s: SagaView,
    e: EventView,
) -> bool {
    let (next, action) = step(op, user_id, admin, s, e);
    match action {
        ActionView::Finish(result) => result is Err && found_early(result->Err_0.kind)
            ==> untouched(before, w),
        _ => {
            let (after, answer) = apply(w, action, content);
            clean_so_far(op, before, after, next, answer)
        },
    }
}

proof fn lemma_clean_step_create_folder(
    op: OperationView,
    user_id: u128,
    admin: bool,
    before: StoreView,
    w: StoreView,
    content: Seq<u8>,
    s: SagaView,
    e: EventView,
)
    requires
        op is CreateFolder,
        clean_so_far(op, before, w, s, e),
    ensures
        clean_after_step(op, user_id, admin, before, w, content, s, e),
{
}

proof fn lemma_clean_step_delete_folder(
    op: OperationView,
    user_id: u128,
    admin: bool,
    before: StoreView,
    w: StoreView,
    content: Seq<u8>,
    s: SagaView,
    e: EventView,
)
    requires
        op is DeleteFolder,
        clean_so_far(op, before, w, s, e),
    ensures
        clean_after_step(op, user_id, admin, before, w, content, s, e),
{
}

proof fn lemma_clean_step_edit_folder(
    op: OperationView,
    user_id: u128,
    admin: bool,
    before: StoreView,
    w: StoreView,
    content: Seq<u8>,
    s: SagaView,
    e: EventView,
)
    requires
        op is EditFolder,
        clean_so_far(op, before, w, s, e),
    ensures
        clean_after_step(op, user_id, admin, before, w, content, s, e),
{
}

proof fn lemma_clean_step_upload_file(
    op: OperationView,
    user_id: u128,
    admin: bool,
    before: StoreView,
    w: StoreView,
    content: Seq<u8>,
    s: SagaView,
    e: EventView,
)
    requires
        op is UploadFile,
        clean_so_far(op, before, w, s, e),
    ensures
        clean_after_step(op, user_id, admin, before, w, content, s, e),
{
    let (next, action) = step(op, user_id, admin, s, e);
    if action is DeleteFileNamed {
        let t = w.counted().visible();
        let folder = action->DeleteFileNamed_folder_id;
        let name = action->DeleteFileNamed_name;
        let other = |f: crate::models::FileView| !(f.folder_id == folder && f.name == name);
        let kept = t.files.filter(other);
        assert forall|i: int| 0 <= i < kept.len() implies other(#[trigger] kept[i]) by {
            t.files.lemma_filter_pred(other, i);
        }
        assert(!file_name_taken(kept, folder, name));
    }
}

proof fn lemma_clean_step_delete_file(
    op: OperationView,
    user_id: u128,
    admin: bool,
    before: StoreView,
    w: StoreView,
    content: Seq<u8>,
    s: SagaView,
    e: EventView,
)
    requires
        op is DeleteFile,
        clean_so_far(op, before, w, s, e),
    ensures
        clean_after_step(op, user_id, admin, before, w, content, s, e),
{
}

proof fn lemma_clean_step_edit_file(
    op: OperationView,
    user_id: u128,
    admin: bool,
    before: StoreView,
    w: StoreView,
    content: Seq<u8>,
    s: SagaView,
    e: EventView,
)
    requires
        op is EditFile,
        clean_so_far(op, before, w, s, e),
    ensures
        clean_after_step(op, user_id, admin, before, w, content, s, e),
{
}

proof fn lemma_clean_step(
    op: OperationView,
    user_id: u128,
    admin: bool,
    before: StoreView,
    w: StoreView,
    content: Seq<u8>,
    s: SagaView,
    e: EventView,
)
    requires
        clean_so_far(op, before, w, s, e),
    ensures
        clean_after_step(op, user_id, admin, before, w, content, s, e),
{
    match op {
        OperationView::CreateFolder { .. } => lemma_clean_step_create_folder(
            op,
            user_id,
            admin,
            before,
            w,
            content,
            s,
            e,
        ),
        OperationView::DeleteFolder { .. } => lemma_clean_step_delete_folder(
            op,
            user_id,
            admin,
            before,
            w,
            content,
            s,
            e,
        ),
        OperationView::EditFolder { .. } => lemma_clean_step_edit_folder(
            op,
            user_id,
            admin,
            before,
            w,
            content,
            s,
            e,
        ),
        OperationView::UploadFile { .. } => lemma_clean_step_upload_file(
            op,
            user_id,
            admin,
            before,
            w,
            content,
            s,
            e,
        ),
        OperationView::DeleteFile { .. } => lemma_clean_step_delete_file(
            op,
            user_id,
            admin,
            before,
            w,
            content,
            s,
            e,
        ),
        OperationView::EditFile { .. } => lemma_clean_step_edit_file(
            op,
            user_id,
            admin,
            before,
            w,
            content,
            s,
            e,
        ),
    }
}

proof fn lemma_clean_run(
    op: OperationView,
    user_id: u128,
    admin: bool,
    before: StoreView,
    w: StoreView,
    content: Seq<u8>,
    s: SagaView,
    e: EventView,
    fuel: nat,
)
    requires
        clean_so_far(op, before, w, s, e),
    ensures
        ({
            let (after, result) = run_from(op, user_id, admin, w, content, s, e, fuel);
            result is Err && found_early(result->Err_0.kind) ==> untouched(before, after)
        }),
    decreases fuel,
{
    lemma_clean_step(op, user_id, admin, before, w, content, s, e);
    let (next, action) = step(op, user_id, admin, s, e);
    if !(action is Finish) && fuel > 0 {
        let (after, answer) = apply(w, action, content);
        lemma_clean_run(
            op,
            user_id,
            admin,
            before,
            after,
            content,
            next,
            answer,
            (fuel - 1) as nat,
        );
    }
}

/// What is found early changes nothing: where a mutation ends in an
/// invalid name, a refusal, a conflict or a missing target, the committed
/// rows and the disk are what they were and no transaction is left open,
/// whatever the store and whichever requests fail.
pub proof fn lemma_early_failures_change_nothing(
    op: OperationView,
    user_id: u128,
    admin: bool,
    w: StoreView,
    content: Seq<u8>,
)
    requires
        w.pending is None,
    ensures
        ({
            let (after, result) = run(op, user_id, admin, w, content);
            result is Err && found_early(result->Err_0.kind) ==> untouched(w, after)
        }),
{
    lemma_clean_run(
        op,
        user_id,
        admin,
        w,
        w,
        content,
        fresh_saga(),
        EventView::Start,
        MAX_STEPS as nat,
    );
}

/// What a mutation is told where the name it brings is taken.
pub open spec fn name_conflict(op: OperationView) -> FailureView {
    if op is UploadFile {
        failure(ErrorKind::Conflict, "file with this name already exists"@)
    } else {
        failure(ErrorKind::Conflict, "folder with this name already exists"@)
    }
}

/// A second folder of the same name is a conflict: where the principal
/// may create folders below the parent and the name is valid but taken by a
/// sibling, creating the folder ends in a conflict and leaves the store where
/// it was, as long as no request fails.
pub proof fn lemma_create_folder_conflict(
    w: StoreView,
    name: Seq<char>,
    parent: Option<u128>,
    user_id: u128,
    admin: bool,
    content: Seq<u8>,
)
    requires
        w.pending is None,
        w.faults.len() == 0,
        w.next_id < u128::MAX,
        permitted(w.committed.permissions, user_id, admin, parent, PermissionKind::Edit),
        valid_name(name),
        folder_known(w.committed.folders, parent),
        folder_name_taken(w.committed.folders, parent, name),
    ensures
        ({
            let op = OperationView::CreateFolder { name, parent };
            let (after, result) = run(op, user_id, admin, w, content);
            &&& result == Err::<ReplyView, FailureView>(name_conflict(op))
            &&& untouched(w, after)
        }),
{
    reveal_with_fuel(run_from, 6);
}

/// Renaming a folder onto a sibling is a conflict: where the principal may
/// modify the folder and the new name is valid but taken by another folder
/// below the same parent, renaming ends in a conflict and leaves the store
/// where it was, as long as no request fails.
pub proof fn lemma_edit_folder_conflict(
    w: StoreView,
    id: u128,
    name: Seq<char>,
    user_id: u128,
    admin: bool,
    content: Seq<u8>,
)
    requires
        w.pending is None,
        w.faults.len() == 0,
        permitted(w.committed.permissions, user_id, admin, Some(id), PermissionKind::Modify),
        valid_name(name),
        has_folder(w.committed.folders, id),
        folder_path(w.committed.folders, Some(id)) is Ok,
        folder_path(w.committed.folders, Some(id))->Ok_0.len() > 0,
        folder_name_taken_by_other(
            w.committed.folders,
            w.committed.folders[position(w.committed.folders, id)].parent_id,
            name,
            id,
        ),
    ensures
        ({
            let op = OperationView::EditFolder { id, name };
            let (after, result) = run(op, user_id, admin, w, content);
            &&& result == Err::<ReplyView, FailureView>(name_conflict(op))
            &&& untouched(w, after)
        }),
{
    reveal_with_fuel(run_from, 7);
}

/// Storing a file where one of the name is, without asking to overwrite,
/// is a conflict: the existing row and the existing bytes stay as they are,
/// as long as no request fails.
pub proof fn lemma_upload_file_conflict(
    w: StoreView,
    op: OperationView,
    user_id: u128,
    admin: bool,
    content: Seq<u8>,
)
    requires
        op is UploadFile,
        !op->UploadFile_overwrite,
        w.pending is None,
        w.faults.len() == 0,
        permitted(
            w.committed.permissions,
            user_id,
            admin,
            op->UploadFile_folder,
            PermissionKind::Edit,
        ),
        valid_name(stored_name(op->UploadFile_file_name, op->UploadFile_name)),
        folder_path(w.committed.folders, op->UploadFile_folder) is Ok,
        file_name_taken(
            w.committed.files,
            op->UploadFile_folder,
            stored_name(op->UploadFile_file_name, op->UploadFile_name),
        ),
    ensures
        ({
            let (after, result) = run(op, user_id, admin, w, content);
            &&& result == Err::<ReplyView, FailureView>(name_conflict(op))
            &&& untouched(w, after)
        }),
{
    reveal_with_fuel(run_from, 7);
}

/// The name that a mutation brings, where it brings one.
pub open spec fn name_brought(op: OperationView) -> Option<Seq<char>> {
    match op {
        OperationView::CreateFolder { name, parent } => Some(name),
        OperationView::EditFolder { id, name } => Some(name),
        OperationView::UploadFile { file_name, folder, name, overwrite } => Some(
            stored_name(file_name, name),
        ),
        _ => None,
    }
}

/// An invalid name goes nowhere: where the principal passes the permission
/// gate but the name is not valid, the mutation ends in the validator's
/// rejection and leaves the store where it was, as long as no request fails.
pub proof fn lemma_invalid_name_rejected(
    w: StoreView,
    op: OperationView,
    user_id: u128,
    admin: bool,
    content: Seq<u8>,
)
    requires
        gated_folder(op) is Some,
        name_brought(op) is Some,
        w.pending is None,
        w.faults.len() == 0,
        permitted(
            w.committed.permissions,
            user_id,
            admin,
            gated_folder(op)->0,
            needed_capability(op),
        ),
        !valid_name(name_brought(op)->0),
    ensures
        ({
            let (after, result) = run(op, user_id, admin, w, content);
            &&& name_verdict(name_brought(op)->0) is Err
            &&& result == Err::<ReplyView, FailureView>(
                invalid_name(name_verdict(name_brought(op)->0)->Err_0),
            )
            &&& untouched(w, after)
        }),
{
    reveal_with_fuel(run_from, 5);
}

/// A folder that is not there is not found: where the principal passes the
/// permission gate but no folder has the identifier, deleting or renaming it
/// ends as not found, before anything is asked of the disk, as long as no
/// request fails.
pub proof fn lemma_missing_folder_not_found(
    w: StoreView,
    op: OperationView,
    user_id: u128,
    admin: bool,
    content: Seq<u8>,
)
    requires
        op is DeleteFolder || op is EditFolder,
        op is EditFolder ==> valid_name(op->EditFolder_name),
        w.pending is None,
        w.faults.len() == 0,
        permitted(
            w.committed.permissions,
            user_id,
            admin,
            gated_folder(op)->0,
            PermissionKind::Modify,
        ),
        !has_folder(w.committed.folders, gated_folder(op)->0->0),
    ensures
        ({
            let (after, result) = run(op, user_id, admin, w, content);
            &&& result == Err::<ReplyView, FailureView>(not_found("folder not found"@))
            &&& untouched(w, after)
        }),
{
    reveal_with_fuel(run_from, 6);
}

/// The file that deleting or renaming a file is about.
pub open spec fn file_meant(op: OperationView) -> u128 {
    if op is DeleteFile {
        op->DeleteFile_id
    } else {
        op->EditFile_id
    }
}

/// A file that is not there is not found: deleting or renaming a file
/// whose identifier no row has ends as not found, whoever asks, as long as no
/// request fails.
pub proof fn lemma_missing_file_not_found(
    w: StoreView,
    op: OperationView,
    user_id: u128,
    admin: bool,
    content: Seq<u8>,
)
    requires
        op is DeleteFile || op is EditFile,
        w.pending is None,
        w.faults.len() == 0,
        !has_file(w.committed.files, file_meant(op)),
    ensures
        ({
            let (after, result) = run(op, user_id, admin, w, content);
            &&& result == Err::<ReplyView, FailureView>(not_found("file not found"@))
            &&& untouched(w, after)
        }),
{
    reveal_with_fuel(run_from, 5);
}

/// Without `Edit` on a file's folder the file stays as it is: a principal
/// who is no administrator and whose row for the folder of the file does not
/// grant `Edit` can neither delete nor rename the file. The committed rows
/// and the disk are what they were, and with no fault planted the refusal is
/// exactly the permission gate's.
pub proof fn lemma_file_refused_without_capability(
    w: StoreView,
    op: OperationView,
    user_id: u128,
    content: Seq<u8>,
)
    requires
        op is DeleteFile || op is EditFile,
        w.pending is None,
        has_file(w.committed.files, file_meant(op)),
        !row_grants(
            w.committed.permissions,
            user_id,
            find_file(w.committed, file_meant(op))->0.folder_id,
            PermissionKind::Edit,
        ),
    ensures
        run(op, user_id, false, w, content).1 is Err,
        untouched(w, run(op, user_id, false, w, content).0),
        w.faults.len() == 0 ==> run(op, user_id, false, w, content).1 == Err::<
            ReplyView,
            FailureView,
        >(forbidden(PermissionKind::Edit)),
{
    reveal_with_fuel(run_from, 6);
}

/// How far a saga in a stage is from its end, at most: a number that
/// every step makes smaller.
pub open spec fn rank(stage: Stage) -> nat {
    match stage {
        Stage::Start => 23,
        Stage::Opening => 22,
        Stage::Finding => 21,
        Stage::Gating => 20,
        Stage::Inserting => 19,
        Stage::Granting => 18,
        Stage::Resolving => 17,
        Stage::Probing => 16,
        Stage::Unlinking => 15,
        Stage::Clearing => 14,
        Stage::Preparing => 13,
        Stage::Writing => 12,
        Stage::Recording => 11,
        Stage::Deleting => 10,
        Stage::Renaming => 9,
        Stage::MakingDir => 8,
        Stage::Moving => 7,
        Stage::Committing => 6,
        Stage::Removing => 5,
        Stage::Undoing => 4,
        Stage::Scrubbing => 3,
        Stage::Aborting => 2,
        Stage::Finished => 1,
    }
}

/// The step does not end the saga and leaves it in a stage of smaller
/// rank, or it ends the saga.
pub open spec fn advances(
    op: OperationView,
    user_id: u128,
    admin: bool,
    s: SagaView,
    e: EventView,
) -> bool {
    let (next, action) = step(op, user_id, admin, s, e);
    !(action is Finish) ==> rank(next.stage) < rank(s.stage)
}

proof fn lemma_create_folder_advances(
    op: OperationView,
    user_id: u128,
    admin: bool,
    s: SagaView,
    e: EventView,
)
    requires
        op is CreateFolder,
    ensures
        advances(op, user_id, admin, s, e),
{
}

proof fn lemma_delete_folder_advances(
    op: OperationView,
    user_id: u128,
    admin: bool,
    s: SagaView,
    e: EventView,
)
    requires
        op is DeleteFolder,
    ensures
        advances(op, user_id, admin, s, e),
{
}

proof fn lemma_edit_folder_advances(
    op: OperationView,
    user_id: u128,
    admin: bool,
    s: SagaView,
    e: EventView,
)
    requires
        op is EditFolder,
    ensures
        advances(op, user_id, admin, s, e),
{
}

proof fn lemma_upload_file_advances(
    op: OperationView,
    user_id: u128,
    admin: bool,
    s: SagaView,
    e: EventView,
)
    requires
        op is UploadFile,
    ensures
        advances(op, user_id, admin, s, e),
{
}

proof fn lemma_delete_file_advances(
    op: OperationView,
    user_id: u128,
    admin: bool,
    s: SagaView,
    e: EventView,
)
    requires
        op is DeleteFile,
    ensures
        advances(op, user_id, admin, s, e),
{
}

proof fn lemma_edit_file_advances(
    op: OperationView,
    user_id: u128,
    admin: bool,
    s: SagaView,
    e: EventView,
)
    requires
        op is EditFile,
    ensures
        advances(op, user_id, admin, s, e),
{
}

/// Every step brings a saga nearer to its end: a step that does not end
/// the saga leaves it in a stage of smaller rank, whatever the answer it was
/// given.
pub proof fn lemma_steps_advance(
    op: OperationView,
    user_id: u128,
    admin: bool,
    s: SagaView,
    e: EventView,
)
    ensures
        advances(op, user_id, admin, s, e),
{
    match op {
        OperationView::CreateFolder { .. } => {
            lemma_create_folder_advances(op, user_id, admin, s, e);
        },
        OperationView::DeleteFolder { .. } => {
            lemma_delete_folder_advances(op, user_id, admin, s, e);
        },
        OperationView::EditFolder { .. } => {
            lemma_edit_folder_advances(op, user_id, admin, s, e);
        },
        OperationView::UploadFile { .. } => {
            lemma_upload_file_advances(op, user_id, admin, s, e);
        },
        OperationView::DeleteFile { .. } => {
            lemma_delete_file_advances(op, user_id, admin, s, e);
        },
        OperationView::EditFile { .. } => {
            lemma_edit_file_advances(op, user_id, admin, s, e);
        },
    }
}

/// Every saga ends of its own accord: a run never stops a saga for having
/// asked too much. With the steps that a run allows, and with any number
/// beyond, a saga comes to the same end.
pub proof fn lemma_sagas_end(
    op: OperationView,
    user_id: u128,
    admin: bool,
    w: StoreView,
    content: Seq<u8>,
    s: SagaView,
    e: EventView,
    fuel: nat,
    more: nat,
)
    requires
        fuel >= rank(s.stage),
        more >= fuel,
    ensures
        run_from(op, user_id, admin, w, content, s, e, more) == run_from(
            op,
            user_id,
            admin,
            w,
            content,
            s,
            e,
            fuel,
        ),
    decreases fuel,
{
    lemma_steps_advance(op, user_id, admin, s, e);
    let (next, action) = step(op, user_id, admin, s, e);
    if !(action is Finish) {
        let (after, answer) = apply(w, action, content);
        lemma_sagas_end(
            op,
            user_id,
            admin,
            after,
            content,
            next,
            answer,
            (fuel - 1) as nat,
            (more - 1) as nat,
        );
    }
}

} // verus!
