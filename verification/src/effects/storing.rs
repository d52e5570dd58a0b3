//! What a file that was stored has changed.
use crate::assets::{created_file_message, recorded_size, stored_name};
use crate::disk::{
    content_at, ensure_dir, is_file, lemma_stored_content_is_there, remove_file, write_file,
    EntryView,
};
use crate::models::{ReplyView, Status};
use crate::names::valid_name;
use crate::paths::{folder_path, ResolveError};
use crate::perms::{permitted, PermissionKind};
use crate::saga::{fresh_saga, ActionView, EventView, SagaView, Stage};
use crate::store::{apply, run, run_from, step, MAX_STEPS, OperationView, StoreView};
use crate::tables::{delete_file_named, file_name_taken, insert_file, TablesView};
use vstd::prelude::*;

verus! {

/// The request to store a file, with the name settled and the content at
/// hand.
pub struct Upload {
    pub folder: Option<u128>,
    pub name: Seq<char>,
    pub overwrite: bool,
    pub content: Seq<u8>,
}

/// The upload that a request amounts to.
pub open spec fn upload_of(op: OperationView, content: Seq<u8>) -> Upload {
    Upload {
        folder: op->UploadFile_folder,
        name: stored_name(op->UploadFile_file_name, op->UploadFile_name),
        overwrite: op->UploadFile_overwrite,
        content,
    }
}

impl Upload {
    /// Whether the folder holds a file of the name already.
    pub open spec fn replaces(self, w: StoreView) -> bool {
        file_name_taken(w.committed.files, self.folder, self.name)
    }

    /// The directory the file goes to.
    pub open spec fn dir(self, w: StoreView) -> Seq<Seq<char>> {
        folder_path(w.committed.folders, self.folder)->Ok_0
    }

    /// Where the file goes.
    pub open spec fn place(self, w: StoreView) -> Seq<Seq<char>> {
        self.dir(w).push(self.name)
    }

    /// The rows once the row of the file that is overwritten is gone.
    pub open spec fn rows_cleared(self, w: StoreView) -> TablesView {
        if self.replaces(w) {
            delete_file_named(w.committed, self.folder, self.name).0
        } else {
            w.committed
        }
    }

    /// The disk once the file that is overwritten is gone.
    pub open spec fn disk_cleared(self, w: StoreView) -> Seq<EntryView> {
        if self.replaces(w) {
            remove_file(w.disk, self.place(w)).0
        } else {
            w.disk
        }
    }

    /// The disk once the directory is made sure of.
    pub open spec fn disk_ready(self, w: StoreView) -> Seq<EntryView> {
        ensure_dir(self.disk_cleared(w), self.dir(w)).0
    }

    /// The disk with the content stored, and the answer that tells its
    /// size.
    pub open spec fn written(self, w: StoreView) -> (Seq<EntryView>, EventView) {
        write_file(self.disk_ready(w), self.place(w), self.content)
    }

    /// The rows with the row of the stored file, and the answer to its
    /// insertion.
    pub open spec fn recorded(self, w: StoreView, owner: u128) -> (TablesView, EventView) {
        insert_file(
            self.rows_cleared(w),
            owner,
            self.folder,
            self.name,
            recorded_size(self.written(w).1->Written_0),
            w.next_id,
            w.clock,
        )
    }

    /// What must hold of store `w` for the file to be stored: the
    /// permission gate lets the principal pass for the folder, the name is
    /// valid, the folder has a path, and a file of the name is in the way
    /// only if the request asks to overwrite it.
    pub open spec fn allowed(self, w: StoreView, user_id: u128, admin: bool) -> bool {
        &&& permitted(w.committed.permissions, user_id, admin, self.folder, PermissionKind::Edit)
        &&& valid_name(self.name)
        &&& folder_path(w.committed.folders, self.folder) is Ok
        &&& self.replaces(w) ==> self.overwrite
    }

    /// What a stored file has changed.
    ///
    /// Where a file of the name was there, its row is gone and so is the
    /// file. The directory is made sure of. The content is on disk at the
    /// file's place, and the committed rows have a row for it that records
    /// the size of what was stored. No transaction is left open.
    pub open spec fn stored(self, before: StoreView, after: StoreView, owner: u128) -> bool {
        &&& self.replaces(before) ==> remove_file(before.disk, self.place(before)).1 is Done
            || remove_file(before.disk, self.place(before)).1 is Missing
        &&& ensure_dir(self.disk_cleared(before), self.dir(before)).1 is Done
        &&& self.written(before).1 is Written
        &&& self.recorded(before, owner).1 is Inserted
        &&& after.disk == self.written(before).0
        &&& after.committed == self.recorded(before, owner).0
        &&& after.pending is None
    }

    /// What holds while the file is being stored and nothing has gone
    /// wrong.
    pub open spec fn on_course(
        self,
        before: StoreView,
        user_id: u128,
        admin: bool,
        w: StoreView,
        s: SagaView,
        e: EventView,
    ) -> bool {
        let t0 = before.committed;
        let steady = w.committed == t0 && w.next_id == before.next_id && w.clock == before.clock;
        let untouched = steady && w.disk == before.disk;
        let gate = permitted(t0.permissions, user_id, admin, self.folder, PermissionKind::Edit);
        let named = s.name == self.name && s.folder_id == self.folder && valid_name(self.name)
            && gate;
        let resolved = named && folder_path(t0.folders, self.folder) == Ok::<
            Seq<Seq<char>>,
            ResolveError,
        >(s.dest) && s.path == self.place(before);
        let cleared = resolved && (self.replaces(before) ==> self.overwrite && s.replaced && (
        remove_file(before.disk, s.path).1 is Done || remove_file(before.disk, s.path).1
            is Missing));
        let ready = cleared && ensure_dir(self.disk_cleared(before), s.dest).1 is Done;
        let in_flight = w.pending == Some(self.rows_cleared(before));
        &&& before.pending is None
        &&& match s.stage {
            Stage::Start => w == before,
            Stage::Opening => e is Done ==> untouched && w.pending == Some(t0),
            Stage::Gating => e is Permissions ==> untouched && w.pending == Some(t0)
                && e->Permissions_0 == t0.permissions && !admin,
            Stage::Resolving => e is Folders ==> untouched && w.pending == Some(t0) && named
                && e->Folders_0 == t0.folders,
            Stage::Probing => e is Exists ==> untouched && w.pending == Some(t0) && resolved
                && e->Exists_0 == self.replaces(before),
            Stage::Unlinking => e is Affected ==> untouched && resolved && self.replaces(before)
                && self.overwrite && w.pending == Some(self.rows_cleared(before)),
            Stage::Clearing => e is Done || e is Missing ==> steady && resolved && self.replaces(
                before,
            ) && self.overwrite && w.pending == Some(self.rows_cleared(before)) && remove_file(
                before.disk,
                s.path,
            ) == (w.disk, e),
            Stage::Preparing => e is Done ==> steady && ready && in_flight && w.disk
                == self.disk_ready(before),
            Stage::Writing => e is Written ==> steady && ready && in_flight && self.written(
                before,
            ) == (w.disk, e),
            Stage::Recording => e is Done || e is Inserted ==> w.committed == t0 && ready
                && self.written(before).1 is Written && w.disk == self.written(before).0
                && self.recorded(before, user_id).1 is Inserted && w.pending == Some(
                self.recorded(before, user_id).0,
            ),
            Stage::Committing => e is Done ==> ready && self.written(before).1 is Written
                && w.disk == self.written(before).0 && self.recorded(before, user_id).1
                is Inserted && w.committed == self.recorded(before, user_id).0 && w.pending
                is None,
            _ => true,
        }
    }

    /// The file is stored, and the saga says so.
    pub open spec fn stored_well(
        self,
        before: StoreView,
        after: StoreView,
        user_id: u128,
        admin: bool,
        reply: ReplyView,
    ) -> bool {
        &&& reply == ReplyView { status: Status::Created, message: created_file_message(self.name) }
        &&& self.allowed(before, user_id, admin)
        &&& self.stored(before, after, user_id)
    }
}

/// One step keeps the storing on course.
pub proof fn lemma_storing_step_holds(
    op: OperationView,
    before: StoreView,
    user_id: u128,
    admin: bool,
    w: StoreView,
    content: Seq<u8>,
    s: SagaView,
    e: EventView,
)
    requires
        op is UploadFile,
        upload_of(op, content).on_course(before, user_id, admin, w, s, e),
    ensures
        ({
            let (next, action) = step(op, user_id, admin, s, e);
            match action {
                ActionView::Finish(result) => result is Ok ==> upload_of(op, content).stored_well(
                    before,
                    w,
                    user_id,
                    admin,
                    result->Ok_0,
                ),
                _ => {
                    let (after, answer) = apply(w, action, content);
                    upload_of(op, content).on_course(before, user_id, admin, after, next, answer)
                },
            }
        }),
{
    lemma_storing_step(op, before, user_id, admin, w, content, s, e);
}

proof fn lemma_storing_step(
    op: OperationView,
    before: StoreView,
    user_id: u128,
    admin: bool,
    w: StoreView,
    content: Seq<u8>,
    s: SagaView,
    e: EventView,
)
    requires
        op is UploadFile,
        upload_of(op, content).on_course(before, user_id, admin, w, s, e),
    ensures
        ({
            let (next, action) = step(op, user_id, admin, s, e);
            match action {
                ActionView::Finish(result) => result is Ok ==> upload_of(op, content).stored_well(
                    before,
                    w,
                    user_id,
                    admin,
                    result->Ok_0,
                ),
                _ => {
                    let (after, answer) = apply(w, action, content);
                    upload_of(op, content).on_course(before, user_id, admin, after, next, answer)
                },
            }
        }),
{
}

proof fn lemma_storing_run(
    op: OperationView,
    before: StoreView,
    user_id: u128,
    admin: bool,
    w: StoreView,
    content: Seq<u8>,
    s: SagaView,
    e: EventView,
    fuel: nat,
)
    requires
        op is UploadFile,
        upload_of(op, content).on_course(before, user_id, admin, w, s, e),
    ensures
        ({
            let (after, result) = run_from(op, user_id, admin, w, content, s, e, fuel);
            result is Ok ==> upload_of(op, content).stored_well(
                before,
                after,
                user_id,
                admin,
                result->Ok_0,
            )
        }),
    decreases fuel,
{
    lemma_storing_step(op, before, user_id, admin, w, content, s, e);
    let (next, action) = step(op, user_id, admin, s, e);
    if !(action is Finish) && fuel > 0 {
        let (after, answer) = apply(w, action, content);
        lemma_storing_run(
            op,
            before,
            user_id,
            admin,
            after,
            content,
            next,
            answer,
            (fuel - 1) as nat,
        );
    }
}

/// A file is stored only where it may be, and then with its content and
/// its size.
///
/// Where storing a file ends well, the permission gate has let the
/// principal pass for the folder, the name in force is valid, and a file of
/// that name was in the way only if the request asked to overwrite it. The
/// file of that name that was there is gone, row and bytes. The content that
/// came is on disk at the file's place, and the committed rows have a row for
/// it that records the size of what was stored. No transaction is left
/// open.
pub proof fn lemma_upload_file_effect(
    w: StoreView,
    op: OperationView,
    user_id: u128,
    admin: bool,
    content: Seq<u8>,
)
    requires
        w.pending is None,
        op is UploadFile,
    ensures
        ({
            let (after, result) = run(op, user_id, admin, w, content);
            result is Ok ==> upload_of(op, content).stored_well(
                w,
                after,
                user_id,
                admin,
                result->Ok_0,
            )
        }),
{
    lemma_storing_run(
        op,
        w,
        user_id,
        admin,
        w,
        content,
        fresh_saga(),
        EventView::Start,
        MAX_STEPS as nat,
    );
}

/// What was sent is what is kept: once a file is stored, the content at
/// its place is the content that came with the request. Whatever a file of
/// that name held before is no longer there.
pub proof fn lemma_stored_file_has_content(
    w: StoreView,
    op: OperationView,
    user_id: u128,
    admin: bool,
    content: Seq<u8>,
)
    requires
        w.pending is None,
        op is UploadFile,
        run(op, user_id, admin, w, content).1 is Ok,
    ensures
        ({
            let after = run(op, user_id, admin, w, content).0;
            let place = upload_of(op, content).place(w);
            &&& is_file(after.disk, place)
            &&& content_at(after.disk, place) == Some(content)
        }),
{
    lemma_upload_file_effect(w, op, user_id, admin, content);
    let upload = upload_of(op, content);
    lemma_stored_content_is_there(upload.disk_ready(w), upload.place(w), content);
}

impl Upload {
    /// What it takes for the file to be stored, going by the store alone:
    /// the principal may store it, no transaction is open, no request is set
    /// to fail, an identifier is left, and the disk lets each request of the
    /// saga through.
    pub open spec fn bound_to_succeed(self, before: StoreView, user_id: u128, admin: bool) -> bool {
        &&& before.pending is None
        &&& before.faults.len() == 0
        &&& before.next_id < u128::MAX
        &&& self.allowed(before, user_id, admin)
        &&& self.replaces(before) ==> remove_file(before.disk, self.place(before)).1 is Done
            || remove_file(before.disk, self.place(before)).1 is Missing
        &&& ensure_dir(self.disk_cleared(before), self.dir(before)).1 is Done
        &&& self.written(before).1 is Written
        &&& self.recorded(before, user_id).1 is Inserted
    }

    /// What holds while the file is being stored and every request is
    /// answered as hoped.
    pub open spec fn on_track(
        self,
        before: StoreView,
        user_id: u128,
        admin: bool,
        w: StoreView,
        s: SagaView,
        e: EventView,
    ) -> bool {
        &&& self.bound_to_succeed(before, user_id, admin)
        &&& self.on_course(before, user_id, admin, w, s, e)
        &&& w.faults.len() == 0
        &&& match s.stage {
            Stage::Start => e is Start,
            Stage::Opening => e is Done,
            Stage::Gating => e is Permissions,
            Stage::Resolving => e is Folders,
            Stage::Probing => e is Exists,
            Stage::Unlinking => e is Affected,
            Stage::Clearing => e is Done || e is Missing,
            Stage::Preparing => e is Done,
            Stage::Writing => e is Written,
            Stage::Recording => e is Inserted,
            Stage::Committing => e is Done,
            _ => false,
        }
    }
}

proof fn lemma_storing_on_track_step(
    op: OperationView,
    before: StoreView,
    user_id: u128,
    admin: bool,
    w: StoreView,
    content: Seq<u8>,
    s: SagaView,
    e: EventView,
)
    requires
        op is UploadFile,
        upload_of(op, content).on_track(before, user_id, admin, w, s, e),
    ensures
        ({
            let (next, action) = step(op, user_id, admin, s, e);
            match action {
                ActionView::Finish(result) => result is Ok,
                _ => {
                    let (after, answer) = apply(w, action, content);
                    upload_of(op, content).on_track(before, user_id, admin, after, next, answer)
                },
            }
        }),
{
    lemma_storing_step(op, before, user_id, admin, w, content, s, e);
}

proof fn lemma_storing_on_track_run(
    op: OperationView,
    before: StoreView,
    user_id: u128,
    admin: bool,
    w: StoreView,
    content: Seq<u8>,
    s: SagaView,
    e: EventView,
    fuel: nat,
)
    requires
        op is UploadFile,
        upload_of(op, content).on_track(before, user_id, admin, w, s, e),
        fuel >= crate::laws::rank(s.stage),
    ensures
        run_from(op, user_id, admin, w, content, s, e, fuel).1 is Ok,
    decreases fuel,
{
    lemma_storing_on_track_step(op, before, user_id, admin, w, content, s, e);
    crate::laws::lemma_steps_advance(op, user_id, admin, s, e);
    let (next, action) = step(op, user_id, admin, s, e);
    if !(action is Finish) {
        let (after, answer) = apply(w, action, content);
        lemma_storing_on_track_run(
            op,
            before,
            user_id,
            admin,
            after,
            content,
            next,
            answer,
            (fuel - 1) as nat,
        );
    }
}

/// Where nothing stands in the way, the file is stored: with no request
/// failing, storing a file ends well wherever the principal may store it and
/// the disk lets each request of the saga through.
pub proof fn lemma_upload_file_succeeds(
    w: StoreView,
    op: OperationView,
    user_id: u128,
    admin: bool,
    content: Seq<u8>,
)
    requires
        op is UploadFile,
        upload_of(op, content).bound_to_succeed(w, user_id, admin),
    ensures
        run(op, user_id, admin, w, content).1 is Ok,
{
    lemma_storing_on_track_run(
        op,
        w,
        user_id,
        admin,
        w,
        content,
        fresh_saga(),
        EventView::Start,
        MAX_STEPS as nat,
    );
}

} // verus!
