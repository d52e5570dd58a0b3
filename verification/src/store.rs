//! The store in memory: rows, a transaction, and a disk, with faults that
//! can be planted.
//!
//! [`Store`] stands in for the database and the filesystem. It answers the
//! requests of a saga as they would, to the letter of the two references in
//! [`crate::tables`] and [`crate::disk`], and fails on demand: every request
//! is counted, and a request whose number is in the list of faults fails
//! without effect. [`Store::run`] drives a saga against it from the first
//! step to the last.
use crate::assets::{
    create_folder, create_folder_step, delete_file, delete_file_step, delete_folder,
    delete_folder_step, edit_file, edit_file_step, edit_folder, edit_folder_step, upload_file,
    upload_file_step, wants_overwrite, EditFile, EditFolderData, NewFolderData, RemoveFile,
    RemoveFolderData, UploadFile,
};
use crate::disk::{Disk, EntryView};
use crate::models::{
    result_view, ApiResult, ErrorKind, Failure, FailureView, File, FileView, Folder, FolderView,
    ReplyView, UserData,
};
use crate::paths::{UuidPath, UuidPathView};
use crate::saga::{database_fault, fresh_saga, Action, ActionView, Event, EventView, Saga, SagaView};
use crate::tables::{
    copy_folders, copy_permissions, file_name_taken, file_taken, Tables, TablesView,
};
use vstd::prelude::*;

verus! {

/// A mutation with its request.
#[derive(Debug)]
pub enum Operation {
    CreateFolder(NewFolderData),
    DeleteFolder(RemoveFolderData),
    EditFolder(EditFolderData),
    UploadFile(UploadFile),
    DeleteFile(RemoveFile),
    EditFile(EditFile),
}

/// The mathematical value of an [`Operation`].
#[allow(inconsistent_fields)]
pub enum OperationView {
    CreateFolder { name: Seq<char>, parent: Option<u128> },
    DeleteFolder { id: u128 },
    EditFolder { id: u128, name: Seq<char> },
    UploadFile {
        file_name: Seq<char>,
        folder: Option<u128>,
        name: Option<Seq<char>>,
        overwrite: bool,
    },
    DeleteFile { id: u128 },
    EditFile { id: u128, name: Seq<char> },
}

impl DeepView for Operation {
    type V = OperationView;

    open spec fn deep_view(&self) -> OperationView {
        match self {
            Operation::CreateFolder(data) => OperationView::CreateFolder {
                name: data.name@,
                parent: data.parent,
            },
            Operation::DeleteFolder(data) => OperationView::DeleteFolder { id: data.id },
            Operation::EditFolder(data) => OperationView::EditFolder {
                id: data.id,
                name: data.name@,
            },
            Operation::UploadFile(data) => OperationView::UploadFile {
                file_name: data.file_name@,
                folder: data.folder,
                name: data.name.deep_view(),
                overwrite: wants_overwrite(data.overwrite),
            },
            Operation::DeleteFile(data) => OperationView::DeleteFile { id: data.id },
            Operation::EditFile(data) => OperationView::EditFile { id: data.id, name: data.name@ },
        }
    }
}

/// One step of a mutation, whichever it is.
pub open spec fn step(op: OperationView, user_id: u128, admin: bool, s: SagaView, e: EventView) -> (
    SagaView,
    ActionView,
) {
    match op {
        OperationView::CreateFolder { name, parent } => create_folder_step(
            name,
            parent,
            user_id,
            admin,
            s,
            e,
        ),
        OperationView::DeleteFolder { id } => delete_folder_step(id, user_id, admin, s, e),
        OperationView::EditFolder { id, name } => edit_folder_step(id, name, user_id, admin, s, e),
        OperationView::UploadFile { file_name, folder, name, overwrite } => upload_file_step(
            file_name,
            folder,
            name,
            overwrite,
            user_id,
            admin,
            s,
            e,
        ),
        OperationView::DeleteFile { id } => delete_file_step(id, user_id, admin, s, e),
        OperationView::EditFile { id, name } => edit_file_step(id, name, user_id, admin, s, e),
    }
}

/// One step of a mutation, whichever it is.
pub fn next_step(op: &Operation, auth: &UserData, saga: Saga, event: Event) -> (res: (Saga, Action))
    ensures
        res.deep_view() == step(
            op.deep_view(),
            auth.user_id,
            auth.admin,
            saga.deep_view(),
            event.deep_view(),
        ),
{
    match op {
        Operation::CreateFolder(data) => create_folder(data, auth, saga, event),
        Operation::DeleteFolder(data) => delete_folder(data, auth, saga, event),
        Operation::EditFolder(data) => edit_folder(data, auth, saga, event),
        Operation::UploadFile(data) => upload_file(data, auth, saga, event),
        Operation::DeleteFile(data) => delete_file(data, auth, saga, event),
        Operation::EditFile(data) => edit_file(data, auth, saga, event),
    }
}

/// The store in memory.
#[derive(Debug)]
pub struct Store {
    /// The rows that every transaction starts from.
    pub committed: Tables,
    /// The rows of the open transaction, if one is open.
    pub pending: Option<Tables>,
    /// The directory tree.
    pub disk: Disk,
    /// The identifier that the next inserted row gets.
    pub next_id: u128,
    /// The time that the next change of a row is stamped with.
    pub clock: i64,
    /// How many requests were made so far.
    pub calls: u64,
    /// The numbers of the requests that fail, counted from nought.
    pub faults: Vec<u64>,
}

/// The mathematical value of a [`Store`].
pub struct StoreView {
    pub committed: TablesView,
    pub pending: Option<TablesView>,
    pub disk: Seq<EntryView>,
    pub next_id: u128,
    pub clock: i64,
    pub calls: u64,
    pub faults: Seq<u64>,
}

impl DeepView for Store {
    type V = StoreView;

    open spec fn deep_view(&self) -> StoreView {
        StoreView {
            committed: self.committed.deep_view(),
            pending: self.pending.deep_view(),
            disk: self.disk.deep_view(),
            next_id: self.next_id,
            clock: self.clock,
            calls: self.calls,
            faults: self.faults@,
        }
    }
}

impl StoreView {
    /// The rows that a statement sees: those of the open transaction, or,
    /// with none open, the committed ones.
    pub open spec fn visible(self) -> TablesView {
        match self.pending {
            Some(t) => t,
            None => self.committed,
        }
    }

    /// Whether the next request is one that fails.
    pub open spec fn faulty(self) -> bool {
        self.faults.contains(self.calls)
    }

    /// The store after one more request was counted.
    pub open spec fn counted(self) -> StoreView {
        StoreView {
            calls: if self.calls < u64::MAX {
                (self.calls + 1) as u64
            } else {
                self.calls
            },
            ..self
        }
    }

    /// The store after an identifier and a time stamp were used up.
    pub open spec fn stamped(self) -> StoreView {
        StoreView {
            next_id: if self.next_id < u128::MAX {
                (self.next_id + 1) as u128
            } else {
                self.next_id
            },
            clock: if self.clock < i64::MAX {
                (self.clock + 1) as i64
            } else {
                self.clock
            },
            ..self
        }
    }
}

/// What a statement that inserts a row does to the store: it needs an
/// identifier that was never used, uses it up together with a time stamp,
/// and then does what a statement that writes rows does.
pub open spec fn inserting(w: StoreView, outcome: (TablesView, EventView)) -> (
    StoreView,
    EventView,
) {
    if w.next_id < u128::MAX {
        in_transaction(w.stamped(), outcome)
    } else {
        (w, EventView::Failed)
    }
}

/// What a statement that writes rows does to the store: it needs an open
/// transaction, and changes the rows of that transaction only.
pub open spec fn in_transaction(w: StoreView, outcome: (TablesView, EventView)) -> (
    StoreView,
    EventView,
) {
    if w.pending is Some {
        (StoreView { pending: Some(outcome.0), ..w }, outcome.1)
    } else {
        (w, EventView::Failed)
    }
}

/// What a filesystem operation does to the store: it changes the disk,
/// whatever the transaction.
pub open spec fn on_disk(w: StoreView, outcome: (Seq<EntryView>, EventView)) -> (
    StoreView,
    EventView,
) {
    (StoreView { disk: outcome.0, ..w }, outcome.1)
}

/// What the store does with a request, and what it answers.
///
/// Every request is counted. A request whose number is among the faults
/// fails and changes nothing, except that a failed commit or rollback leaves
/// no transaction open. A transaction opens on a copy of the committed rows;
/// statements change that copy; a commit makes the copy the committed rows;
/// a rollback drops it. A statement that inserts a row uses up an
/// identifier and a time stamp, and fails once the identifiers have run out.
/// Filesystem operations change the disk at once, transaction or not.
/// `content` is what an upload brings.
pub open spec fn apply(w: StoreView, a: ActionView, content: Seq<u8>) -> (StoreView, EventView) {
    let c = w.counted();
    if w.faulty() {
        match a {
            ActionView::Commit | ActionView::Rollback => (
                StoreView { pending: None, ..c },
                EventView::Failed,
            ),
            _ => (c, EventView::Failed),
        }
    } else {
        let t = c.visible();
        match a {
            ActionView::Begin => if c.pending is Some {
                (c, EventView::Failed)
            } else {
                (StoreView { pending: Some(c.committed), ..c }, EventView::Done)
            },
            ActionView::Commit => match c.pending {
                Some(rows) => (
                    StoreView { committed: rows, pending: None, ..c },
                    EventView::Done,
                ),
                None => (c, EventView::Failed),
            },
            ActionView::Rollback => (StoreView { pending: None, ..c }, EventView::Done),
            ActionView::LookupPermission { user_id, folder_id } => (
                c,
                EventView::Permissions(t.permissions),
            ),
            ActionView::LoadFolders { id } => (c, EventView::Folders(t.folders)),
            ActionView::FindFile { id } => (c, EventView::FileRow(crate::tables::find_file(t, id))),
            ActionView::FileExists { folder_id, name } => (
                c,
                EventView::Exists(file_name_taken(t.files, folder_id, name)),
            ),
            ActionView::InsertFolder { name, parent_id, owner_id } => inserting(
                c,
                crate::tables::insert_folder(t, name, parent_id, owner_id, c.next_id, c.clock),
            ),
            ActionView::Grant { user_id, folder_id } => inserting(
                c,
                crate::tables::grant_all(t, user_id, folder_id, c.next_id),
            ),
            ActionView::InsertFile { owner_id, folder_id, name, size } => inserting(
                c,
                crate::tables::insert_file(t, owner_id, folder_id, name, size, c.next_id, c.clock),
            ),
            ActionView::DeleteFolder { id } => in_transaction(
                c,
                crate::tables::delete_folder_rows(t, id),
            ),
            ActionView::RenameFolder { id, name } => in_transaction(
                c.stamped(),
                crate::tables::rename_folder_row(t, id, name, c.clock),
            ),
            ActionView::DeleteFile { id } => in_transaction(
                c,
                crate::tables::delete_file_row(t, id),
            ),
            ActionView::DeleteFileNamed { folder_id, name } => in_transaction(
                c,
                crate::tables::delete_file_named(t, folder_id, name),
            ),
            ActionView::RenameFile { id, name } => in_transaction(
                c.stamped(),
                crate::tables::rename_file_row(t, id, name, c.clock),
            ),
            ActionView::MakeDir { path } => on_disk(c, crate::disk::make_dir(c.disk, path)),
            ActionView::EnsureDir { path } => on_disk(c, crate::disk::ensure_dir(c.disk, path)),
            ActionView::RemoveDir { path } => on_disk(c, crate::disk::remove_dir(c.disk, path)),
            ActionView::RemoveDirAll { path } => on_disk(
                c,
                crate::disk::remove_dir_all(c.disk, path),
            ),
            ActionView::Rename { from, to } => on_disk(c, crate::disk::rename(c.disk, from, to)),
            ActionView::WriteFile { path, mode } => on_disk(
                c,
                crate::disk::write_file(c.disk, path, content),
            ),
            ActionView::RemoveFile { path } => on_disk(c, crate::disk::remove_file(c.disk, path)),
            ActionView::Finish(_) => (c, EventView::Failed),
        }
    }
}

/// The most requests that [`Store::run`] makes for one mutation. No
/// mutation needs that many.
pub const MAX_STEPS: usize = 32;

/// A saga run against the store from where it stands: the store it leaves
/// and the result it ends in.
pub open spec fn run_from(
    op: OperationView,
    user_id: u128,
    admin: bool,
    w: StoreView,
    content: Seq<u8>,
    s: SagaView,
    e: EventView,
    fuel: nat,
) -> (StoreView, Result<ReplyView, FailureView>)
    decreases fuel,
{
    let (next, action) = step(op, user_id, admin, s, e);
    match action {
        ActionView::Finish(result) => (w, result),
        _ => if fuel == 0 {
            (w, Err(database_fault()))
        } else {
            let (after, answer) = apply(w, action, content);
            run_from(op, user_id, admin, after, content, next, answer, (fuel - 1) as nat)
        },
    }
}

/// A mutation run against the store from its first step to its last.
pub open spec fn run(
    op: OperationView,
    user_id: u128,
    admin: bool,
    w: StoreView,
    content: Seq<u8>,
) -> (
    StoreView,
    Result<ReplyView, FailureView>,
) {
    run_from(op, user_id, admin, w, content, fresh_saga(), EventView::Start, MAX_STEPS as nat)
}

impl Store {
    /// An empty store: no rows, nothing on disk but the root, no transaction
    /// open, and no request that fails.
    pub fn new() -> (res: Store)
        ensures
            res.deep_view().committed.folders.len() == 0,
            res.deep_view().committed.files.len() == 0,
            res.deep_view().committed.permissions.len() == 0,
            res.deep_view().pending is None,
            res.deep_view().disk.len() == 0,
            res.deep_view().faults.len() == 0,
            res.deep_view().calls == 0,
            res.deep_view().next_id == 1,
            res.deep_view().clock == 0,
            crate::mirror::sound(res.deep_view()),
    {
        Store {
            committed: Tables::new(),
            pending: None,
            disk: Disk::new(),
            next_id: 1,
            clock: 0,
            calls: 0,
            faults: Vec::new(),
        }
    }

    /// Whether the next request is one that fails.
    pub fn faulty(&self) -> (res: bool)
        ensures
            res == self.deep_view().faulty(),
    {
        let mut i: usize = 0;
        while i < self.faults.len()
            invariant
                i <= self.faults.len(),
                forall|j: int| 0 <= j < i ==> self.faults@[j] != self.calls,
            decreases self.faults.len() - i,
        {
            if self.faults[i] == self.calls {
                return true;
            }
            i += 1;
        }
        false
    }

    /// Uses up an identifier and a time stamp.
    fn stamp(&mut self)
        ensures
            final(self).deep_view() == old(self).deep_view().stamped(),
    {
        if self.next_id < u128::MAX {
            self.next_id = self.next_id + 1;
        }
        if self.clock < i64::MAX {
            self.clock = self.clock + 1;
        }
    }

    /// Carries out one request and answers it.
    pub fn apply(&mut self, action: &Action, content: &Vec<u8>) -> (e: Event)
        ensures
            (final(self).deep_view(), e.deep_view()) == apply(
                old(self).deep_view(),
                action.deep_view(),
                content@,
            ),
    {
        let faulty = self.faulty();
        if self.calls < u64::MAX {
            self.calls = self.calls + 1;
        }
        if faulty {
            match action {
                Action::Commit | Action::Rollback => {
                    self.pending = None;
                },
                _ => {},
            }
            return Event::Failed;
        }
        let id = self.next_id;
        let now = self.clock;
        match action {
            Action::Begin => {
                if self.pending.is_some() {
                    Event::Failed
                } else {
                    self.pending = Some(self.committed.duplicate());
                    Event::Done
                }
            },
            Action::Commit => {
                let mut open: Option<Tables> = None;
                core::mem::swap(&mut open, &mut self.pending);
                match open {
                    Some(rows) => {
                        self.committed = rows;
                        Event::Done
                    },
                    None => Event::Failed,
                }
            },
            Action::Rollback => {
                self.pending = None;
                Event::Done
            },
            Action::LookupPermission { user_id: _, folder_id: _ } => {
                let rows = match &self.pending {
                    Some(t) => copy_permissions(&t.permissions),
                    None => copy_permissions(&self.committed.permissions),
                };
                Event::Permissions(rows)
            },
            Action::LoadFolders { id: _ } => {
                let rows = match &self.pending {
                    Some(t) => copy_folders(&t.folders),
                    None => copy_folders(&self.committed.folders),
                };
                Event::Folders(rows)
            },
            Action::FindFile { id } => {
                let row = match &self.pending {
                    Some(t) => t.find_file(*id),
                    None => self.committed.find_file(*id),
                };
                Event::FileRow(row)
            },
            Action::FileExists { folder_id, name } => {
                let found = match &self.pending {
                    Some(t) => file_taken(&t.files, *folder_id, name, None),
                    None => file_taken(&self.committed.files, *folder_id, name, None),
                };
                Event::Exists(found)
            },
            Action::InsertFolder { name, parent_id, owner_id } => {
                if id == u128::MAX {
                    return Event::Failed;
                }
                self.stamp();
                match &mut self.pending {
                    Some(t) => t.insert_folder(name, *parent_id, *owner_id, id, now),
                    None => Event::Failed,
                }
            },
            Action::Grant { user_id, folder_id } => {
                if id == u128::MAX {
                    return Event::Failed;
                }
                self.stamp();
                match &mut self.pending {
                    Some(t) => t.grant_all(*user_id, *folder_id, id),
                    None => Event::Failed,
                }
            },
            Action::InsertFile { owner_id, folder_id, name, size } => {
                if id == u128::MAX {
                    return Event::Failed;
                }
                self.stamp();
                match &mut self.pending {
                    Some(t) => t.insert_file(*owner_id, *folder_id, name, *size, id, now),
                    None => Event::Failed,
                }
            },
            Action::DeleteFolder { id } => {
                match &mut self.pending {
                    Some(t) => t.delete_folder(*id),
                    None => Event::Failed,
                }
            },
            Action::RenameFolder { id, name } => {
                self.stamp();
                match &mut self.pending {
                    Some(t) => t.rename_folder(*id, name, now),
                    None => Event::Failed,
                }
            },
            Action::DeleteFile { id } => {
                match &mut self.pending {
                    Some(t) => t.delete_file(*id),
                    None => Event::Failed,
                }
            },
            Action::DeleteFileNamed { folder_id, name } => {
                match &mut self.pending {
                    Some(t) => t.delete_file_named(*folder_id, name),
                    None => Event::Failed,
                }
            },
            Action::RenameFile { id, name } => {
                self.stamp();
                match &mut self.pending {
                    Some(t) => t.rename_file(*id, name, now),
                    None => Event::Failed,
                }
            },
            Action::MakeDir { path } => self.disk.make_dir(path),
            Action::EnsureDir { path } => self.disk.ensure_dir(path),
            Action::RemoveDir { path } => self.disk.remove_dir(path),
            Action::RemoveDirAll { path } => self.disk.remove_dir_all(path),
            Action::Rename { from, to } => self.disk.rename(from, to),
            Action::WriteFile { path, mode: _ } => self.disk.write_file(path, content),
            Action::RemoveFile { path } => self.disk.remove_file(path),
            Action::Finish(_) => Event::Failed,
        }
    }

    /// Runs a mutation against the store, from its first step to its last.
    ///
    /// The store is left as the saga's requests have made it, and the result
    /// is the one that the saga ends in. `content` is what an upload
    /// brings; other mutations do not look at it.
    ///
    /// A store that was sound is sound again where the mutation ends well,
    /// and has the committed rows and the disk it had where the mutation
    /// fails, unless the failure is a partial failure.
    pub fn run(&mut self, op: &Operation, auth: &UserData, content: &Vec<u8>) -> (res: ApiResult)
        ensures
            (final(self).deep_view(), result_view(res)) == run(
                op.deep_view(),
                auth.user_id,
                auth.admin,
                old(self).deep_view(),
                content@,
            ),
            crate::mirror::sound(old(self).deep_view()) ==> crate::mirror::left_sound(
                old(self).deep_view(),
                final(self).deep_view(),
                result_view(res),
            ),
    {
        proof {
            if crate::mirror::sound(self.deep_view()) {
                crate::soundness::lemma_mutations_keep_sound(
                    self.deep_view(),
                    op.deep_view(),
                    auth.user_id,
                    auth.admin,
                    content@,
                );
            }
        }
        let mut saga = Saga::new();
        let mut event = Event::Start;
        let mut fuel: usize = MAX_STEPS;
        loop
            invariant
                run_from(
                    op.deep_view(),
                    auth.user_id,
                    auth.admin,
                    self.deep_view(),
                    content@,
                    saga.deep_view(),
                    event.deep_view(),
                    fuel as nat,
                ) == run(
                    op.deep_view(),
                    auth.user_id,
                    auth.admin,
                    old(self).deep_view(),
                    content@,
                ),
                crate::mirror::sound(old(self).deep_view()) ==> crate::mirror::left_sound(
                    old(self).deep_view(),
                    run(
                        op.deep_view(),
                        auth.user_id,
                        auth.admin,
                        old(self).deep_view(),
                        content@,
                    ).0,
                    run(
                        op.deep_view(),
                        auth.user_id,
                        auth.admin,
                        old(self).deep_view(),
                        content@,
                    ).1,
                ),
            decreases fuel,
        {
            let (next, action) = next_step(op, auth, saga, event);
            match action {
                Action::Finish(result) => {
                    return result;
                },
                request => {
                    if fuel == 0 {
                        return Err(Failure::new(ErrorKind::DatabaseFault, "database error"));
                    }
                    event = self.apply(&request, content);
                    saga = next;
                    fuel = fuel - 1;
                },
            }
        }
    }
}

impl Store {
    /// Creates a folder.
    pub fn create_folder(&mut self, data: NewFolderData, auth: &UserData) -> (res: ApiResult)
        ensures
            (final(self).deep_view(), result_view(res)) == run(
                OperationView::CreateFolder { name: data.name@, parent: data.parent },
                auth.user_id,
                auth.admin,
                old(self).deep_view(),
                Seq::empty(),
            ),
            crate::mirror::sound(old(self).deep_view()) ==> crate::mirror::left_sound(
                old(self).deep_view(),
                final(self).deep_view(),
                result_view(res),
            ),
            old(self).deep_view().pending is None ==> match result_view(res) {
                Ok(reply) => crate::effects::creating::created_folder_well(
                    old(self).deep_view(),
                    final(self).deep_view(),
                    data.name@,
                    data.parent,
                    auth.user_id,
                    auth.admin,
                    reply,
                ),
                Err(f) => crate::laws::found_early(f.kind) ==> crate::laws::untouched(
                    old(self).deep_view(),
                    final(self).deep_view(),
                ),
            },
    {
        proof {
            let w = self.deep_view();
            if w.pending is None {
                let op = OperationView::CreateFolder { name: data.name@, parent: data.parent };
                crate::effects::creating::lemma_create_folder_effect(
                    w,
                    data.name@,
                    data.parent,
                    auth.user_id,
                    auth.admin,
                    Seq::empty(),
                );
                crate::laws::lemma_early_failures_change_nothing(
                    op,
                    auth.user_id,
                    auth.admin,
                    w,
                    Seq::empty(),
                );
            }
        }
        let content: Vec<u8> = Vec::new();
        self.run(&Operation::CreateFolder(data), auth, &content)
    }

    /// Deletes a folder and all that is in it.
    pub fn delete_folder(&mut self, data: RemoveFolderData, auth: &UserData) -> (res: ApiResult)
        ensures
            (final(self).deep_view(), result_view(res)) == run(
                OperationView::DeleteFolder { id: data.id },
                auth.user_id,
                auth.admin,
                old(self).deep_view(),
                Seq::empty(),
            ),
            crate::mirror::sound(old(self).deep_view()) ==> crate::mirror::left_sound(
                old(self).deep_view(),
                final(self).deep_view(),
                result_view(res),
            ),
            old(self).deep_view().pending is None ==> match result_view(res) {
                Ok(reply) => crate::effects::deleting::deleted_folder_well(
                    old(self).deep_view(),
                    final(self).deep_view(),
                    data.id,
                    auth.user_id,
                    auth.admin,
                    reply,
                ),
                Err(f) => crate::laws::found_early(f.kind) ==> crate::laws::untouched(
                    old(self).deep_view(),
                    final(self).deep_view(),
                ),
            },
    {
        proof {
            let w = self.deep_view();
            if w.pending is None {
                let op = OperationView::DeleteFolder { id: data.id };
                crate::effects::deleting::lemma_delete_folder_effect(
                    w,
                    data.id,
                    auth.user_id,
                    auth.admin,
                    Seq::empty(),
                );
                crate::laws::lemma_early_failures_change_nothing(
                    op,
                    auth.user_id,
                    auth.admin,
                    w,
                    Seq::empty(),
                );
            }
        }
        let content: Vec<u8> = Vec::new();
        self.run(&Operation::DeleteFolder(data), auth, &content)
    }

    /// Renames a folder.
    pub fn edit_folder(&mut self, data: EditFolderData, auth: &UserData) -> (res: ApiResult)
        ensures
            (final(self).deep_view(), result_view(res)) == run(
                OperationView::EditFolder { id: data.id, name: data.name@ },
                auth.user_id,
                auth.admin,
                old(self).deep_view(),
                Seq::empty(),
            ),
            crate::mirror::sound(old(self).deep_view()) ==> crate::mirror::left_sound(
                old(self).deep_view(),
                final(self).deep_view(),
                result_view(res),
            ),
            old(self).deep_view().pending is None ==> match result_view(res) {
                Ok(reply) => crate::effects::renaming::renamed_folder_well(
                    old(self).deep_view(),
                    final(self).deep_view(),
                    data.id,
                    data.name@,
                    auth.user_id,
                    auth.admin,
                    reply,
                ),
                Err(f) => crate::laws::found_early(f.kind) ==> crate::laws::untouched(
                    old(self).deep_view(),
                    final(self).deep_view(),
                ),
            },
    {
        proof {
            let w = self.deep_view();
            if w.pending is None {
                let op = OperationView::EditFolder { id: data.id, name: data.name@ };
                crate::effects::renaming::lemma_edit_folder_effect(
                    w,
                    data.id,
                    data.name@,
                    auth.user_id,
                    auth.admin,
                    Seq::empty(),
                );
                crate::laws::lemma_early_failures_change_nothing(
                    op,
                    auth.user_id,
                    auth.admin,
                    w,
                    Seq::empty(),
                );
            }
        }
        let content: Vec<u8> = Vec::new();
        self.run(&Operation::EditFolder(data), auth, &content)
    }

    /// Stores `content` as a file.
    pub fn upload_file(&mut self, data: UploadFile, content: &Vec<u8>, auth: &UserData) -> (res:
        ApiResult)
        ensures
            (final(self).deep_view(), result_view(res)) == run(
                OperationView::UploadFile {
                    file_name: data.file_name@,
                    folder: data.folder,
                    name: data.name.deep_view(),
                    overwrite: wants_overwrite(data.overwrite),
                },
                auth.user_id,
                auth.admin,
                old(self).deep_view(),
                content@,
            ),
            crate::mirror::sound(old(self).deep_view()) ==> crate::mirror::left_sound(
                old(self).deep_view(),
                final(self).deep_view(),
                result_view(res),
            ),
            old(self).deep_view().pending is None ==> match result_view(res) {
                Ok(reply) => crate::effects::storing::upload_of(
                    OperationView::UploadFile {
                        file_name: data.file_name@,
                        folder: data.folder,
                        name: data.name.deep_view(),
                        overwrite: wants_overwrite(data.overwrite),
                    },
                    content@,
                ).stored_well(
                    old(self).deep_view(),
                    final(self).deep_view(),
                    auth.user_id,
                    auth.admin,
                    reply,
                ),
                Err(f) => crate::laws::found_early(f.kind) ==> crate::laws::untouched(
                    old(self).deep_view(),
                    final(self).deep_view(),
                ),
            },
    {
        proof {
            let w = self.deep_view();
            if w.pending is None {
                let op = OperationView::UploadFile {
                    file_name: data.file_name@,
                    folder: data.folder,
                    name: data.name.deep_view(),
                    overwrite: wants_overwrite(data.overwrite),
                };
                crate::effects::storing::lemma_upload_file_effect(
                    w,
                    op,
                    auth.user_id,
                    auth.admin,
                    content@,
                );
                crate::laws::lemma_early_failures_change_nothing(
                    op,
                    auth.user_id,
                    auth.admin,
                    w,
                    content@,
                );
            }
        }
        self.run(&Operation::UploadFile(data), auth, content)
    }

    /// Deletes a file.
    pub fn delete_file(&mut self, data: RemoveFile, auth: &UserData) -> (res: ApiResult)
        ensures
            (final(self).deep_view(), result_view(res)) == run(
                OperationView::DeleteFile { id: data.id },
                auth.user_id,
                auth.admin,
                old(self).deep_view(),
                Seq::empty(),
            ),
            crate::mirror::sound(old(self).deep_view()) ==> crate::mirror::left_sound(
                old(self).deep_view(),
                final(self).deep_view(),
                result_view(res),
            ),
            old(self).deep_view().pending is None ==> match result_view(res) {
                Ok(reply) => crate::effects::deleting::deleted_file_well(
                    old(self).deep_view(),
                    final(self).deep_view(),
                    data.id,
                    auth.user_id,
                    auth.admin,
                    reply,
                ),
                Err(f) => crate::laws::found_early(f.kind) ==> crate::laws::untouched(
                    old(self).deep_view(),
                    final(self).deep_view(),
                ),
            },
    {
        proof {
            let w = self.deep_view();
            if w.pending is None {
                let op = OperationView::DeleteFile { id: data.id };
                crate::effects::deleting::lemma_delete_file_effect(
                    w,
                    data.id,
                    auth.user_id,
                    auth.admin,
                    Seq::empty(),
                );
                crate::laws::lemma_early_failures_change_nothing(
                    op,
                    auth.user_id,
                    auth.admin,
                    w,
                    Seq::empty(),
                );
            }
        }
        let content: Vec<u8> = Vec::new();
        self.run(&Operation::DeleteFile(data), auth, &content)
    }

    /// Renames a file.
    pub fn edit_file(&mut self, data: EditFile, auth: &UserData) -> (res: ApiResult)
        ensures
            (final(self).deep_view(), result_view(res)) == run(
                OperationView::EditFile { id: data.id, name: data.name@ },
                auth.user_id,
                auth.admin,
                old(self).deep_view(),
                Seq::empty(),
            ),
            crate::mirror::sound(old(self).deep_view()) ==> crate::mirror::left_sound(
                old(self).deep_view(),
                final(self).deep_view(),
                result_view(res),
            ),
            old(self).deep_view().pending is None ==> match result_view(res) {
                Ok(reply) => crate::effects::renaming::renamed_file_well(
                    old(self).deep_view(),
                    final(self).deep_view(),
                    data.id,
                    data.name@,
                    auth.user_id,
                    auth.admin,
                    reply,
                ),
                Err(f) => crate::laws::found_early(f.kind) ==> crate::laws::untouched(
                    old(self).deep_view(),
                    final(self).deep_view(),
                ),
            },
    {
        proof {
            let w = self.deep_view();
            if w.pending is None {
                let op = OperationView::EditFile { id: data.id, name: data.name@ };
                crate::effects::renaming::lemma_edit_file_effect(
                    w,
                    data.id,
                    data.name@,
                    auth.user_id,
                    auth.admin,
                    Seq::empty(),
                );
                crate::laws::lemma_early_failures_change_nothing(
                    op,
                    auth.user_id,
                    auth.admin,
                    w,
                    Seq::empty(),
                );
            }
        }
        let content: Vec<u8> = Vec::new();
        self.run(&Operation::EditFile(data), auth, &content)
    }
}

impl Store {
    /// Lists the folders directly below `parent` that the principal may
    /// see, from the committed rows.
    pub fn get_folders(&self, parent: Option<u128>, order: Option<String>, auth: &UserData) -> (res:
        Vec<Folder>)
        ensures
            res.deep_view() == crate::listing::folders_listed(
                self.deep_view().committed.folders,
                self.deep_view().committed.permissions,
                parent,
                crate::listing::parse_order(order.deep_view()),
                auth.user_id,
                auth.admin,
            ),
    {
        crate::listing::get_folders(
            &self.committed.folders,
            &self.committed.permissions,
            parent,
            order,
            auth,
        )
    }

    /// Lists the files directly in `parent` that the principal may see,
    /// from the committed rows.
    pub fn get_files(&self, parent: Option<u128>, order: Option<String>, auth: &UserData) -> (res:
        Vec<File>)
        ensures
            res.deep_view() == crate::listing::files_listed(
                self.deep_view().committed.files,
                self.deep_view().committed.permissions,
                parent,
                crate::listing::parse_order(order.deep_view()),
                auth.user_id,
                auth.admin,
            ),
    {
        crate::listing::get_files(
            &self.committed.files,
            &self.committed.permissions,
            parent,
            order,
            auth,
        )
    }

    /// Lists every folder that the principal may see, from the committed
    /// rows.
    pub fn get_all_folders(&self, auth: &UserData) -> (res: Vec<Folder>)
        ensures
            res.deep_view() == self.deep_view().committed.folders.filter(
                |f: FolderView|
                    crate::listing::folder_readable(
                        self.deep_view().committed.permissions,
                        auth.user_id,
                        auth.admin,
                        f,
                    ),
            ),
    {
        crate::listing::get_all_folders(&self.committed.folders, &self.committed.permissions, auth)
    }

    /// Lists every file that the principal may see, from the committed
    /// rows.
    pub fn get_all_files(&self, auth: &UserData) -> (res: Vec<File>)
        ensures
            res.deep_view() == self.deep_view().committed.files.filter(
                |f: FileView|
                    crate::listing::file_readable(
                        self.deep_view().committed.permissions,
                        auth.user_id,
                        auth.admin,
                        f,
                    ),
            ),
    {
        crate::listing::get_all_files(&self.committed.files, &self.committed.permissions, auth)
    }

    /// The steps from the root down to folder `id`, from the committed
    /// rows, for a principal who may read that folder.
    pub fn get_folders_path(&self, id: Option<u128>, auth: &UserData) -> (res: Result<
        Vec<UuidPath>,
        Failure,
    >)
        ensures
            match res {
                Ok(steps) => crate::listing::folders_path(
                    self.deep_view().committed.folders,
                    self.deep_view().committed.permissions,
                    id,
                    auth.user_id,
                    auth.admin,
                ) == Ok::<Seq<UuidPathView>, FailureView>(steps.deep_view()),
                Err(f) => crate::listing::folders_path(
                    self.deep_view().committed.folders,
                    self.deep_view().committed.permissions,
                    id,
                    auth.user_id,
                    auth.admin,
                ) == Err::<Seq<UuidPathView>, FailureView>(f.deep_view()),
            },
    {
        crate::listing::get_folders_path(
            &self.committed.folders,
            &self.committed.permissions,
            id,
            auth,
        )
    }
}

} // verus!
