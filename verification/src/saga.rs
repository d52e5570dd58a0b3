//! The vocabulary of a mutation: what the store asks of its collaborators,
//! what they answer, and how far a mutation has come.
//!
//! A mutation touches two resources that share no transaction: the
//! database and the disk. It is therefore run as a saga. The store decides
//! one step at a time; whoever drives it performs the [`Action`] that a step
//! hands out and comes back with the [`Event`] that tells how it went.
use crate::models::{
    failure, ApiResult, ErrorKind, Failure, FailureView, File, FileView, Folder, FolderView,
    Permission, Reply, ReplyView, Status, StorePath,
};
use vstd::prelude::*;

verus! {

/// The mode a stored file is given: owner and group may read and write,
/// everyone else may read.
pub const UPLOAD_MODE: u32 = 0o664;

/// What the store asks of the database or the disk next, or how the
/// mutation ends.
#[derive(Debug)]
#[allow(inconsistent_fields)]
pub enum Action {
    /// Open a transaction.
    Begin,
    /// Read the permission rows of a user for a folder.
    LookupPermission { user_id: u128, folder_id: Option<u128> },
    /// Insert a folder row.
    InsertFolder { name: String, parent_id: Option<u128>, owner_id: u128 },
    /// Insert a permission row that grants a user everything in a folder.
    Grant { user_id: u128, folder_id: u128 },
    /// Read the rows of a folder and of all its ancestors.
    LoadFolders { id: Option<u128> },
    /// Delete a folder row, and with it all that hangs below.
    DeleteFolder { id: u128 },
    /// Give a folder row another name.
    RenameFolder { id: u128, name: String },
    /// Read a file row.
    FindFile { id: u128 },
    /// Ask whether a folder holds a file of that name.
    FileExists { folder_id: Option<u128>, name: String },
    /// Insert a file row.
    InsertFile { owner_id: u128, folder_id: Option<u128>, name: String, size: i64 },
    /// Delete a file row.
    DeleteFile { id: u128 },
    /// Delete the file row of that name in a folder.
    DeleteFileNamed { folder_id: Option<u128>, name: String },
    /// Give a file row another name.
    RenameFile { id: u128, name: String },
    /// Commit the transaction.
    Commit,
    /// Roll the transaction back.
    Rollback,
    /// Create one directory.
    MakeDir { path: StorePath },
    /// Create a directory and whatever is missing above it.
    EnsureDir { path: StorePath },
    /// Remove one empty directory.
    RemoveDir { path: StorePath },
    /// Remove a directory with all that is in it.
    RemoveDirAll { path: StorePath },
    /// Move a directory or a file.
    Rename { from: StorePath, to: StorePath },
    /// Store the incoming content as a file, and give it that mode.
    WriteFile { path: StorePath, mode: u32 },
    /// Remove one file.
    RemoveFile { path: StorePath },
    /// The mutation is over; this is its result.
    Finish(ApiResult),
}

/// The mathematical value of an [`Action`].
#[allow(inconsistent_fields)]
pub enum ActionView {
    Begin,
    LookupPermission { user_id: u128, folder_id: Option<u128> },
    InsertFolder { name: Seq<char>, parent_id: Option<u128>, owner_id: u128 },
    Grant { user_id: u128, folder_id: u128 },
    LoadFolders { id: Option<u128> },
    DeleteFolder { id: u128 },
    RenameFolder { id: u128, name: Seq<char> },
    FindFile { id: u128 },
    FileExists { folder_id: Option<u128>, name: Seq<char> },
    InsertFile { owner_id: u128, folder_id: Option<u128>, name: Seq<char>, size: i64 },
    DeleteFile { id: u128 },
    DeleteFileNamed { folder_id: Option<u128>, name: Seq<char> },
    RenameFile { id: u128, name: Seq<char> },
    Commit,
    Rollback,
    MakeDir { path: Seq<Seq<char>> },
    EnsureDir { path: Seq<Seq<char>> },
    RemoveDir { path: Seq<Seq<char>> },
    RemoveDirAll { path: Seq<Seq<char>> },
    Rename { from: Seq<Seq<char>>, to: Seq<Seq<char>> },
    WriteFile { path: Seq<Seq<char>>, mode: u32 },
    RemoveFile { path: Seq<Seq<char>> },
    Finish(Result<ReplyView, FailureView>),
}

impl DeepView for Action {
    type V = ActionView;

    open spec fn deep_view(&self) -> ActionView {
        match self {
            Action::Begin => ActionView::Begin,
            Action::LookupPermission { user_id, folder_id } => ActionView::LookupPermission {
                user_id: *user_id,
                folder_id: *folder_id,
            },
            Action::InsertFolder { name, parent_id, owner_id } => ActionView::InsertFolder {
                name: name@,
                parent_id: *parent_id,
                owner_id: *owner_id,
            },
            Action::Grant { user_id, folder_id } => ActionView::Grant {
                user_id: *user_id,
                folder_id: *folder_id,
            },
            Action::LoadFolders { id } => ActionView::LoadFolders { id: *id },
            Action::DeleteFolder { id } => ActionView::DeleteFolder { id: *id },
            Action::RenameFolder { id, name } => ActionView::RenameFolder { id: *id, name: name@ },
            Action::FindFile { id } => ActionView::FindFile { id: *id },
            Action::FileExists { folder_id, name } => ActionView::FileExists {
                folder_id: *folder_id,
                name: name@,
            },
            Action::InsertFile { owner_id, folder_id, name, size } => ActionView::InsertFile {
                owner_id: *owner_id,
                folder_id: *folder_id,
                name: name@,
                size: *size,
            },
            Action::DeleteFile { id } => ActionView::DeleteFile { id: *id },
            Action::DeleteFileNamed { folder_id, name } => ActionView::DeleteFileNamed {
                folder_id: *folder_id,
                name: name@,
            },
            Action::RenameFile { id, name } => ActionView::RenameFile { id: *id, name: name@ },
            Action::Commit => ActionView::Commit,
            Action::Rollback => ActionView::Rollback,
            Action::MakeDir { path } => ActionView::MakeDir { path: path.deep_view() },
            Action::EnsureDir { path } => ActionView::EnsureDir { path: path.deep_view() },
            Action::RemoveDir { path } => ActionView::RemoveDir { path: path.deep_view() },
            Action::RemoveDirAll { path } => ActionView::RemoveDirAll { path: path.deep_view() },
            Action::Rename { from, to } => ActionView::Rename {
                from: from.deep_view(),
                to: to.deep_view(),
            },
            Action::WriteFile { path, mode } => ActionView::WriteFile {
                path: path.deep_view(),
                mode: *mode,
            },
            Action::RemoveFile { path } => ActionView::RemoveFile { path: path.deep_view() },
            Action::Finish(result) => ActionView::Finish(
                match result {
                    Ok(reply) => Ok(reply.deep_view()),
                    Err(failure) => Err(failure.deep_view()),
                },
            ),
        }
    }
}

/// How the action that a step handed out went.
#[derive(Debug)]
pub enum Event {
    /// Nothing has been asked yet: the first step of a mutation.
    Start,
    /// The action was carried out.
    Done,
    /// The action failed and changed nothing.
    Failed,
    /// What was to be removed was not there.
    Missing,
    /// The database refused the row: its name is taken.
    Duplicate,
    /// The permission rows that were asked for.
    Permissions(Vec<Permission>),
    /// The row was inserted under this identifier.
    Inserted(u128),
    /// The statement changed this many rows.
    Affected(u64),
    /// The folder rows that were asked for.
    Folders(Vec<Folder>),
    /// The file row that was asked for, if there is one.
    FileRow(Option<File>),
    /// Whether the file exists.
    Exists(bool),
    /// The file was stored; this is its size in bytes.
    Written(u64),
}

/// The mathematical value of an [`Event`].
pub enum EventView {
    Start,
    Done,
    Failed,
    Missing,
    Duplicate,
    Permissions(Seq<Permission>),
    Inserted(u128),
    Affected(u64),
    Folders(Seq<FolderView>),
    FileRow(Option<FileView>),
    Exists(bool),
    Written(u64),
}

impl DeepView for Event {
    type V = EventView;

    open spec fn deep_view(&self) -> EventView {
        match self {
            Event::Start => EventView::Start,
            Event::Done => EventView::Done,
            Event::Failed => EventView::Failed,
            Event::Missing => EventView::Missing,
            Event::Duplicate => EventView::Duplicate,
            Event::Permissions(rows) => EventView::Permissions(rows@),
            Event::Inserted(id) => EventView::Inserted(*id),
            Event::Affected(n) => EventView::Affected(*n),
            Event::Folders(rows) => EventView::Folders(rows.deep_view()),
            Event::FileRow(row) => EventView::FileRow(row.deep_view()),
            Event::Exists(b) => EventView::Exists(*b),
            Event::Written(size) => EventView::Written(*size),
        }
    }
}

/// How far a mutation has come: which answer it is waiting for.
#[derive(Debug, Clone, Copy, PartialEq, Eq, Structural)]
pub enum Stage {
    /// Nothing has happened yet.
    Start,
    /// Waiting for the transaction to open.
    Opening,
    /// Waiting for the file row.
    Finding,
    /// Waiting for the permission rows.
    Gating,
    /// Waiting for the folder rows from which the path is resolved.
    Resolving,
    /// Waiting to hear whether the name is taken.
    Probing,
    /// Waiting for the new row.
    Inserting,
    /// Waiting for the creator's grant.
    Granting,
    /// Waiting for the row to be deleted.
    Deleting,
    /// Waiting for the row to be renamed.
    Renaming,
    /// Waiting for the row of the file that is overwritten to go.
    Unlinking,
    /// Waiting for the file that is overwritten to go from the disk.
    Clearing,
    /// Waiting for the destination directory.
    Preparing,
    /// Waiting for the content to be stored.
    Writing,
    /// Waiting for the row of the stored file.
    Recording,
    /// Waiting for the new directory.
    MakingDir,
    /// Waiting for the move on disk.
    Moving,
    /// Waiting for the commit.
    Committing,
    /// The rows are gone for good; waiting for the disk to follow.
    Removing,
    /// The disk step failed or the rows were refused; waiting for what was
    /// put on disk to be taken away again, with the transaction still open.
    Scrubbing,
    /// The commit failed; waiting for the disk step to be undone.
    Undoing,
    /// Waiting for the rollback, after which the failure is reported.
    Aborting,
    /// The mutation is over.
    Finished,
}

/// What a mutation remembers between its steps.
#[derive(Debug)]
pub struct Saga {
    /// How far the mutation has come.
    pub stage: Stage,
    /// The identifier of the row that was inserted.
    pub id: u128,
    /// The folder in which a file operation works.
    pub folder_id: Option<u128>,
    /// The name in force: a file's present name, or the name an upload is
    /// stored under.
    pub name: String,
    /// The place on disk that the mutation acts on.
    pub path: StorePath,
    /// Where a rename moves it; for an upload, the directory it goes to.
    pub dest: StorePath,
    /// The file that an upload overwrites has been removed from the disk.
    pub replaced: bool,
    /// The failure to report once the cleanup is over.
    pub verdict: Option<Failure>,
}

/// The mathematical value of a [`Saga`].
pub struct SagaView {
    pub stage: Stage,
    pub id: u128,
    pub folder_id: Option<u128>,
    pub name: Seq<char>,
    pub path: Seq<Seq<char>>,
    pub dest: Seq<Seq<char>>,
    pub replaced: bool,
    pub verdict: Option<FailureView>,
}

impl DeepView for Saga {
    type V = SagaView;

    open spec fn deep_view(&self) -> SagaView {
        SagaView {
            stage: self.stage,
            id: self.id,
            folder_id: self.folder_id,
            name: self.name@,
            path: self.path.deep_view(),
            dest: self.dest.deep_view(),
            replaced: self.replaced,
            verdict: self.verdict.deep_view(),
        }
    }
}

/// A mutation that has not begun.
pub open spec fn fresh_saga() -> SagaView {
    SagaView {
        stage: Stage::Start,
        id: 0,
        folder_id: None,
        name: Seq::empty(),
        path: Seq::empty(),
        dest: Seq::empty(),
        replaced: false,
        verdict: None,
    }
}

/// The failure reported when the database lets the store down.
pub open spec fn database_fault() -> FailureView {
    failure(ErrorKind::DatabaseFault, "database error"@)
}

/// The saga moves on to `stage` and asks for `action`.
pub open spec fn proceed(s: SagaView, stage: Stage, action: ActionView) -> (SagaView, ActionView) {
    (SagaView { stage, ..s }, action)
}

/// The saga gives up with the transaction open: it asks for a rollback and
/// will report `f` when that is done.
pub open spec fn abort(s: SagaView, f: FailureView) -> (SagaView, ActionView) {
    (SagaView { stage: Stage::Aborting, verdict: Some(f), ..s }, ActionView::Rollback)
}

/// The saga ends in failure `f`.
pub open spec fn fail(s: SagaView, f: FailureView) -> (SagaView, ActionView) {
    (SagaView { stage: Stage::Finished, ..s }, ActionView::Finish(Err(f)))
}

/// The saga ends well.
pub open spec fn succeed(s: SagaView, status: Status, message: Seq<char>) -> (
    SagaView,
    ActionView,
) {
    (
        SagaView { stage: Stage::Finished, ..s },
        ActionView::Finish(Ok(ReplyView { status, message })),
    )
}

/// The saga asks for `cleanup`, which takes away what it put on disk, and
/// will report `f` once that has worked.
pub open spec fn compensate(s: SagaView, stage: Stage, f: FailureView, cleanup: ActionView) -> (
    SagaView,
    ActionView,
) {
    (SagaView { stage, verdict: Some(f), ..s }, cleanup)
}

/// What a saga reports when its cleanup is over: the failure it kept, or,
/// where none was kept, a fault of the database.
pub open spec fn kept_verdict(s: SagaView) -> FailureView {
    match s.verdict {
        Some(f) => f,
        None => database_fault(),
    }
}

/// What every saga does in the stages that all sagas share, and with an
/// answer that does not fit its stage.
///
/// After the rollback the kept failure is reported. A finished saga, or
/// one made to wait in a stage it never enters, reports a fault of the
/// database and stays finished.
pub open spec fn closing_step(s: SagaView) -> (SagaView, ActionView) {
    match s.stage {
        Stage::Aborting => fail(s, kept_verdict(s)),
        _ => fail(s, database_fault()),
    }
}

impl Saga {
    /// A mutation that has not begun.
    pub fn new() -> (res: Saga)
        ensures
            res.deep_view() == fresh_saga(),
    {
        let res = Saga {
            stage: Stage::Start,
            id: 0,
            folder_id: None,
            name: String::new(),
            path: Vec::new(),
            dest: Vec::new(),
            replaced: false,
            verdict: None,
        };
        assert(res.path.deep_view() =~= Seq::empty());
        assert(res.dest.deep_view() =~= Seq::empty());
        res
    }

    /// Moves on to `stage` and asks for `action`.
    pub fn proceed(self, stage: Stage, action: Action) -> (res: (Saga, Action))
        ensures
            res.deep_view() == proceed(self.deep_view(), stage, action.deep_view()),
    {
        (Saga { stage, ..self }, action)
    }

    /// Gives up with the transaction open.
    pub fn abort(self, f: Failure) -> (res: (Saga, Action))
        ensures
            res.deep_view() == abort(self.deep_view(), f.deep_view()),
    {
        (Saga { stage: Stage::Aborting, verdict: Some(f), ..self }, Action::Rollback)
    }

    /// Gives up with the transaction open, over a fault of the database.
    pub fn abort_database(self) -> (res: (Saga, Action))
        ensures
            res.deep_view() == abort(self.deep_view(), database_fault()),
    {
        self.abort(Failure::new(ErrorKind::DatabaseFault, "database error"))
    }

    /// Ends in failure `f`.
    pub fn fail(self, f: Failure) -> (res: (Saga, Action))
        ensures
            res.deep_view() == fail(self.deep_view(), f.deep_view()),
    {
        (Saga { stage: Stage::Finished, ..self }, Action::Finish(Err(f)))
    }

    /// Ends in a fault of the database.
    pub fn fail_database(self) -> (res: (Saga, Action))
        ensures
            res.deep_view() == fail(self.deep_view(), database_fault()),
    {
        self.fail(Failure::new(ErrorKind::DatabaseFault, "database error"))
    }

    /// Ends well.
    pub fn succeed(self, status: Status, message: String) -> (res: (Saga, Action))
        ensures
            res.deep_view() == succeed(self.deep_view(), status, message@),
    {
        (Saga { stage: Stage::Finished, ..self }, Action::Finish(Ok(Reply { status, message })))
    }

    /// Asks for `cleanup` and keeps `f` to report afterwards.
    pub fn compensate(self, stage: Stage, f: Failure, cleanup: Action) -> (res: (Saga, Action))
        ensures
            res.deep_view() == compensate(
                self.deep_view(),
                stage,
                f.deep_view(),
                cleanup.deep_view(),
            ),
    {
        (Saga { stage, verdict: Some(f), ..self }, cleanup)
    }

    /// The step of the stages that all sagas share.
    pub fn closing_step(self) -> (res: (Saga, Action))
        ensures
            res.deep_view() == closing_step(self.deep_view()),
    {
        match self.stage {
            Stage::Aborting => {
                let f = match &self.verdict {
                    Some(f) => f.clone(),
                    None => Failure::new(ErrorKind::DatabaseFault, "database error"),
                };
                self.fail(f)
            },
            _ => self.fail_database(),
        }
    }
}

} // verus!
