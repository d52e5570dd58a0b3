//! The records of the store and the shapes of its answers.
use vstd::prelude::*;

verus! {

/// The HTTP status that goes with an answer.
#[derive(Debug, Clone, Copy, PartialEq, Eq, Structural)]
pub enum Status {
    Success,
    Created,
    NoContent,
    BadRequest,
    Unauthorized,
    Forbidden,
    NotFound,
    Conflict,
    InternalServerError,
}

impl Status {
    /// The numeric status code.
    pub open spec fn spec_code(self) -> u16 {
        match self {
            Status::Success => 200,
            Status::Created => 201,
            Status::NoContent => 204,
            Status::BadRequest => 400,
            Status::Unauthorized => 401,
            Status::Forbidden => 403,
            Status::NotFound => 404,
            Status::Conflict => 409,
            Status::InternalServerError => 500,
        }
    }

    /// The numeric status code.
    #[verifier::when_used_as_spec(spec_code)]
    pub fn code(self) -> (res: u16)
        ensures
            res == self.spec_code(),
    {
        match self {
            Status::Success => 200,
            Status::Created => 201,
            Status::NoContent => 204,
            Status::BadRequest => 400,
            Status::Unauthorized => 401,
            Status::Forbidden => 403,
            Status::NotFound => 404,
            Status::Conflict => 409,
            Status::InternalServerError => 500,
        }
    }
}

/// The kinds of failure an operation of the store can end in.
#[derive(Debug, Clone, Copy, PartialEq, Eq, Structural)]
pub enum ErrorKind {
    /// The name validator rejected a name.
    InvalidName,
    /// The permission gate refused the principal.
    Forbidden,
    /// A sibling of that name already exists.
    Conflict,
    /// The target does not exist.
    NotFound,
    /// A filesystem operation failed; database and disk still agree.
    StorageFault,
    /// Database and disk disagree and could not be brought back together.
    PartialFailure,
    /// The database failed for a reason other than a constraint.
    DatabaseFault,
}

impl ErrorKind {
    /// The status reported for a failure of this kind: validation and
    /// permission failures are 403, conflicts 409, missing targets 404, and
    /// every fault of the disk or the database 500.
    pub open spec fn spec_status(self) -> Status {
        match self {
            ErrorKind::InvalidName => Status::Forbidden,
            ErrorKind::Forbidden => Status::Forbidden,
            ErrorKind::Conflict => Status::Conflict,
            ErrorKind::NotFound => Status::NotFound,
            ErrorKind::StorageFault => Status::InternalServerError,
            ErrorKind::PartialFailure => Status::InternalServerError,
            ErrorKind::DatabaseFault => Status::InternalServerError,
        }
    }

    /// The status reported for a failure of this kind.
    #[verifier::when_used_as_spec(spec_status)]
    pub fn status(self) -> (res: Status)
        ensures
            res == self.spec_status(),
    {
        match self {
            ErrorKind::InvalidName => Status::Forbidden,
            ErrorKind::Forbidden => Status::Forbidden,
            ErrorKind::Conflict => Status::Conflict,
            ErrorKind::NotFound => Status::NotFound,
            ErrorKind::StorageFault => Status::InternalServerError,
            ErrorKind::PartialFailure => Status::InternalServerError,
            ErrorKind::DatabaseFault => Status::InternalServerError,
        }
    }
}

/// A path inside the store: the names from the root down to an entry.
/// The empty path is the store's root directory.
pub type StorePath = Vec<String>;

/// A failed operation: its kind, the message for the caller and, where
/// database and disk were left in disagreement, the path that an operator
/// has to look at.
#[derive(Debug)]
pub struct Failure {
    pub kind: ErrorKind,
    pub message: String,
    pub orphan: Option<StorePath>,
}

/// The mathematical value of a [`Failure`].
pub struct FailureView {
    pub kind: ErrorKind,
    pub message: Seq<char>,
    pub orphan: Option<Seq<Seq<char>>>,
}

impl DeepView for Failure {
    type V = FailureView;

    open spec fn deep_view(&self) -> FailureView {
        FailureView {
            kind: self.kind,
            message: self.message@,
            orphan: self.orphan.deep_view(),
        }
    }
}

/// A failure of `kind` with `message` that leaves nothing behind.
pub open spec fn failure(kind: ErrorKind, message: Seq<char>) -> FailureView {
    FailureView { kind, message, orphan: None }
}

/// A partial failure: `path` is on disk without its row, or the other way
/// round.
pub open spec fn partial_failure(message: Seq<char>, path: Seq<Seq<char>>) -> FailureView {
    FailureView { kind: ErrorKind::PartialFailure, message, orphan: Some(path) }
}

impl Failure {
    /// A failure of `kind` with `message` that leaves nothing behind.
    pub fn new(kind: ErrorKind, message: &str) -> (res: Failure)
        ensures
            res.deep_view() == failure(kind, message@),
    {
        Failure { kind, message: String::from_str(message), orphan: None }
    }

    /// A partial failure that names the path left behind.
    pub fn partial(message: &str, path: StorePath) -> (res: Failure)
        ensures
            res.deep_view() == partial_failure(message@, path.deep_view()),
    {
        Failure {
            kind: ErrorKind::PartialFailure,
            message: String::from_str(message),
            orphan: Some(path),
        }
    }
}

impl Clone for Failure {
    fn clone(&self) -> (res: Self)
        ensures
            res.deep_view() == self.deep_view(),
    {
        let orphan = match &self.orphan {
            Some(path) => Some(clone_path(path)),
            None => None,
        };
        Failure { kind: self.kind, message: self.message.clone(), orphan }
    }
}

/// A copy of `path`.
pub fn clone_path(path: &StorePath) -> (res: StorePath)
    ensures
        res.deep_view() == path.deep_view(),
{
    let mut out: Vec<String> = Vec::new();
    let mut i: usize = 0;
    while i < path.len()
        invariant
            i <= path.len(),
            out.len() == i,
            forall|k: int| 0 <= k < i ==> out[k]@ == path[k]@,
        decreases path.len() - i,
    {
        out.push(path[i].clone());
        i += 1;
    }
    assert(out.deep_view() =~= path.deep_view());
    out
}

/// A successful operation: the status and the message for the caller.
#[derive(Debug)]
pub struct Reply {
    pub status: Status,
    pub message: String,
}

/// The mathematical value of a [`Reply`].
pub struct ReplyView {
    pub status: Status,
    pub message: Seq<char>,
}

impl DeepView for Reply {
    type V = ReplyView;

    open spec fn deep_view(&self) -> ReplyView {
        ReplyView { status: self.status, message: self.message@ }
    }
}

/// How an operation ends.
pub type ApiResult<T = Reply> = Result<T, Failure>;

/// The mathematical value of how an operation ends.
pub open spec fn result_view(r: ApiResult) -> Result<ReplyView, FailureView> {
    match r {
        Ok(reply) => Ok(reply.deep_view()),
        Err(failure) => Err(failure.deep_view()),
    }
}

/// The body sent back to the caller.
#[derive(Debug)]
pub struct ApiResponse {
    pub success: bool,
    pub err_id: Option<String>,
    pub detail: Option<String>,
}

/// `Uuid::now_v7`, rendered by `to_string`: a fresh identifier that sorts by
/// its time of creation. Its text is the hyphenated form, 36 characters;
/// nothing else is claimed of it.
#[verifier::external_body]
fn fresh_error_id() -> (res: String)
    ensures
        res@.len() == 36,
{
    uuid::Uuid::now_v7().to_string()
}

impl ApiResponse {
    /// A bare success.
    pub fn success() -> (res: Self)
        ensures
            res.success,
            res.err_id is None,
            res.detail is None,
    {
        ApiResponse { success: true, err_id: None, detail: None }
    }

    /// A success with a message for the caller.
    pub fn success_with(message: &str) -> (res: Self)
        ensures
            res.success,
            res.err_id is None,
            res.detail.deep_view() == Some(message@),
    {
        ApiResponse { success: true, err_id: None, detail: Some(String::from_str(message)) }
    }

    /// A failure with a message for the caller and a fresh identifier by
    /// which the caller's report can be matched with the server's log.
    pub fn no_success(message: &str) -> (res: Self)
        ensures
            !res.success,
            res.err_id is Some,
            res.err_id->0@.len() == 36,
            res.detail.deep_view() == Some(message@),
    {
        ApiResponse {
            success: false,
            err_id: Some(fresh_error_id()),
            detail: Some(String::from_str(message)),
        }
    }

    /// A failure together with the status it is sent under.
    pub fn fail(status: Status, message: &str) -> (res: (Status, Self))
        ensures
            res.0 == status,
            !res.1.success,
            res.1.err_id is Some,
            res.1.err_id->0@.len() == 36,
            res.1.detail.deep_view() == Some(message@),
    {
        (status, ApiResponse::no_success(message))
    }
}

/// Turns the end of an operation into what is sent to the caller: the
/// status, and a body that carries the message. A failure is sent under the
/// status of its kind and gets a fresh error identifier; the orphaned path
/// of a partial failure stays on the server.
pub fn respond(result: &ApiResult) -> (res: (Status, ApiResponse))
    ensures
        match result {
            Ok(reply) => {
                &&& res.0 == reply.status
                &&& res.1.success
                &&& res.1.err_id is None
                &&& res.1.detail.deep_view() == Some(reply.message@)
            },
            Err(failure) => {
                &&& res.0 == failure.kind.spec_status()
                &&& !res.1.success
                &&& res.1.err_id is Some
                &&& res.1.err_id->0@.len() == 36
                &&& res.1.detail.deep_view() == Some(failure.message@)
            },
        },
{
    match result {
        Ok(reply) => (reply.status, ApiResponse::success_with(reply.message.as_str())),
        Err(failure) => ApiResponse::fail(failure.kind.status(), failure.message.as_str()),
    }
}

/// The authenticated principal on whose behalf an operation runs.
#[derive(Debug)]
pub struct UserData {
    pub user_id: u128,
    pub login: String,
    pub username: String,
    pub admin: bool,
}

/// A folder row.
#[derive(Debug)]
pub struct Folder {
    pub id: u128,
    pub parent_id: Option<u128>,
    pub owner_id: u128,
    pub name: String,
    pub created_at: i64,
    pub updated_at: i64,
}

/// The mathematical value of a [`Folder`].
pub struct FolderView {
    pub id: u128,
    pub parent_id: Option<u128>,
    pub owner_id: u128,
    pub name: Seq<char>,
    pub created_at: i64,
    pub updated_at: i64,
}

impl DeepView for Folder {
    type V = FolderView;

    open spec fn deep_view(&self) -> FolderView {
        FolderView {
            id: self.id,
            parent_id: self.parent_id,
            owner_id: self.owner_id,
            name: self.name@,
            created_at: self.created_at,
            updated_at: self.updated_at,
        }
    }
}

impl Clone for Folder {
    fn clone(&self) -> (res: Self)
        ensures
            res.deep_view() == self.deep_view(),
    {
        Folder {
            id: self.id,
            parent_id: self.parent_id,
            owner_id: self.owner_id,
            name: self.name.clone(),
            created_at: self.created_at,
            updated_at: self.updated_at,
        }
    }
}

/// A file row.
#[derive(Debug)]
pub struct File {
    pub id: u128,
    pub folder_id: Option<u128>,
    pub owner_id: u128,
    pub name: String,
    pub size: Option<i64>,
    pub created_at: i64,
    pub updated_at: i64,
}

/// The mathematical value of a [`File`].
pub struct FileView {
    pub id: u128,
    pub folder_id: Option<u128>,
    pub owner_id: u128,
    pub name: Seq<char>,
    pub size: Option<i64>,
    pub created_at: i64,
    pub updated_at: i64,
}

impl DeepView for File {
    type V = FileView;

    open spec fn deep_view(&self) -> FileView {
        FileView {
            id: self.id,
            folder_id: self.folder_id,
            owner_id: self.owner_id,
            name: self.name@,
            size: self.size,
            created_at: self.created_at,
            updated_at: self.updated_at,
        }
    }
}

impl Clone for File {
    fn clone(&self) -> (res: Self)
        ensures
            res.deep_view() == self.deep_view(),
    {
        File {
            id: self.id,
            folder_id: self.folder_id,
            owner_id: self.owner_id,
            name: self.name.clone(),
            size: self.size,
            created_at: self.created_at,
            updated_at: self.updated_at,
        }
    }
}

/// A permission row: what one user may do in one folder, or, with no
/// folder, at the root.
#[derive(Debug, Clone, Copy, PartialEq, Eq, Structural)]
pub struct Permission {
    pub id: u128,
    pub folder_id: Option<u128>,
    pub user_id: u128,
    pub read: bool,
    pub modify: bool,
    pub edit: bool,
}

impl DeepView for Permission {
    type V = Permission;

    open spec fn deep_view(&self) -> Permission {
        *self
    }
}

} // verus!
