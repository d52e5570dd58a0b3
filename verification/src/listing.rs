//! The listing service: what a principal gets to see, and in which order.
//!
//! Listings are read-only. A principal sees the folders and files that a
//! permission row lets them read; an administrator sees everything. The
//! order is one of a small fixed set, and an order that is not known falls
//! back to ascending by name.
use crate::models::{
    ErrorKind, Failure, FailureView, File, FileView, Folder, FolderView, Permission, UserData,
};
use crate::paths::{ancestry, get_ancestry, ResolveError, UuidPath, UuidPathView};
use crate::perms::{forbidden, has_capability, permitted, PermissionKind};
use crate::saga::database_fault;
use vstd::prelude::*;
use vstd::utf8::encode_utf8;

verus! {

/// The orders a listing can come in.
#[derive(Debug, Clone, Copy, PartialEq, Eq, Structural)]
pub enum SortOrder {
    NameAsc,
    NameDesc,
    CreatedAsc,
    CreatedDesc,
    UpdatedAsc,
    UpdatedDesc,
}

/// The order that a request asks for: the one it names, or, where it names
/// none or one that is not known, ascending by name.
pub open spec fn parse_order(order: Option<Seq<char>>) -> SortOrder {
    match order {
        None => SortOrder::NameAsc,
        Some(text) => if text == "name_desc"@ {
            SortOrder::NameDesc
        } else if text == "created_asc"@ {
            SortOrder::CreatedAsc
        } else if text == "created_desc"@ {
            SortOrder::CreatedDesc
        } else if text == "updated_asc"@ {
            SortOrder::UpdatedAsc
        } else if text == "updated_desc"@ {
            SortOrder::UpdatedDesc
        } else {
            SortOrder::NameAsc
        },
    }
}

/// Whether two texts are the same.
pub fn same_text(a: &str, b: &str) -> (res: bool)
    ensures
        res == (a@ == b@),
{
    let x = a.as_bytes();
    let y = b.as_bytes();
    proof {
        vstd::utf8::encode_utf8_decode_utf8(a@);
        vstd::utf8::encode_utf8_decode_utf8(b@);
    }
    if x.len() != y.len() {
        return false;
    }
    let mut i: usize = 0;
    while i < x.len()
        invariant
            i <= x.len(),
            x.len() == y.len(),
            x@ == encode_utf8(a@),
            y@ == encode_utf8(b@),
            forall|k: int| 0 <= k < i ==> x@[k] == y@[k],
        decreases x.len() - i,
    {
        if x[i] != y[i] {
            return false;
        }
        i += 1;
    }
    assert(x@ =~= y@);
    true
}

impl SortOrder {
    /// The order that a request asks for.
    pub fn parse(order: Option<&str>) -> (res: SortOrder)
        ensures
            res == parse_order(
                match order {
                    Some(text) => Some(text@),
                    None => None,
                },
            ),
    {
        match order {
            None => SortOrder::NameAsc,
            Some(text) => {
                if same_text(text, "name_desc") {
                    SortOrder::NameDesc
                } else if same_text(text, "created_asc") {
                    SortOrder::CreatedAsc
                } else if same_text(text, "created_desc") {
                    SortOrder::CreatedDesc
                } else if same_text(text, "updated_asc") {
                    SortOrder::UpdatedAsc
                } else if same_text(text, "updated_desc") {
                    SortOrder::UpdatedDesc
                } else {
                    SortOrder::NameAsc
                }
            },
        }
    }

    /// The `ORDER BY` clause of this order, over a table called `f`.
    pub open spec fn clause_text(self) -> Seq<char> {
        match self {
            SortOrder::NameAsc => "f.name ASC"@,
            SortOrder::NameDesc => "f.name DESC"@,
            SortOrder::CreatedAsc => "f.created_at ASC"@,
            SortOrder::CreatedDesc => "f.created_at DESC"@,
            SortOrder::UpdatedAsc => "f.updated_at ASC"@,
            SortOrder::UpdatedDesc => "f.updated_at DESC"@,
        }
    }

    /// The `ORDER BY` clause of this order: one of six fixed texts, none of
    /// which holds anything that a caller sent.
    pub fn clause(self) -> (res: &'static str)
        ensures
            res@ == self.clause_text(),
    {
        match self {
            SortOrder::NameAsc => "f.name ASC",
            SortOrder::NameDesc => "f.name DESC",
            SortOrder::CreatedAsc => "f.created_at ASC",
            SortOrder::CreatedDesc => "f.created_at DESC",
            SortOrder::UpdatedAsc => "f.updated_at ASC",
            SortOrder::UpdatedDesc => "f.updated_at DESC",
        }
    }
}

/// The `ORDER BY` clause for the order that a request asks for.
pub fn get_ord(order: Option<String>) -> (res: &'static str)
    ensures
        res@ == parse_order(order.deep_view()).clause_text(),
{
    match &order {
        Some(text) => SortOrder::parse(Some(text.as_str())).clause(),
        None => SortOrder::parse(None).clause(),
    }
}

/// Whether the bytes of `a` from place `i` on come before those of `b`
/// from place `i` on, as in a dictionary: at the first place where they
/// differ `a` has the smaller byte, or `a` ends first.
pub open spec fn bytes_before_from(a: Seq<u8>, b: Seq<u8>, i: int) -> bool
    decreases a.len() - i,
{
    if i < 0 || i >= b.len() {
        false
    } else if i >= a.len() {
        true
    } else if a[i] != b[i] {
        a[i] < b[i]
    } else {
        bytes_before_from(a, b, i + 1)
    }
}

/// Whether name `a` comes before name `b`: the order of their UTF-8
/// encodings, byte by byte.
pub open spec fn name_before(a: Seq<char>, b: Seq<char>) -> bool {
    bytes_before_from(encode_utf8(a), encode_utf8(b), 0)
}

/// Whether name `a` comes before name `b`.
pub fn name_precedes(a: &str, b: &str) -> (res: bool)
    ensures
        res == name_before(a@, b@),
{
    let x = a.as_bytes();
    let y = b.as_bytes();
    let mut i: usize = 0;
    while i < x.len() && i < y.len()
        invariant
            i <= x.len(),
            i <= y.len(),
            x@ == encode_utf8(a@),
            y@ == encode_utf8(b@),
            name_before(a@, b@) == bytes_before_from(x@, y@, i as int),
        decreases x.len() - i,
    {
        if x[i] != y[i] {
            return x[i] < y[i];
        }
        i += 1;
    }
    i < y.len()
}

/// What a row is ordered by.
pub struct SortKey {
    pub name: Seq<char>,
    pub created_at: i64,
    pub updated_at: i64,
}

/// Whether a row with key `a` must come before a row with key `b`.
pub open spec fn comes_before(a: SortKey, b: SortKey, order: SortOrder) -> bool {
    match order {
        SortOrder::NameAsc => name_before(a.name, b.name),
        SortOrder::NameDesc => name_before(b.name, a.name),
        SortOrder::CreatedAsc => a.created_at < b.created_at,
        SortOrder::CreatedDesc => b.created_at < a.created_at,
        SortOrder::UpdatedAsc => a.updated_at < b.updated_at,
        SortOrder::UpdatedDesc => b.updated_at < a.updated_at,
    }
}

/// `p` is where `x` goes into `sorted`: behind every row that it need not
/// come before, and in front of the first row that it must come before.
pub open spec fn is_slot<A>(sorted: Seq<A>, x: A, before: spec_fn(A, A) -> bool, p: int) -> bool {
    &&& 0 <= p <= sorted.len()
    &&& forall|q: int| 0 <= q < p ==> !before(x, #[trigger] sorted[q])
    &&& p < sorted.len() ==> before(x, sorted[p])
}

/// Where `x` goes into `sorted`.
pub open spec fn slot<A>(sorted: Seq<A>, x: A, before: spec_fn(A, A) -> bool) -> int {
    choose|p: int| is_slot(sorted, x, before, p)
}

/// `sorted` with `x` put where it goes.
pub open spec fn place<A>(sorted: Seq<A>, x: A, before: spec_fn(A, A) -> bool) -> Seq<A> {
    sorted.insert(slot(sorted, x, before), x)
}

/// The rows in order: each row, taken in turn, is put behind the rows it
/// need not come before. Rows that tie stay in the order they came in.
pub open spec fn arrange<A>(rows: Seq<A>, before: spec_fn(A, A) -> bool) -> Seq<A>
    decreases rows.len(),
{
    if rows.len() == 0 {
        rows
    } else {
        place(arrange(rows.drop_last(), before), rows.last(), before)
    }
}

/// There is one place only where a row goes.
pub proof fn lemma_slot_unique<A>(
    sorted: Seq<A>,
    x: A,
    before: spec_fn(A, A) -> bool,
    p: int,
)
    requires
        is_slot(sorted, x, before, p),
    ensures
        slot(sorted, x, before) == p,
{
    let q = slot(sorted, x, before);
    assert(is_slot(sorted, x, before, q));
    if q < p {
        assert(!before(x, sorted[q]));
    }
    if p < q {
        assert(!before(x, sorted[p]));
    }
}

/// What a folder is ordered by.
pub open spec fn folder_key(f: FolderView) -> SortKey {
    SortKey { name: f.name, created_at: f.created_at, updated_at: f.updated_at }
}

/// What a file is ordered by.
pub open spec fn file_key(f: FileView) -> SortKey {
    SortKey { name: f.name, created_at: f.created_at, updated_at: f.updated_at }
}

/// The order of folders under `order`.
pub open spec fn folder_before(order: SortOrder) -> spec_fn(FolderView, FolderView) -> bool {
    |a: FolderView, b: FolderView| comes_before(folder_key(a), folder_key(b), order)
}

/// The order of files under `order`.
pub open spec fn file_before(order: SortOrder) -> spec_fn(FileView, FileView) -> bool {
    |a: FileView, b: FileView| comes_before(file_key(a), file_key(b), order)
}

/// Whether the principal may see folder `f`: an administrator may see
/// every folder, anyone else the folders that their own row for that very
/// folder lets them read.
pub open spec fn folder_readable(
    permissions: Seq<Permission>,
    user_id: u128,
    admin: bool,
    f: FolderView,
) -> bool {
    permitted(permissions, user_id, admin, Some(f.id), PermissionKind::Read)
}

/// Whether the principal may see file `f`: an administrator may see every
/// file, anyone else the files in folders that their row lets them read.
pub open spec fn file_readable(
    permissions: Seq<Permission>,
    user_id: u128,
    admin: bool,
    f: FileView,
) -> bool {
    permitted(permissions, user_id, admin, f.folder_id, PermissionKind::Read)
}

/// The folders directly below `parent` that the principal may see, in
/// `order`.
pub open spec fn folders_listed(
    folders: Seq<FolderView>,
    permissions: Seq<Permission>,
    parent: Option<u128>,
    order: SortOrder,
    user_id: u128,
    admin: bool,
) -> Seq<FolderView> {
    arrange(
        folders.filter(
            |f: FolderView|
                f.parent_id == parent && folder_readable(permissions, user_id, admin, f),
        ),
        folder_before(order),
    )
}

/// The files directly in `parent` that the principal may see, in `order`.
pub open spec fn files_listed(
    files: Seq<FileView>,
    permissions: Seq<Permission>,
    parent: Option<u128>,
    order: SortOrder,
    user_id: u128,
    admin: bool,
) -> Seq<FileView> {
    arrange(
        files.filter(
            |f: FileView| f.folder_id == parent && file_readable(permissions, user_id, admin, f),
        ),
        file_before(order),
    )
}

/// Whether a row with the first key must come before a row with the
/// second.
fn key_before(
    a_name: &String,
    a_created: i64,
    a_updated: i64,
    b_name: &String,
    b_created: i64,
    b_updated: i64,
    order: SortOrder,
) -> (res: bool)
    ensures
        res == comes_before(
            SortKey { name: a_name@, created_at: a_created, updated_at: a_updated },
            SortKey { name: b_name@, created_at: b_created, updated_at: b_updated },
            order,
        ),
{
    match order {
        SortOrder::NameAsc => name_precedes(a_name.as_str(), b_name.as_str()),
        SortOrder::NameDesc => name_precedes(b_name.as_str(), a_name.as_str()),
        SortOrder::CreatedAsc => a_created < b_created,
        SortOrder::CreatedDesc => b_created < a_created,
        SortOrder::UpdatedAsc => a_updated < b_updated,
        SortOrder::UpdatedDesc => b_updated < a_updated,
    }
}

/// Puts a folder where it goes.
fn place_folder(sorted: &mut Vec<Folder>, row: Folder, order: SortOrder)
    ensures
        final(sorted).deep_view() == place(
            old(sorted).deep_view(),
            row.deep_view(),
            folder_before(order),
        ),
{
    let ghost before = folder_before(order);
    let ghost start = sorted.deep_view();
    let mut p: usize = 0;
    let mut found = false;
    while p < sorted.len() && !found
        invariant
            p <= sorted.len(),
            *sorted == *old(sorted),
            start == sorted.deep_view(),
            before == folder_before(order),
            forall|q: int| 0 <= q < p ==> !before(row.deep_view(), #[trigger] start[q]),
            found ==> p < sorted.len() && before(row.deep_view(), start[p as int]),
        decreases sorted.len() - p + (if found { 0int } else { 1int }),
    {
        let other = &sorted[p];
        if key_before(
            &row.name,
            row.created_at,
            row.updated_at,
            &other.name,
            other.created_at,
            other.updated_at,
            order,
        ) {
            found = true;
        } else {
            p += 1;
        }
    }
    proof {
        assert(is_slot(start, row.deep_view(), before, p as int));
        lemma_slot_unique(start, row.deep_view(), before, p as int);
    }
    let ghost v = row.deep_view();
    sorted.insert(p, row);
    assert(sorted.deep_view() =~= start.insert(p as int, v));
}

/// Puts a file where it goes.
fn place_file(sorted: &mut Vec<File>, row: File, order: SortOrder)
    ensures
        final(sorted).deep_view() == place(
            old(sorted).deep_view(),
            row.deep_view(),
            file_before(order),
        ),
{
    let ghost before = file_before(order);
    let ghost start = sorted.deep_view();
    let mut p: usize = 0;
    let mut found = false;
    while p < sorted.len() && !found
        invariant
            p <= sorted.len(),
            *sorted == *old(sorted),
            start == sorted.deep_view(),
            before == file_before(order),
            forall|q: int| 0 <= q < p ==> !before(row.deep_view(), #[trigger] start[q]),
            found ==> p < sorted.len() && before(row.deep_view(), start[p as int]),
        decreases sorted.len() - p + (if found { 0int } else { 1int }),
    {
        let other = &sorted[p];
        if key_before(
            &row.name,
            row.created_at,
            row.updated_at,
            &other.name,
            other.created_at,
            other.updated_at,
            order,
        ) {
            found = true;
        } else {
            p += 1;
        }
    }
    proof {
        assert(is_slot(start, row.deep_view(), before, p as int));
        lemma_slot_unique(start, row.deep_view(), before, p as int);
    }
    let ghost v = row.deep_view();
    sorted.insert(p, row);
    assert(sorted.deep_view() =~= start.insert(p as int, v));
}

/// Lists the folders directly below `parent`.
///
/// `folders` and `permissions` are the rows that the caller has read. The
/// listing holds every folder below `parent` that the principal may see, and
/// no other: an administrator sees all of them, anyone else those that their
/// own row for the folder lets them read. It comes in the order that
/// `order` asks for, ascending by name where `order` asks for nothing that is
/// known.
pub fn get_folders(
    folders: &Vec<Folder>,
    permissions: &Vec<Permission>,
    parent: Option<u128>,
    order: Option<String>,
    auth: &UserData,
) -> (res: Vec<Folder>)
    ensures
        res.deep_view() == folders_listed(
            folders.deep_view(),
            permissions@,
            parent,
            parse_order(order.deep_view()),
            auth.user_id,
            auth.admin,
        ),
{
    let order = match &order {
        Some(text) => SortOrder::parse(Some(text.as_str())),
        None => SortOrder::parse(None),
    };
    let ghost rows = folders.deep_view();
    let ghost shown = |f: FolderView|
        f.parent_id == parent && folder_readable(permissions@, auth.user_id, auth.admin, f);
    let mut out: Vec<Folder> = Vec::new();
    let mut i: usize = 0;
    assert(rows.take(0).filter(shown) =~= Seq::<FolderView>::empty()) by {
        reveal(Seq::filter);
    }
    while i < folders.len()
        invariant
            i <= folders.len(),
            rows == folders.deep_view(),
            shown == |f: FolderView|
                f.parent_id == parent && folder_readable(
                    permissions@,
                    auth.user_id,
                    auth.admin,
                    f,
                ),
            out.deep_view() == arrange(rows.take(i as int).filter(shown), folder_before(order)),
        decreases folders.len() - i,
    {
        let row = &folders[i];
        let ghost v = rows[i as int];
        let ghost so_far = rows.take(i as int).filter(shown);
        proof {
            assert(rows.take(i + 1) =~= rows.take(i as int).push(v));
            rows.take(i as int).lemma_filter_push(v, shown);
        }
        if row.parent_id == parent && (auth.admin || has_capability(
            permissions,
            auth.user_id,
            Some(row.id),
            PermissionKind::Read,
        )) {
            proof {
                assert(so_far.push(v).drop_last() =~= so_far);
            }
            place_folder(&mut out, row.clone(), order);
        }
        i += 1;
    }
    assert(rows.take(rows.len() as int) =~= rows);
    out
}

/// Lists the files directly in `parent`.
///
/// `files` and `permissions` are the rows that the caller has read. The
/// listing holds every file in `parent` that the principal may see, and no
/// other: an administrator sees all of them, anyone else sees them if their
/// own row for `parent` lets them read. It comes in the order that `order`
/// asks for, ascending by name where `order` asks for nothing that is known.
pub fn get_files(
    files: &Vec<File>,
    permissions: &Vec<Permission>,
    parent: Option<u128>,
    order: Option<String>,
    auth: &UserData,
) -> (res: Vec<File>)
    ensures
        res.deep_view() == files_listed(
            files.deep_view(),
            permissions@,
            parent,
            parse_order(order.deep_view()),
            auth.user_id,
            auth.admin,
        ),
{
    let order = match &order {
        Some(text) => SortOrder::parse(Some(text.as_str())),
        None => SortOrder::parse(None),
    };
    let ghost rows = files.deep_view();
    let ghost shown = |f: FileView|
        f.folder_id == parent && file_readable(permissions@, auth.user_id, auth.admin, f);
    let mut out: Vec<File> = Vec::new();
    let mut i: usize = 0;
    assert(rows.take(0).filter(shown) =~= Seq::<FileView>::empty()) by {
        reveal(Seq::filter);
    }
    while i < files.len()
        invariant
            i <= files.len(),
            rows == files.deep_view(),
            shown == |f: FileView|
                f.folder_id == parent && file_readable(permissions@, auth.user_id, auth.admin, f),
            out.deep_view() == arrange(rows.take(i as int).filter(shown), file_before(order)),
        decreases files.len() - i,
    {
        let row = &files[i];
        let ghost v = rows[i as int];
        let ghost so_far = rows.take(i as int).filter(shown);
        proof {
            assert(rows.take(i + 1) =~= rows.take(i as int).push(v));
            rows.take(i as int).lemma_filter_push(v, shown);
        }
        if row.folder_id == parent && (auth.admin || has_capability(
            permissions,
            auth.user_id,
            row.folder_id,
            PermissionKind::Read,
        )) {
            proof {
                assert(so_far.push(v).drop_last() =~= so_far);
            }
            place_file(&mut out, row.clone(), order);
        }
        i += 1;
    }
    assert(rows.take(rows.len() as int) =~= rows);
    out
}

/// Lists every folder that the principal may see, in the order of the
/// rows.
pub fn get_all_folders(
    folders: &Vec<Folder>,
    permissions: &Vec<Permission>,
    auth: &UserData,
) -> (res:
    Vec<Folder>)
    ensures
        res.deep_view() == folders.deep_view().filter(
            |f: FolderView| folder_readable(permissions@, auth.user_id, auth.admin, f),
        ),
{
    let ghost rows = folders.deep_view();
    let ghost shown = |f: FolderView| folder_readable(permissions@, auth.user_id, auth.admin, f);
    let mut out: Vec<Folder> = Vec::new();
    let mut i: usize = 0;
    assert(rows.take(0).filter(shown) =~= Seq::<FolderView>::empty()) by {
        reveal(Seq::filter);
    }
    while i < folders.len()
        invariant
            i <= folders.len(),
            rows == folders.deep_view(),
            shown == |f: FolderView| folder_readable(permissions@, auth.user_id, auth.admin, f),
            out.deep_view() == rows.take(i as int).filter(shown),
        decreases folders.len() - i,
    {
        let row = &folders[i];
        let ghost v = rows[i as int];
        proof {
            assert(rows.take(i + 1) =~= rows.take(i as int).push(v));
            rows.take(i as int).lemma_filter_push(v, shown);
        }
        if auth.admin || has_capability(
            permissions,
            auth.user_id,
            Some(row.id),
            PermissionKind::Read,
        ) {
            let ghost so_far = out.deep_view();
            out.push(row.clone());
            assert(out.deep_view() =~= so_far.push(v));
        }
        i += 1;
    }
    assert(rows.take(rows.len() as int) =~= rows);
    out
}

/// Lists every file that the principal may see, in the order of the rows.
pub fn get_all_files(files: &Vec<File>, permissions: &Vec<Permission>, auth: &UserData) -> (res:
    Vec<File>)
    ensures
        res.deep_view() == files.deep_view().filter(
            |f: FileView| file_readable(permissions@, auth.user_id, auth.admin, f),
        ),
{
    let ghost rows = files.deep_view();
    let ghost shown = |f: FileView| file_readable(permissions@, auth.user_id, auth.admin, f);
    let mut out: Vec<File> = Vec::new();
    let mut i: usize = 0;
    assert(rows.take(0).filter(shown) =~= Seq::<FileView>::empty()) by {
        reveal(Seq::filter);
    }
    while i < files.len()
        invariant
            i <= files.len(),
            rows == files.deep_view(),
            shown == |f: FileView| file_readable(permissions@, auth.user_id, auth.admin, f),
            out.deep_view() == rows.take(i as int).filter(shown),
        decreases files.len() - i,
    {
        let row = &files[i];
        let ghost v = rows[i as int];
        proof {
            assert(rows.take(i + 1) =~= rows.take(i as int).push(v));
            rows.take(i as int).lemma_filter_push(v, shown);
        }
        if auth.admin || has_capability(
            permissions,
            auth.user_id,
            row.folder_id,
            PermissionKind::Read,
        ) {
            let ghost so_far = out.deep_view();
            out.push(row.clone());
            assert(out.deep_view() =~= so_far.push(v));
        }
        i += 1;
    }
    assert(rows.take(rows.len() as int) =~= rows);
    out
}

/// The steps from the root down to folder `id`, for a principal who may
/// read that folder.
///
/// Anyone but an administrator needs `Read` on the folder itself and is
/// refused without it. A folder without a row is not found. Parent links
/// that lead nowhere or in a circle are a fault of the database.
pub open spec fn folders_path(
    folders: Seq<FolderView>,
    permissions: Seq<Permission>,
    id: Option<u128>,
    user_id: u128,
    admin: bool,
) -> Result<Seq<UuidPathView>, FailureView> {
    if !permitted(permissions, user_id, admin, id, PermissionKind::Read) {
        Err(forbidden(PermissionKind::Read))
    } else {
        match ancestry(folders, id) {
            Ok(steps) => Ok(steps),
            Err(ResolveError::NotFound) => Err(
                crate::models::failure(ErrorKind::NotFound, "folder not found"@),
            ),
            Err(_) => Err(database_fault()),
        }
    }
}

/// The steps from the root down to folder `id`.
pub fn get_folders_path(
    folders: &Vec<Folder>,
    permissions: &Vec<Permission>,
    id: Option<u128>,
    auth: &UserData,
) -> (res: Result<Vec<UuidPath>, Failure>)
    ensures
        match res {
            Ok(steps) => folders_path(
                folders.deep_view(),
                permissions@,
                id,
                auth.user_id,
                auth.admin,
            ) == Ok::<Seq<UuidPathView>, FailureView>(steps.deep_view()),
            Err(f) => folders_path(
                folders.deep_view(),
                permissions@,
                id,
                auth.user_id,
                auth.admin,
            ) == Err::<Seq<UuidPathView>, FailureView>(f.deep_view()),
        },
{
    match crate::perms::check_permission(permissions, auth, id, PermissionKind::Read) {
        Err(f) => Err(f),
        Ok(_) => match get_ancestry(folders, id) {
            Ok(steps) => Ok(steps),
            Err(ResolveError::NotFound) => Err(
                Failure::new(ErrorKind::NotFound, "folder not found"),
            ),
            Err(_) => Err(Failure::new(ErrorKind::DatabaseFault, "database error")),
        },
    }
}

/// Every row has a place to go.
pub proof fn lemma_slot_exists<A>(sorted: Seq<A>, x: A, before: spec_fn(A, A) -> bool)
    ensures
        is_slot(sorted, x, before, slot(sorted, x, before)),
{
    lemma_slot_from(sorted, x, before, 0);
}

proof fn lemma_slot_from<A>(sorted: Seq<A>, x: A, before: spec_fn(A, A) -> bool, p: int)
    requires
        0 <= p <= sorted.len(),
        forall|q: int| 0 <= q < p ==> !before(x, #[trigger] sorted[q]),
    ensures
        exists|r: int| is_slot(sorted, x, before, r),
    decreases sorted.len() - p,
{
    if p == sorted.len() || before(x, sorted[p]) {
        assert(is_slot(sorted, x, before, p));
    } else {
        lemma_slot_from(sorted, x, before, p + 1);
    }
}

/// Putting a row where it goes adds that row and nothing else.
pub proof fn lemma_place_adds<A>(sorted: Seq<A>, x: A, before: spec_fn(A, A) -> bool)
    ensures
        place(sorted, x, before).len() == sorted.len() + 1,
        place(sorted, x, before).to_multiset() == sorted.to_multiset().insert(x),
        forall|y: A| #[trigger]
            place(sorted, x, before).contains(y) <==> y == x || sorted.contains(y),
{
    lemma_slot_exists(sorted, x, before);
    let p = slot(sorted, x, before);
    let placed = place(sorted, x, before);
    sorted.insert_ensures(p, x);
    assert(placed.to_multiset() == sorted.to_multiset().insert(x)) by {
        broadcast use vstd::seq_lib::group_to_multiset_ensures;

        let head = sorted.subrange(0, p);
        let tail = sorted.subrange(p, sorted.len() as int);
        assert(sorted =~= head + tail);
        vstd::seq_lib::lemma_multiset_commutative(head, tail);
        vstd::seq_lib::lemma_multiset_commutative(head.push(x), tail);
        assert(placed.to_multiset() =~= sorted.to_multiset().insert(x));
    }
    assert forall|y: A| #[trigger] placed.contains(y) <==> y == x || sorted.contains(y) by {
        if placed.contains(y) {
            let i = choose|i: int| 0 <= i < placed.len() && placed[i] == y;
            if i < p {
                assert(sorted[i] == y);
            } else if i > p {
                assert(sorted[i - 1] == y);
            }
        }
        if sorted.contains(y) {
            let i = choose|i: int| 0 <= i < sorted.len() && sorted[i] == y;
            if i < p {
                assert(placed[i] == y);
            } else {
                assert(placed[i + 1] == y);
            }
        }
        if y == x {
            assert(placed[p] == x);
        }
    }
}

/// A listing holds the rows it was made of, each as often as it came, and
/// no other.
pub proof fn lemma_arrange_keeps_rows<A>(rows: Seq<A>, before: spec_fn(A, A) -> bool)
    ensures
        arrange(rows, before).len() == rows.len(),
        arrange(rows, before).to_multiset() == rows.to_multiset(),
        forall|y: A| #[trigger] arrange(rows, before).contains(y) <==> rows.contains(y),
    decreases rows.len(),
{
    broadcast use vstd::seq_lib::group_to_multiset_ensures;

    if rows.len() > 0 {
        let head = rows.drop_last();
        lemma_arrange_keeps_rows(head, before);
        lemma_place_adds(arrange(head, before), rows.last(), before);
        assert(rows =~= head.push(rows.last()));
        assert forall|y: A| #[trigger] arrange(rows, before).contains(y) <==> rows.contains(
            y,
        ) by {
            if rows.contains(y) {
                let i = choose|i: int| 0 <= i < rows.len() && rows[i] == y;
                if i < head.len() {
                    assert(head[i] == y);
                    assert(head.contains(y));
                }
            }
            if head.contains(y) {
                let i = choose|i: int| 0 <= i < head.len() && head[i] == y;
                assert(rows[i] == y);
            }
        }
    }
}

/// No row stands behind a row that it must come before.
pub open spec fn in_order<A>(rows: Seq<A>, before: spec_fn(A, A) -> bool) -> bool {
    forall|i: int, j: int|
        0 <= i < j < rows.len() ==> !before(#[trigger] rows[j], #[trigger] rows[i])
}

/// An order of rows in which no row comes before itself and coming before
/// carries over.
pub open spec fn strict_order<A>(before: spec_fn(A, A) -> bool) -> bool {
    &&& forall|a: A, b: A| #[trigger] before(a, b) ==> !before(b, a)
    &&& forall|a: A, b: A, c: A| #[trigger] before(a, b) && #[trigger] before(b, c) ==> before(a, c)
}

/// A listing is in order.
pub proof fn lemma_arrange_in_order<A>(rows: Seq<A>, before: spec_fn(A, A) -> bool)
    requires
        strict_order(before),
    ensures
        in_order(arrange(rows, before), before),
    decreases rows.len(),
{
    if rows.len() > 0 {
        let head = arrange(rows.drop_last(), before);
        let x = rows.last();
        lemma_arrange_in_order(rows.drop_last(), before);
        lemma_slot_exists(head, x, before);
        let p = slot(head, x, before);
        let placed = head.insert(p, x);
        head.insert_ensures(p, x);
        assert forall|i: int, j: int| 0 <= i < j < placed.len() implies !before(
            #[trigger] placed[j],
            #[trigger] placed[i],
        ) by {
            if j < p {
                assert(placed[i] == head[i] && placed[j] == head[j]);
            } else if j == p {
                assert(placed[i] == head[i]);
                assert(!before(x, head[i]));
            } else if i == p {
                assert(placed[j] == head[j - 1]);
                assert(before(x, head[p]));
                if j - 1 > p {
                    assert(!before(head[j - 1], head[p]));
                }
            } else if i < p {
                assert(placed[i] == head[i] && placed[j] == head[j - 1]);
            } else {
                assert(placed[i] == head[i - 1] && placed[j] == head[j - 1]);
            }
        }
    }
}

proof fn lemma_bytes_before_strict(a: Seq<u8>, b: Seq<u8>, c: Seq<u8>, i: int)
    requires
        0 <= i,
    ensures
        bytes_before_from(a, b, i) ==> !bytes_before_from(b, a, i),
        bytes_before_from(a, b, i) && bytes_before_from(b, c, i) ==> bytes_before_from(a, c, i),
    decreases a.len() - i, b.len() - i,
{
    if i < a.len() && i < b.len() && a[i] == b[i] {
        lemma_bytes_before_strict(a, b, c, i + 1);
        if i < c.len() && b[i] == c[i] {
        }
    }
}

/// Under each of the six orders, no row comes before itself and coming
/// before carries over.
pub proof fn lemma_orders_are_strict(order: SortOrder)
    ensures
        strict_order(folder_before(order)),
        strict_order(file_before(order)),
{
    assert forall|a: SortKey, b: SortKey, c: SortKey|
        (#[trigger] comes_before(a, b, order) ==> !comes_before(b, a, order)) && (comes_before(
            a,
            b,
            order,
        ) && #[trigger] comes_before(b, c, order) ==> comes_before(a, c, order)) by {
        lemma_bytes_before_strict(encode_utf8(a.name), encode_utf8(b.name), encode_utf8(c.name), 0);
        lemma_bytes_before_strict(encode_utf8(c.name), encode_utf8(b.name), encode_utf8(a.name), 0);
        lemma_bytes_before_strict(encode_utf8(b.name), encode_utf8(a.name), encode_utf8(c.name), 0);
    }
    let folders = folder_before(order);
    let files = file_before(order);
    assert forall|a: FolderView, b: FolderView| #[trigger] folders(a, b) implies !folders(b, a) by {
        assert(comes_before(folder_key(a), folder_key(b), order));
    }
    assert forall|a: FolderView, b: FolderView, c: FolderView| #[trigger]
        folders(a, b) && #[trigger] folders(b, c) implies folders(a, c) by {
        assert(comes_before(folder_key(a), folder_key(b), order));
        assert(comes_before(folder_key(b), folder_key(c), order));
    }
    assert forall|a: FileView, b: FileView| #[trigger] files(a, b) implies !files(b, a) by {
        assert(comes_before(file_key(a), file_key(b), order));
    }
    assert forall|a: FileView, b: FileView, c: FileView| #[trigger]
        files(a, b) && #[trigger] files(b, c) implies files(a, c) by {
        assert(comes_before(file_key(a), file_key(b), order));
        assert(comes_before(file_key(b), file_key(c), order));
    }
}

/// A listing of folders holds exactly the folders directly below the
/// parent that the principal may see, and holds them in the order asked
/// for.
pub proof fn lemma_folders_listed(
    folders: Seq<FolderView>,
    permissions: Seq<Permission>,
    parent: Option<u128>,
    order: SortOrder,
    user_id: u128,
    admin: bool,
)
    ensures
        ({
            let listed = folders_listed(folders, permissions, parent, order, user_id, admin);
            &&& in_order(listed, folder_before(order))
            &&& forall|f: FolderView| #[trigger]
                listed.contains(f) <==> folders.contains(f) && f.parent_id == parent
                    && folder_readable(permissions, user_id, admin, f)
        }),
{
    let shown = |f: FolderView|
        f.parent_id == parent && folder_readable(permissions, user_id, admin, f);
    let visible = folders.filter(shown);
    lemma_orders_are_strict(order);
    lemma_arrange_in_order(visible, folder_before(order));
    lemma_arrange_keeps_rows(visible, folder_before(order));
    let listed = folders_listed(folders, permissions, parent, order, user_id, admin);
    assert forall|f: FolderView| #[trigger]
        listed.contains(f) <==> folders.contains(f) && f.parent_id == parent && folder_readable(
            permissions,
            user_id,
            admin,
            f,
        ) by {
        if visible.contains(f) {
            let i = choose|i: int| 0 <= i < visible.len() && visible[i] == f;
            folders.lemma_filter_pred(shown, i);
            folders.lemma_filter_contains_rev(shown, f);
        }
        if folders.contains(f) && shown(f) {
            let i = choose|i: int| 0 <= i < folders.len() && folders[i] == f;
            folders.lemma_filter_contains(shown, i);
        }
    }
}

/// A listing of files holds exactly the files directly in the folder that
/// the principal may see, and holds them in the order asked for.
pub proof fn lemma_files_listed(
    files: Seq<FileView>,
    permissions: Seq<Permission>,
    parent: Option<u128>,
    order: SortOrder,
    user_id: u128,
    admin: bool,
)
    ensures
        ({
            let listed = files_listed(files, permissions, parent, order, user_id, admin);
            &&& in_order(listed, file_before(order))
            &&& forall|f: FileView| #[trigger]
                listed.contains(f) <==> files.contains(f) && f.folder_id == parent
                    && file_readable(permissions, user_id, admin, f)
        }),
{
    let shown = |f: FileView|
        f.folder_id == parent && file_readable(permissions, user_id, admin, f);
    let visible = files.filter(shown);
    lemma_orders_are_strict(order);
    lemma_arrange_in_order(visible, file_before(order));
    lemma_arrange_keeps_rows(visible, file_before(order));
    let listed = files_listed(files, permissions, parent, order, user_id, admin);
    assert forall|f: FileView| #[trigger]
        listed.contains(f) <==> files.contains(f) && f.folder_id == parent && file_readable(
            permissions,
            user_id,
            admin,
            f,
        ) by {
        if visible.contains(f) {
            let i = choose|i: int| 0 <= i < visible.len() && visible[i] == f;
            files.lemma_filter_pred(shown, i);
            files.lemma_filter_contains_rev(shown, f);
        }
        if files.contains(f) && shown(f) {
            let i = choose|i: int| 0 <= i < files.len() && files[i] == f;
            files.lemma_filter_contains(shown, i);
        }
    }
}

/// Reading is enough to list: a principal whose row for a folder grants
/// `Read` finds every file of that folder in its listing, whatever else the
/// row withholds; and so does an administrator without any row.
pub proof fn lemma_reader_sees_files(
    files: Seq<FileView>,
    permissions: Seq<Permission>,
    parent: Option<u128>,
    order: SortOrder,
    user_id: u128,
    admin: bool,
    i: int,
)
    requires
        0 <= i < files.len(),
        files[i].folder_id == parent,
        permitted(permissions, user_id, admin, parent, PermissionKind::Read),
    ensures
        files_listed(files, permissions, parent, order, user_id, admin).contains(files[i]),
{
    lemma_files_listed(files, permissions, parent, order, user_id, admin);
    assert(files.contains(files[i]));
}

} // verus!
