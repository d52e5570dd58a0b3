//! The rows of the store as a transaction sees them, and what each
//! statement does to them.
//!
//! This is the reference for the database side of the store: uniqueness of
//! names among siblings, foreign keys, and the cascade that takes
//! everything below a deleted folder with it.
use crate::models::{File, FileView, Folder, FolderView, Permission};
use crate::paths::{ancestry, find_folder, get_ancestry, has_folder, position};
use crate::perms::is_row_for;
use crate::saga::{Event, EventView};
use vstd::prelude::*;

verus! {

/// The three tables of the store.
#[derive(Debug)]
pub struct Tables {
    pub folders: Vec<Folder>,
    pub files: Vec<File>,
    pub permissions: Vec<Permission>,
}

/// The mathematical value of the [`Tables`].
pub struct TablesView {
    pub folders: Seq<FolderView>,
    pub files: Seq<FileView>,
    pub permissions: Seq<Permission>,
}

impl DeepView for Tables {
    type V = TablesView;

    open spec fn deep_view(&self) -> TablesView {
        TablesView {
            folders: self.folders.deep_view(),
            files: self.files.deep_view(),
            permissions: self.permissions@,
        }
    }
}

/// Some folder below `parent` is called `name`.
pub open spec fn folder_name_taken(
    folders: Seq<FolderView>,
    parent: Option<u128>,
    name: Seq<char>,
) -> bool {
    exists|i: int|
        0 <= i < folders.len() && (#[trigger] folders[i]).parent_id == parent && folders[i].name
            == name
}

/// Some folder below `parent`, other than `id`, is called `name`.
pub open spec fn folder_name_taken_by_other(
    folders: Seq<FolderView>,
    parent: Option<u128>,
    name: Seq<char>,
    id: u128,
) -> bool {
    exists|i: int|
        0 <= i < folders.len() && (#[trigger] folders[i]).parent_id == parent && folders[i].name
            == name && folders[i].id != id
}

/// Some file in `folder` is called `name`.
pub open spec fn file_name_taken(
    files: Seq<FileView>,
    folder: Option<u128>,
    name: Seq<char>,
) -> bool {
    exists|i: int|
        0 <= i < files.len() && (#[trigger] files[i]).folder_id == folder && files[i].name == name
}

/// Some file in `folder`, other than `id`, is called `name`.
pub open spec fn file_name_taken_by_other(
    files: Seq<FileView>,
    folder: Option<u128>,
    name: Seq<char>,
    id: u128,
) -> bool {
    exists|i: int|
        0 <= i < files.len() && (#[trigger] files[i]).folder_id == folder && files[i].name == name
            && files[i].id != id
}

/// `i` is the place of the first file with identifier `id`.
pub open spec fn first_file_at(files: Seq<FileView>, id: u128, i: int) -> bool {
    &&& 0 <= i < files.len()
    &&& files[i].id == id
    &&& forall|j: int| 0 <= j < i ==> (#[trigger] files[j]).id != id
}

/// Some file has identifier `id`.
pub open spec fn has_file(files: Seq<FileView>, id: u128) -> bool {
    exists|i: int| 0 <= i < files.len() && (#[trigger] files[i]).id == id
}

/// The place of the first file with identifier `id`; arbitrary where there
/// is none.
pub open spec fn file_position(files: Seq<FileView>, id: u128) -> int {
    choose|i: int| first_file_at(files, id, i)
}

/// Whether `folder` names a place where a row can be put: the root, or a
/// folder that has a row.
pub open spec fn folder_known(folders: Seq<FolderView>, folder: Option<u128>) -> bool {
    match folder {
        None => true,
        Some(id) => has_folder(folders, id),
    }
}

/// Whether folder `x` is `root` or lies below it: `root` is one of the steps
/// from the top of the tree down to `x`.
pub open spec fn in_subtree(folders: Seq<FolderView>, root: u128, x: u128) -> bool {
    match ancestry(folders, Some(x)) {
        Ok(steps) => exists|i: int| 0 <= i < steps.len() && (#[trigger] steps[i]).id == root,
        Err(_) => false,
    }
}

/// Whether `folder` is `root` or lies below it. The root of the store lies
/// below no folder.
pub open spec fn lies_in(folders: Seq<FolderView>, root: u128, folder: Option<u128>) -> bool {
    match folder {
        None => false,
        Some(x) => in_subtree(folders, root, x),
    }
}

/// The rows after folder `id` was deleted: the folder, every folder below
/// it, and every file and permission that belongs to one of those are gone;
/// all other rows stay, in their order.
pub open spec fn cascade(t: TablesView, id: u128) -> TablesView {
    TablesView {
        folders: t.folders.filter(|f: FolderView| !in_subtree(t.folders, id, f.id)),
        files: t.files.filter(|f: FileView| !lies_in(t.folders, id, f.folder_id)),
        permissions: t.permissions.filter(|p: Permission| !lies_in(t.folders, id, p.folder_id)),
    }
}

/// What inserting a folder does.
///
/// A parent without a row breaks the foreign key and fails. A sibling of
/// the same name is a duplicate. In both cases the rows stay as they are.
/// Otherwise the row is put last, under identifier `id` and with both its
/// times set to `now`.
pub open spec fn insert_folder(
    t: TablesView,
    name: Seq<char>,
    parent: Option<u128>,
    owner: u128,
    id: u128,
    now: i64,
) -> (TablesView, EventView) {
    if !folder_known(t.folders, parent) {
        (t, EventView::Failed)
    } else if folder_name_taken(t.folders, parent, name) {
        (t, EventView::Duplicate)
    } else {
        let row = FolderView {
            id,
            parent_id: parent,
            owner_id: owner,
            name,
            created_at: now,
            updated_at: now,
        };
        (TablesView { folders: t.folders.push(row), ..t }, EventView::Inserted(id))
    }
}

/// Some permission row is keyed by `user` and `folder`.
pub open spec fn has_row_for(rows: Seq<Permission>, user: u128, folder: Option<u128>) -> bool {
    exists|i: int| 0 <= i < rows.len() && is_row_for(#[trigger] rows[i], user, folder)
}

/// What granting a user everything in a folder does.
///
/// It fails, and changes nothing, where the folder has no row or the user
/// already has a row for it. Otherwise a row with all three capabilities is
/// put last.
pub open spec fn grant_all(t: TablesView, user: u128, folder: u128, id: u128) -> (
    TablesView,
    EventView,
) {
    if !has_folder(t.folders, folder) || has_row_for(t.permissions, user, Some(folder)) {
        (t, EventView::Failed)
    } else {
        let row = Permission {
            id,
            folder_id: Some(folder),
            user_id: user,
            read: true,
            modify: true,
            edit: true,
        };
        (TablesView { permissions: t.permissions.push(row), ..t }, EventView::Done)
    }
}

/// What deleting a folder does: without a row for `id` nothing changes and
/// no row is counted; otherwise the cascade runs and one row is counted.
pub open spec fn delete_folder_rows(t: TablesView, id: u128) -> (TablesView, EventView) {
    if !has_folder(t.folders, id) {
        (t, EventView::Affected(0))
    } else {
        (cascade(t, id), EventView::Affected(1))
    }
}

/// What renaming a folder does.
///
/// Without a row for `id` nothing changes and no row is counted. Where
/// another folder below the same parent has the new name, the statement is
/// a duplicate and changes nothing. Otherwise the row gets the name, and
/// `now` as the time of its last change.
pub open spec fn rename_folder_row(t: TablesView, id: u128, name: Seq<char>, now: i64) -> (
    TablesView,
    EventView,
) {
    if !has_folder(t.folders, id) {
        (t, EventView::Affected(0))
    } else {
        let k = position(t.folders, id);
        let row = t.folders[k];
        if folder_name_taken_by_other(t.folders, row.parent_id, name, id) {
            (t, EventView::Duplicate)
        } else {
            (
                TablesView {
                    folders: t.folders.update(k, FolderView { name, updated_at: now, ..row }),
                    ..t
                },
                EventView::Affected(1),
            )
        }
    }
}

/// The file row with identifier `id`, if there is one.
pub open spec fn find_file(t: TablesView, id: u128) -> Option<FileView> {
    if has_file(t.files, id) {
        Some(t.files[file_position(t.files, id)])
    } else {
        None
    }
}

/// What inserting a file does.
///
/// A folder without a row breaks the foreign key and fails. A file of the
/// same name in the folder is a duplicate. In both cases the rows stay as
/// they are. Otherwise the row is put last, under identifier `id`.
pub open spec fn insert_file(
    t: TablesView,
    owner: u128,
    folder: Option<u128>,
    name: Seq<char>,
    size: i64,
    id: u128,
    now: i64,
) -> (TablesView, EventView) {
    if !folder_known(t.folders, folder) {
        (t, EventView::Failed)
    } else if file_name_taken(t.files, folder, name) {
        (t, EventView::Duplicate)
    } else {
        let row = FileView {
            id,
            folder_id: folder,
            owner_id: owner,
            name,
            size: Some(size),
            created_at: now,
            updated_at: now,
        };
        (TablesView { files: t.files.push(row), ..t }, EventView::Inserted(id))
    }
}

/// What deleting a file does: the row with identifier `id` goes and is
/// counted, or there is none and nothing changes.
pub open spec fn delete_file_row(t: TablesView, id: u128) -> (TablesView, EventView) {
    if !has_file(t.files, id) {
        (t, EventView::Affected(0))
    } else {
        (
            TablesView { files: t.files.remove(file_position(t.files, id)), ..t },
            EventView::Affected(1),
        )
    }
}

/// What deleting the file of a given name does: every row of that name in
/// that folder goes and is counted; all other rows stay, in their order.
pub open spec fn delete_file_named(t: TablesView, folder: Option<u128>, name: Seq<char>) -> (
    TablesView,
    EventView,
) {
    let kept = t.files.filter(|f: FileView| !(f.folder_id == folder && f.name == name));
    (TablesView { files: kept, ..t }, EventView::Affected((t.files.len() - kept.len()) as u64))
}

/// What renaming a file does.
///
/// Without a row for `id` nothing changes and no row is counted. Where
/// another file in the same folder has the new name, the statement is a
/// duplicate and changes nothing. Otherwise the row gets the name, and `now`
/// as the time of its last change.
pub open spec fn rename_file_row(t: TablesView, id: u128, name: Seq<char>, now: i64) -> (
    TablesView,
    EventView,
) {
    if !has_file(t.files, id) {
        (t, EventView::Affected(0))
    } else {
        let k = file_position(t.files, id);
        let row = t.files[k];
        if file_name_taken_by_other(t.files, row.folder_id, name, id) {
            (t, EventView::Duplicate)
        } else {
            (
                TablesView {
                    files: t.files.update(k, FileView { name, updated_at: now, ..row }),
                    ..t
                },
                EventView::Affected(1),
            )
        }
    }
}

/// Where a file has identifier `id`, `file_position` is the place of the
/// first such file, and no other place is.
pub proof fn lemma_file_position(files: Seq<FileView>, id: u128, k: int)
    requires
        first_file_at(files, id, k),
    ensures
        file_position(files, id) == k,
        has_file(files, id),
{
    let p = file_position(files, id);
    assert(first_file_at(files, id, p));
    if p < k {
        assert(files[p].id != id);
    }
    if k < p {
        assert(files[k].id != id);
    }
}

/// Whether some folder below `parent` is called `name`; with `except`, a
/// folder of that identifier is not counted.
pub fn folder_taken(
    folders: &Vec<Folder>,
    parent: Option<u128>,
    name: &String,
    except: Option<u128>,
) -> (res: bool)
    ensures
        res == (match except {
            None => folder_name_taken(folders.deep_view(), parent, name@),
            Some(id) => folder_name_taken_by_other(folders.deep_view(), parent, name@, id),
        }),
{
    let mut i: usize = 0;
    while i < folders.len()
        invariant
            i <= folders.len(),
            forall|j: int|
                0 <= j < i ==> !({
                    let f = #[trigger] folders.deep_view()[j];
                    f.parent_id == parent && f.name == name@ && (except is None || f.id
                        != except->0)
                }),
        decreases folders.len() - i,
    {
        let f = &folders[i];
        let counted = match except {
            None => true,
            Some(id) => f.id != id,
        };
        if f.parent_id == parent && f.name == *name && counted {
            proof {
                let v = folders.deep_view()[i as int];
                assert(v.parent_id == parent && v.name == name@);
            }
            return true;
        }
        i += 1;
    }
    false
}

/// Whether some file in `folder` is called `name`; with `except`, a file of
/// that identifier is not counted.
pub fn file_taken(
    files: &Vec<File>,
    folder: Option<u128>,
    name: &String,
    except: Option<u128>,
) -> (res:
    bool)
    ensures
        res == (match except {
            None => file_name_taken(files.deep_view(), folder, name@),
            Some(id) => file_name_taken_by_other(files.deep_view(), folder, name@, id),
        }),
{
    let mut i: usize = 0;
    while i < files.len()
        invariant
            i <= files.len(),
            forall|j: int|
                0 <= j < i ==> !({
                    let f = #[trigger] files.deep_view()[j];
                    f.folder_id == folder && f.name == name@ && (except is None || f.id
                        != except->0)
                }),
        decreases files.len() - i,
    {
        let f = &files[i];
        let counted = match except {
            None => true,
            Some(id) => f.id != id,
        };
        if f.folder_id == folder && f.name == *name && counted {
            proof {
                let v = files.deep_view()[i as int];
                assert(v.folder_id == folder && v.name == name@);
            }
            return true;
        }
        i += 1;
    }
    false
}

/// The place of the first file with identifier `id`, if there is one.
pub fn find_file_index(files: &Vec<File>, id: u128) -> (res: Option<usize>)
    ensures
        res is Some <==> has_file(files.deep_view(), id),
        res is Some ==> res->0 == file_position(files.deep_view(), id) && res->0 < files.len(),
{
    let mut i: usize = 0;
    while i < files.len()
        invariant
            i <= files.len(),
            forall|j: int| 0 <= j < i ==> (#[trigger] files.deep_view()[j]).id != id,
        decreases files.len() - i,
    {
        if files[i].id == id {
            proof {
                assert(files.deep_view()[i as int].id == id);
                lemma_file_position(files.deep_view(), id, i as int);
            }
            return Some(i);
        }
        i += 1;
    }
    None
}

/// Whether `folder` is the root or a folder that has a row.
pub fn known_folder(folders: &Vec<Folder>, folder: Option<u128>) -> (res: bool)
    ensures
        res == folder_known(folders.deep_view(), folder),
{
    match folder {
        None => true,
        Some(id) => find_folder(folders, id).is_some(),
    }
}

/// Whether folder `x` is `root` or lies below it.
pub fn subtree_holds(folders: &Vec<Folder>, root: u128, x: u128) -> (res: bool)
    ensures
        res == in_subtree(folders.deep_view(), root, x),
{
    match get_ancestry(folders, Some(x)) {
        Ok(steps) => {
            let mut i: usize = 0;
            while i < steps.len()
                invariant
                    i <= steps.len(),
                    ancestry(folders.deep_view(), Some(x)) == Ok::<
                        Seq<crate::paths::UuidPathView>,
                        crate::paths::ResolveError,
                    >(steps.deep_view()),
                    forall|j: int| 0 <= j < i ==> (#[trigger] steps.deep_view()[j]).id != root,
                decreases steps.len() - i,
            {
                if steps[i].id == root {
                    proof {
                        let found = ancestry(folders.deep_view(), Some(x))->Ok_0;
                        assert(found == steps.deep_view());
                        assert(found[i as int].id == root);
                    }
                    return true;
                }
                i += 1;
            }
            false
        },
        Err(_) => false,
    }
}

/// Whether `folder` is `root` or lies below it.
pub fn folder_lies_in(folders: &Vec<Folder>, root: u128, folder: Option<u128>) -> (res: bool)
    ensures
        res == lies_in(folders.deep_view(), root, folder),
{
    match folder {
        None => false,
        Some(x) => subtree_holds(folders, root, x),
    }
}

/// A copy of the folder rows.
pub fn copy_folders(rows: &Vec<Folder>) -> (res: Vec<Folder>)
    ensures
        res.deep_view() == rows.deep_view(),
{
    let mut out: Vec<Folder> = Vec::new();
    let mut i: usize = 0;
    while i < rows.len()
        invariant
            i <= rows.len(),
            out.len() == i,
            forall|k: int| 0 <= k < i ==> out[k].deep_view() == rows[k].deep_view(),
        decreases rows.len() - i,
    {
        out.push(rows[i].clone());
        i += 1;
    }
    assert(out.deep_view() =~= rows.deep_view());
    out
}

/// A copy of the file rows.
pub fn copy_files(rows: &Vec<File>) -> (res: Vec<File>)
    ensures
        res.deep_view() == rows.deep_view(),
{
    let mut out: Vec<File> = Vec::new();
    let mut i: usize = 0;
    while i < rows.len()
        invariant
            i <= rows.len(),
            out.len() == i,
            forall|k: int| 0 <= k < i ==> out[k].deep_view() == rows[k].deep_view(),
        decreases rows.len() - i,
    {
        out.push(rows[i].clone());
        i += 1;
    }
    assert(out.deep_view() =~= rows.deep_view());
    out
}

/// A copy of the permission rows.
pub fn copy_permissions(rows: &Vec<Permission>) -> (res: Vec<Permission>)
    ensures
        res@ == rows@,
{
    let mut out: Vec<Permission> = Vec::new();
    let mut i: usize = 0;
    while i < rows.len()
        invariant
            i <= rows.len(),
            out.len() == i,
            forall|k: int| 0 <= k < i ==> out[k] == rows[k],
        decreases rows.len() - i,
    {
        out.push(rows[i]);
        i += 1;
    }
    assert(out@ =~= rows@);
    out
}

impl Tables {
    /// No rows at all.
    pub fn new() -> (res: Tables)
        ensures
            res.deep_view().folders.len() == 0,
            res.deep_view().files.len() == 0,
            res.deep_view().permissions.len() == 0,
    {
        Tables { folders: Vec::new(), files: Vec::new(), permissions: Vec::new() }
    }

    /// A copy of all rows.
    pub fn duplicate(&self) -> (res: Tables)
        ensures
            res.deep_view() == self.deep_view(),
    {
        Tables {
            folders: copy_folders(&self.folders),
            files: copy_files(&self.files),
            permissions: copy_permissions(&self.permissions),
        }
    }

    /// Inserts a folder row.
    pub fn insert_folder(
        &mut self,
        name: &String,
        parent: Option<u128>,
        owner: u128,
        id: u128,
        now: i64,
    ) -> (e: Event)
        ensures
            (final(self).deep_view(), e.deep_view()) == insert_folder(
                old(self).deep_view(),
                name@,
                parent,
                owner,
                id,
                now,
            ),
    {
        if !known_folder(&self.folders, parent) {
            return Event::Failed;
        }
        if folder_taken(&self.folders, parent, name, None) {
            return Event::Duplicate;
        }
        self.folders.push(
            Folder {
                id,
                parent_id: parent,
                owner_id: owner,
                name: name.clone(),
                created_at: now,
                updated_at: now,
            },
        );
        proof {
            let row = FolderView {
                id,
                parent_id: parent,
                owner_id: owner,
                name: name@,
                created_at: now,
                updated_at: now,
            };
            assert(self.folders.deep_view() =~= old(self).folders.deep_view().push(row));
        }
        Event::Inserted(id)
    }

    /// Grants a user everything in a folder.
    pub fn grant_all(&mut self, user: u128, folder: u128, id: u128) -> (e: Event)
        ensures
            (final(self).deep_view(), e.deep_view()) == grant_all(
                old(self).deep_view(),
                user,
                folder,
                id,
            ),
    {
        if find_folder(&self.folders, folder).is_none() {
            return Event::Failed;
        }
        let mut i: usize = 0;
        while i < self.permissions.len()
            invariant
                i <= self.permissions.len(),
                *self == *old(self),
                forall|j: int|
                    0 <= j < i ==> !is_row_for(#[trigger] self.permissions@[j], user, Some(folder)),
            decreases self.permissions.len() - i,
        {
            let row = &self.permissions[i];
            if row.user_id == user && row.folder_id == Some(folder) {
                assert(is_row_for(self.permissions@[i as int], user, Some(folder)));
                return Event::Failed;
            }
            i += 1;
        }
        self.permissions.push(
            Permission {
                id,
                folder_id: Some(folder),
                user_id: user,
                read: true,
                modify: true,
                edit: true,
            },
        );
        Event::Done
    }

    /// Deletes a folder row and all that hangs below it.
    pub fn delete_folder(&mut self, id: u128) -> (e: Event)
        ensures
            (final(self).deep_view(), e.deep_view()) == delete_folder_rows(
                old(self).deep_view(),
                id,
            ),
    {
        if find_folder(&self.folders, id).is_none() {
            return Event::Affected(0);
        }
        let ghost before = self.deep_view();
        let ghost doomed_folder = |f: FolderView| !in_subtree(before.folders, id, f.id);
        let ghost doomed_file = |f: FileView| !lies_in(before.folders, id, f.folder_id);
        let ghost doomed_row = |p: Permission| !lies_in(before.folders, id, p.folder_id);
        let mut folders: Vec<Folder> = Vec::new();
        let mut i: usize = 0;
        while i < self.folders.len()
            invariant
                i <= self.folders.len(),
                *self == *old(self),
                before == self.deep_view(),
                doomed_folder == |f: FolderView| !in_subtree(before.folders, id, f.id),
                folders.deep_view() == before.folders.take(i as int).filter(doomed_folder),
            decreases self.folders.len() - i,
        {
            let keep = !subtree_holds(&self.folders, id, self.folders[i].id);
            let ghost row = before.folders[i as int];
            proof {
                assert(before.folders.take(i + 1) =~= before.folders.take(i as int).push(row));
                before.folders.take(i as int).lemma_filter_push(row, doomed_folder);
            }
            if keep {
                let ghost kept = folders.deep_view();
                folders.push(self.folders[i].clone());
                assert(folders.deep_view() =~= kept.push(row));
            }
            i += 1;
        }
        let mut files: Vec<File> = Vec::new();
        let mut i: usize = 0;
        while i < self.files.len()
            invariant
                i <= self.files.len(),
                *self == *old(self),
                before == self.deep_view(),
                doomed_file == |f: FileView| !lies_in(before.folders, id, f.folder_id),
                files.deep_view() == before.files.take(i as int).filter(doomed_file),
            decreases self.files.len() - i,
        {
            let keep = !folder_lies_in(&self.folders, id, self.files[i].folder_id);
            let ghost row = before.files[i as int];
            proof {
                assert(before.files.take(i + 1) =~= before.files.take(i as int).push(row));
                before.files.take(i as int).lemma_filter_push(row, doomed_file);
            }
            if keep {
                let ghost kept = files.deep_view();
                files.push(self.files[i].clone());
                assert(files.deep_view() =~= kept.push(row));
            }
            i += 1;
        }
        let mut permissions: Vec<Permission> = Vec::new();
        let mut i: usize = 0;
        while i < self.permissions.len()
            invariant
                i <= self.permissions.len(),
                *self == *old(self),
                before == self.deep_view(),
                doomed_row == |p: Permission| !lies_in(before.folders, id, p.folder_id),
                permissions@ == before.permissions.take(i as int).filter(doomed_row),
            decreases self.permissions.len() - i,
        {
            let keep = !folder_lies_in(&self.folders, id, self.permissions[i].folder_id);
            let ghost row = before.permissions[i as int];
            proof {
                assert(before.permissions.take(i + 1) =~= before.permissions.take(i as int).push(
                    row,
                ));
                before.permissions.take(i as int).lemma_filter_push(row, doomed_row);
            }
            if keep {
                permissions.push(self.permissions[i]);
            }
            i += 1;
        }
        proof {
            assert(before.folders.take(before.folders.len() as int) =~= before.folders);
            assert(before.files.take(before.files.len() as int) =~= before.files);
            assert(before.permissions.take(before.permissions.len() as int)
                =~= before.permissions);
        }
        self.folders = folders;
        self.files = files;
        self.permissions = permissions;
        Event::Affected(1)
    }

    /// Gives a folder row another name.
    pub fn rename_folder(&mut self, id: u128, name: &String, now: i64) -> (e: Event)
        ensures
            (final(self).deep_view(), e.deep_view()) == rename_folder_row(
                old(self).deep_view(),
                id,
                name@,
                now,
            ),
    {
        match find_folder(&self.folders, id) {
            None => Event::Affected(0),
            Some(k) => {
                let parent = self.folders[k].parent_id;
                if folder_taken(&self.folders, parent, name, Some(id)) {
                    return Event::Duplicate;
                }
                let ghost row = self.folders.deep_view()[k as int];
                let old_row = &self.folders[k];
                let renamed = Folder {
                    id: old_row.id,
                    parent_id: old_row.parent_id,
                    owner_id: old_row.owner_id,
                    name: name.clone(),
                    created_at: old_row.created_at,
                    updated_at: now,
                };
                self.folders.set(k, renamed);
                proof {
                    assert(self.folders.deep_view() =~= old(self).folders.deep_view().update(
                        k as int,
                        FolderView { name: name@, updated_at: now, ..row },
                    ));
                }
                Event::Affected(1)
            },
        }
    }

    /// The file row with identifier `id`, if there is one.
    pub fn find_file(&self, id: u128) -> (res: Option<File>)
        ensures
            res.deep_view() == find_file(self.deep_view(), id),
    {
        match find_file_index(&self.files, id) {
            Some(k) => Some(self.files[k].clone()),
            None => None,
        }
    }

    /// Inserts a file row.
    pub fn insert_file(
        &mut self,
        owner: u128,
        folder: Option<u128>,
        name: &String,
        size: i64,
        id: u128,
        now: i64,
    ) -> (e: Event)
        ensures
            (final(self).deep_view(), e.deep_view()) == insert_file(
                old(self).deep_view(),
                owner,
                folder,
                name@,
                size,
                id,
                now,
            ),
    {
        if !known_folder(&self.folders, folder) {
            return Event::Failed;
        }
        if file_taken(&self.files, folder, name, None) {
            return Event::Duplicate;
        }
        self.files.push(
            File {
                id,
                folder_id: folder,
                owner_id: owner,
                name: name.clone(),
                size: Some(size),
                created_at: now,
                updated_at: now,
            },
        );
        proof {
            let row = FileView {
                id,
                folder_id: folder,
                owner_id: owner,
                name: name@,
                size: Some(size),
                created_at: now,
                updated_at: now,
            };
            assert(self.files.deep_view() =~= old(self).files.deep_view().push(row));
        }
        Event::Inserted(id)
    }

    /// Deletes a file row.
    pub fn delete_file(&mut self, id: u128) -> (e: Event)
        ensures
            (final(self).deep_view(), e.deep_view()) == delete_file_row(old(self).deep_view(), id),
    {
        match find_file_index(&self.files, id) {
            None => Event::Affected(0),
            Some(k) => {
                self.files.remove(k);
                assert(self.files.deep_view() =~= old(self).files.deep_view().remove(k as int));
                Event::Affected(1)
            },
        }
    }

    /// Deletes every file row of that name in a folder.
    pub fn delete_file_named(&mut self, folder: Option<u128>, name: &String) -> (e: Event)
        ensures
            (final(self).deep_view(), e.deep_view()) == delete_file_named(
                old(self).deep_view(),
                folder,
                name@,
            ),
    {
        let ghost before = self.deep_view();
        let ghost other = |f: FileView| !(f.folder_id == folder && f.name == name@);
        let mut kept: Vec<File> = Vec::new();
        let mut i: usize = 0;
        while i < self.files.len()
            invariant
                i <= self.files.len(),
                *self == *old(self),
                before == self.deep_view(),
                other == |f: FileView| !(f.folder_id == folder && f.name == name@),
                kept.deep_view() == before.files.take(i as int).filter(other),
                kept.len() <= i,
            decreases self.files.len() - i,
        {
            let row = &self.files[i];
            let keep = !(row.folder_id == folder && row.name == *name);
            let ghost v = before.files[i as int];
            proof {
                assert(before.files.take(i + 1) =~= before.files.take(i as int).push(v));
                before.files.take(i as int).lemma_filter_push(v, other);
            }
            if keep {
                let ghost so_far = kept.deep_view();
                kept.push(row.clone());
                assert(kept.deep_view() =~= so_far.push(v));
            }
            i += 1;
        }
        assert(before.files.take(before.files.len() as int) =~= before.files);
        let removed = self.files.len() - kept.len();
        self.files = kept;
        Event::Affected(removed as u64)
    }

    /// Gives a file row another name.
    pub fn rename_file(&mut self, id: u128, name: &String, now: i64) -> (e: Event)
        ensures
            (final(self).deep_view(), e.deep_view()) == rename_file_row(
                old(self).deep_view(),
                id,
                name@,
                now,
            ),
    {
        match find_file_index(&self.files, id) {
            None => Event::Affected(0),
            Some(k) => {
                let folder = self.files[k].folder_id;
                if file_taken(&self.files, folder, name, Some(id)) {
                    return Event::Duplicate;
                }
                let ghost row = self.files.deep_view()[k as int];
                let old_row = &self.files[k];
                let renamed = File {
                    id: old_row.id,
                    folder_id: old_row.folder_id,
                    owner_id: old_row.owner_id,
                    name: name.clone(),
                    size: old_row.size,
                    created_at: old_row.created_at,
                    updated_at: now,
                };
                self.files.set(k, renamed);
                proof {
                    assert(self.files.deep_view() =~= old(self).files.deep_view().update(
                        k as int,
                        FileView { name: name@, updated_at: now, ..row },
                    ));
                }
                Event::Affected(1)
            },
        }
    }
}

} // verus!
