//! When rows and disk say the same.
//!
//! The rows are sound when the folders form a tree and the files lie in
//! folders that are there, under names that are theirs alone. The disk
//! mirrors the rows when every folder has its directory, every file its
//! bytes, and nothing else is on disk. A store is sound when both hold and
//! no transaction is open.
use crate::disk::{
    ensure_dir, entry_position, first_entry_at, has_entry, has_prefix, is_dir, is_file,
    lemma_entry_position, lemma_first_entry, with_dirs, EntryView,
};
use crate::models::{ErrorKind, FailureView, FolderView, ReplyView};
use crate::paths::{has_folder, lemma_position, position};
use crate::store::StoreView;
use crate::tables::TablesView;
use crate::tree::{
    is_tree, lemma_path_unfolds, lemma_place_prefix, lemma_places_tell_folders_apart,
    lemma_trail_prefix, path_of, place_of,
};
use vstd::prelude::*;

verus! {

/// Where file row `i` is to be on disk: in the directory of its folder,
/// under its name.
pub open spec fn file_path_of(t: TablesView, i: int) -> Seq<Seq<char>> {
    place_of(t.folders, t.files[i].folder_id).push(t.files[i].name)
}

/// The rows are sound: the folders form a tree; no two files have the same
/// identifier; every file lies in the root or in a folder that is there; no
/// two files of one folder have the same name; and every permission is for
/// the root or for a folder that is there.
pub open spec fn rows_sound(t: TablesView) -> bool {
    &&& is_tree(t.folders)
    &&& forall|i: int, j: int|
        0 <= i < j < t.files.len() ==> (#[trigger] t.files[i]).id != (#[trigger] t.files[j]).id
    &&& forall|i: int|
        0 <= i < t.files.len() && (#[trigger] t.files[i]).folder_id is Some ==> has_folder(
            t.folders,
            t.files[i].folder_id->0,
        )
    &&& forall|i: int, j: int|
        0 <= i < j < t.files.len() && (#[trigger] t.files[i]).folder_id == (
        #[trigger] t.files[j]).folder_id ==> t.files[i].name != t.files[j].name
    &&& forall|i: int|
        0 <= i < t.permissions.len() && (#[trigger] t.permissions[i]).folder_id is Some
            ==> has_folder(t.folders, t.permissions[i].folder_id->0)
}

/// Every identifier in the rows is below `next`: `next` was never given
/// out.
pub open spec fn ids_below(t: TablesView, next: u128) -> bool {
    &&& forall|i: int| 0 <= i < t.folders.len() ==> (#[trigger] t.folders[i]).id < next
    &&& forall|i: int| 0 <= i < t.files.len() ==> (#[trigger] t.files[i]).id < next
}

/// A directory is on disk at `path`.
pub open spec fn dir_on_disk(d: Seq<EntryView>, path: Seq<Seq<char>>) -> bool {
    exists|k: int| 0 <= k < d.len() && (#[trigger] d[k]).path == path && d[k].content is None
}

/// A file is on disk at `path`.
pub open spec fn file_on_disk(d: Seq<EntryView>, path: Seq<Seq<char>>) -> bool {
    exists|k: int| 0 <= k < d.len() && (#[trigger] d[k]).path == path && d[k].content is Some
}

/// Some folder row has its place at `path`.
pub open spec fn folder_at(folders: Seq<FolderView>, path: Seq<Seq<char>>) -> bool {
    exists|i: int| 0 <= i < folders.len() && #[trigger] path_of(folders, i) == path
}

/// Some file row has its place at `path`.
pub open spec fn file_at(t: TablesView, path: Seq<Seq<char>>) -> bool {
    exists|i: int| 0 <= i < t.files.len() && #[trigger] file_path_of(t, i) == path
}

/// No two entries of the disk are at the same path.
pub open spec fn paths_distinct(d: Seq<EntryView>) -> bool {
    forall|k: int, l: int|
        0 <= k < l < d.len() ==> (#[trigger] d[k]).path != (#[trigger] d[l]).path
}

/// The disk mirrors the rows: every folder has its directory and every
/// file its bytes, each at the place that the rows give it; every directory
/// on disk is a folder's and every file on disk is a file row's; and no two
/// entries share a path.
pub open spec fn mirrors(t: TablesView, d: Seq<EntryView>) -> bool {
    &&& paths_distinct(d)
    &&& forall|i: int|
        0 <= i < t.folders.len() ==> dir_on_disk(d, #[trigger] path_of(t.folders, i))
    &&& forall|i: int| 0 <= i < t.files.len() ==> file_on_disk(d, #[trigger] file_path_of(t, i))
    &&& forall|k: int|
        0 <= k < d.len() && (#[trigger] d[k]).content is None ==> folder_at(t.folders, d[k].path)
    &&& forall|k: int|
        0 <= k < d.len() && (#[trigger] d[k]).content is Some ==> file_at(t, d[k].path)
}

/// The store is sound: no transaction is open, the committed rows are
/// sound and hold no identifier that is yet to be given out, and the disk
/// mirrors them.
pub open spec fn sound(w: StoreView) -> bool {
    &&& w.pending is None
    &&& rows_sound(w.committed)
    &&& ids_below(w.committed, w.next_id)
    &&& mirrors(w.committed, w.disk)
}

/// On a disk without two entries at one path, the entry at a path is the
/// one entry there.
pub proof fn lemma_the_entry(d: Seq<EntryView>, k: int)
    requires
        paths_distinct(d),
        0 <= k < d.len(),
    ensures
        has_entry(d, d[k].path),
        entry_position(d, d[k].path) == k,
        d[k].path.len() > 0 ==> is_dir(d, d[k].path) == (d[k].content is None),
        d[k].path.len() > 0 ==> is_file(d, d[k].path) == (d[k].content is Some),
{
    assert(first_entry_at(d, d[k].path, k)) by {
        assert forall|j: int| 0 <= j < k implies (#[trigger] d[j]).path != d[k].path by {}
    }
    lemma_entry_position(d, d[k].path, k);
}

/// On a disk without two entries at one path, a directory is at a path
/// that is not the root's exactly if a directory entry is there, and a file
/// exactly if a file entry is there.
pub proof fn lemma_kinds_of_entry(d: Seq<EntryView>, path: Seq<Seq<char>>)
    requires
        paths_distinct(d),
        path.len() > 0,
    ensures
        is_dir(d, path) == dir_on_disk(d, path),
        is_file(d, path) == file_on_disk(d, path),
        has_entry(d, path) == (dir_on_disk(d, path) || file_on_disk(d, path)),
        !(dir_on_disk(d, path) && file_on_disk(d, path)),
{
    if has_entry(d, path) {
        lemma_first_entry(d, path);
        let k = entry_position(d, path);
        lemma_the_entry(d, k);
        if dir_on_disk(d, path) {
            let l = choose|l: int|
                0 <= l < d.len() && (#[trigger] d[l]).path == path && d[l].content is None;
            lemma_the_entry(d, l);
        }
        if file_on_disk(d, path) {
            let l = choose|l: int|
                0 <= l < d.len() && (#[trigger] d[l]).path == path && d[l].content is Some;
            lemma_the_entry(d, l);
        }
    }
}

/// In sound rows, two file rows with the same place are one row.
pub proof fn lemma_file_paths_apart(t: TablesView, i: int, j: int)
    requires
        rows_sound(t),
        0 <= i < t.files.len(),
        0 <= j < t.files.len(),
        file_path_of(t, i) == file_path_of(t, j),
    ensures
        i == j,
{
    let a = file_path_of(t, i);
    let b = file_path_of(t, j);
    assert(a.last() == t.files[i].name);
    assert(b.last() == t.files[j].name);
    assert(a.drop_last() =~= place_of(t.folders, t.files[i].folder_id));
    assert(b.drop_last() =~= place_of(t.folders, t.files[j].folder_id));
    lemma_places_tell_folders_apart(t.folders, t.files[i].folder_id, t.files[j].folder_id);
    if i < j {
        assert(t.files[i].name != t.files[j].name);
    }
    if j < i {
        assert(t.files[j].name != t.files[i].name);
    }
}

/// Where the disk mirrors sound rows, the directory of the root and of
/// every folder that is there is on disk.
pub proof fn lemma_folder_has_dir(t: TablesView, d: Seq<EntryView>, folder: Option<u128>)
    requires
        rows_sound(t),
        mirrors(t, d),
        folder is Some ==> has_folder(t.folders, folder->0),
    ensures
        is_dir(d, place_of(t.folders, folder)),
        folder is Some ==> dir_on_disk(d, place_of(t.folders, folder)) && place_of(
            t.folders,
            folder,
        ).len() > 0,
{
    if folder is Some {
        lemma_position(t.folders, folder->0);
        let i = position(t.folders, folder->0);
        lemma_path_unfolds(t.folders, i);
        assert(dir_on_disk(d, path_of(t.folders, i)));
        lemma_kinds_of_entry(d, path_of(t.folders, i));
    }
}

/// Where the disk mirrors sound rows, every directory on the way down to
/// an entry is on disk: for each entry, each path that its path begins with,
/// short of the whole, is the path of a directory.
pub proof fn lemma_dirs_above(t: TablesView, d: Seq<EntryView>, k: int, m: int)
    requires
        rows_sound(t),
        mirrors(t, d),
        0 <= k < d.len(),
        1 <= m < d[k].path.len(),
    ensures
        dir_on_disk(d, d[k].path.take(m)),
        folder_at(t.folders, d[k].path.take(m)),
{
    let rows = t.folders;
    if d[k].content is None {
        assert(folder_at(rows, d[k].path));
        let i = choose|i: int| 0 <= i < rows.len() && #[trigger] path_of(rows, i) == d[k].path;
        let j = lemma_trail_prefix(rows, i, m);
        assert(path_of(rows, j) == d[k].path.take(m));
        assert(dir_on_disk(d, path_of(rows, j)));
    } else {
        assert(file_at(t, d[k].path));
        let i = choose|i: int| 0 <= i < t.files.len() && #[trigger] file_path_of(t, i) == d[k].path;
        let place = place_of(rows, t.files[i].folder_id);
        assert(d[k].path.take(m) =~= place.take(m));
        let j = lemma_place_prefix(rows, t.files[i].folder_id, m);
        assert(dir_on_disk(d, path_of(rows, j)));
    }
}

/// Where the disk mirrors sound rows, nothing is below a path at which
/// there is no directory.
pub proof fn lemma_nothing_below(t: TablesView, d: Seq<EntryView>, path: Seq<Seq<char>>, k: int)
    requires
        rows_sound(t),
        mirrors(t, d),
        path.len() > 0,
        !dir_on_disk(d, path),
        0 <= k < d.len(),
    ensures
        !(d[k].path.len() > path.len() && has_prefix(d[k].path, path)),
{
    if d[k].path.len() > path.len() && has_prefix(d[k].path, path) {
        lemma_dirs_above(t, d, k, path.len() as int);
    }
}

/// Where the disk mirrors sound rows, the directory of a folder that is
/// there needs no making: making sure of it changes nothing.
pub proof fn lemma_dir_is_ensured(t: TablesView, d: Seq<EntryView>, folder: Option<u128>)
    requires
        rows_sound(t),
        mirrors(t, d),
        folder is Some ==> has_folder(t.folders, folder->0),
    ensures
        ensure_dir(d, place_of(t.folders, folder)) == (d, crate::saga::EventView::Done),
{
    let path = place_of(t.folders, folder);
    assert forall|k: int| 1 <= k <= path.len() implies !is_file(d, #[trigger] path.take(k))
        && has_entry(d, path.take(k)) by {
        let j = lemma_place_prefix(t.folders, folder, k);
        assert(dir_on_disk(d, path_of(t.folders, j)));
        lemma_kinds_of_entry(d, path.take(k));
    }
    lemma_with_dirs_same(d, path, path.len());
}

proof fn lemma_with_dirs_same(d: Seq<EntryView>, path: Seq<Seq<char>>, k: nat)
    requires
        k <= path.len(),
        forall|j: int| 1 <= j <= path.len() ==> has_entry(d, #[trigger] path.take(j)),
    ensures
        with_dirs(d, path, k) == d,
    decreases k,
{
    if k > 0 {
        lemma_with_dirs_same(d, path, (k - 1) as nat);
        assert(has_entry(d, path.take(k as int)));
    }
}

/// The store is where it was, but for the counters: the committed rows and
/// the disk are unchanged, no transaction is open, and no identifier was
/// taken back.
pub open spec fn restored(before: StoreView, after: StoreView) -> bool {
    &&& after.committed == before.committed
    &&& after.disk == before.disk
    &&& after.pending is None
    &&& after.next_id >= before.next_id
}

/// How a mutation may leave a sound store: sound again, where it ends
/// well; where it was, where it fails; and in any other way only where it
/// ends in a partial failure.
pub open spec fn left_sound(
    before: StoreView,
    after: StoreView,
    result: Result<ReplyView, FailureView>,
) -> bool {
    match result {
        Ok(_) => sound(after),
        Err(f) => f.kind != ErrorKind::PartialFailure ==> restored(before, after),
    }
}

} // verus!
