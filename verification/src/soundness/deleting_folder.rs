//! Deleting a folder from a sound store.
use crate::disk::{has_prefix, remove_dir_all, EntryView};
use crate::effects::deleting::{deleting_folder_on_course, lemma_deleting_folder_step_holds};
use crate::kept::{lemma_filter_picks, picks};
use crate::laws::{lemma_steps_advance, rank};
use crate::mirror::{
    dir_on_disk, file_at, file_on_disk, file_path_of, folder_at, ids_below, left_sound,
    lemma_kinds_of_entry, mirrors, paths_distinct, rows_sound, sound,
};
use crate::models::{FileView, FolderView, Permission};
use crate::paths::{has_folder, lemma_position, position};
use crate::saga::{fresh_saga, ActionView, EventView, SagaView, Stage};
use crate::store::{apply, run, run_from, step, MAX_STEPS, OperationView, StoreView};
use crate::tables::{cascade, in_subtree, lies_in, TablesView};
use crate::tree::{
    below, is_tree, lemma_below_is_prefix, lemma_below_unfolds, lemma_parent_place,
    lemma_path_unfolds, lemma_place_of, lemma_resolves, lemma_trail_unfolds, parent_place, path_of,
    place_of, trail,
};
use vstd::prelude::*;

verus! {

/// In a tree, a folder is in the subtree of the folder of row `r` exactly
/// if its row is row `r` or lies below it.
pub proof fn lemma_subtree_is_below(rows: Seq<FolderView>, r: int, x: int)
    requires
        is_tree(rows),
        0 <= r < rows.len(),
        0 <= x < rows.len(),
    ensures
        in_subtree(rows, rows[r].id, rows[x].id) == below(rows, r, x),
{
    lemma_resolves(rows, x);
}

/// The rows that are left when a subtree is taken out of a tree: every
/// row that is left has its parent left too.
pub open spec fn closed_upwards(rows: Seq<FolderView>, places: Seq<int>) -> bool {
    forall|a: int|
        0 <= a < places.len() && rows[#[trigger] places[a]].parent_id is Some ==> exists|b: int|
            0 <= b < a && #[trigger] places[b] == parent_place(rows, places[a])
}

/// What is left of a tree is a tree, where every row that is left has its
/// parent left too.
pub proof fn lemma_part_is_tree(rows: Seq<FolderView>, part: Seq<FolderView>, places: Seq<int>)
    requires
        is_tree(rows),
        picks(rows, part, places),
        closed_upwards(rows, places),
    ensures
        is_tree(part),
{
    assert forall|a: int, b: int| 0 <= a < b < part.len() implies (#[trigger] part[a]).id != (
    #[trigger] part[b]).id by {
        assert(places[a] < places[b]);
        assert(rows[places[a]].id != rows[places[b]].id);
    }
    assert forall|a: int|
        0 <= a < part.len() && (#[trigger] part[a]).parent_id is Some implies has_folder(
        part.take(a),
        part[a].parent_id->0,
    ) by {
        let i = places[a];
        lemma_parent_place(rows, i);
        let b = choose|b: int| 0 <= b < a && #[trigger] places[b] == parent_place(rows, i);
        assert(part.take(a)[b].id == part[a].parent_id->0);
    }
    assert forall|a: int, b: int|
        0 <= a < b < part.len() && (#[trigger] part[a]).parent_id == (
        #[trigger] part[b]).parent_id implies part[a].name != part[b].name by {
        assert(places[a] < places[b]);
        assert(rows[places[a]].parent_id == rows[places[b]].parent_id);
        assert(rows[places[a]].name != rows[places[b]].name);
    }
}

/// What is left of a tree keeps its paths: a row that is left resolves in
/// what is left to what it resolved to in the whole.
pub proof fn lemma_part_keeps_paths(
    rows: Seq<FolderView>,
    part: Seq<FolderView>,
    places: Seq<int>,
    a: int,
)
    requires
        is_tree(rows),
        is_tree(part),
        picks(rows, part, places),
        closed_upwards(rows, places),
        0 <= a < part.len(),
    ensures
        trail(part, a) == trail(rows, places[a]),
        path_of(part, a) == path_of(rows, places[a]),
    decreases a,
{
    let i = places[a];
    lemma_trail_unfolds(rows, i);
    lemma_trail_unfolds(part, a);
    if part[a].parent_id is Some {
        lemma_parent_place(rows, i);
        lemma_parent_place(part, a);
        let b = choose|b: int| 0 <= b < a && #[trigger] places[b] == parent_place(rows, i);
        let up = parent_place(part, a);
        assert(part[b].id == part[up].id);
        if b != up {
            if b < up {
                assert(part[b].id != part[up].id);
            } else {
                assert(part[up].id != part[b].id);
            }
        }
        lemma_part_keeps_paths(rows, part, places, up);
    }
}

/// A sound store without a folder and all that was below it, rows and
/// disk, is sound: the folder's directory is on disk, so it can be removed
/// with all that is in it, and what is left of the disk mirrors what the
/// cascade leaves of the rows.
pub proof fn lemma_subtree_gone_keeps_sound(t: TablesView, d: Seq<EntryView>, r: int)
    requires
        rows_sound(t),
        mirrors(t, d),
        0 <= r < t.folders.len(),
    ensures
        remove_dir_all(d, path_of(t.folders, r)).1 is Done,
        rows_sound(cascade(t, t.folders[r].id)),
        mirrors(cascade(t, t.folders[r].id), remove_dir_all(d, path_of(t.folders, r)).0),
{
    let rows = t.folders;
    let id = rows[r].id;
    let root = path_of(rows, r);
    let less = cascade(t, id);
    let keep_folder = |f: FolderView| !in_subtree(rows, id, f.id);
    let keep_file = |f: FileView| !lies_in(rows, id, f.folder_id);
    let keep_row = |p: Permission| !lies_in(rows, id, p.folder_id);
    let outside = |e: EntryView| !has_prefix(e.path, root);
    let part = rows.filter(keep_folder);
    let files = t.files.filter(keep_file);
    let disk = d.filter(outside);
    let places = lemma_filter_picks(rows, keep_folder);
    let file_places = lemma_filter_picks(t.files, keep_file);
    let entry_places = lemma_filter_picks(d, outside);
    lemma_path_unfolds(rows, r);
    assert(dir_on_disk(d, root));
    lemma_kinds_of_entry(d, root);
    assert(remove_dir_all(d, root) == (disk, EventView::Done));
    assert(less.folders == part && less.files == files);

    // a row is kept exactly if it is not below the deleted one
    assert forall|x: int| 0 <= x < rows.len() implies (keep_folder(#[trigger] rows[x]) == !below(
        rows,
        r,
        x,
    )) && (below(rows, r, x) == has_prefix(path_of(rows, x), root)) by {
        lemma_subtree_is_below(rows, r, x);
        lemma_below_is_prefix(rows, r, x);
    }
    assert(closed_upwards(rows, places)) by {
        assert forall|a: int|
            0 <= a < places.len() && rows[#[trigger] places[a]].parent_id is Some implies exists|
            b: int,
        |
            0 <= b < a && #[trigger] places[b] == parent_place(rows, places[a]) by {
            let i = places[a];
            lemma_parent_place(rows, i);
            let up = parent_place(rows, i);
            lemma_below_unfolds(rows, r, i);
            assert(keep_folder(rows[i]));
            assert(keep_folder(rows[up]));
            let b = choose|b: int| 0 <= b < places.len() && #[trigger] places[b] == up;
            if b >= a {
                if b > a {
                    assert(places[a] < places[b]);
                }
            }
        }
    }
    lemma_part_is_tree(rows, part, places);
    assert forall|a: int| 0 <= a < part.len() implies #[trigger] path_of(part, a) == path_of(
        rows,
        places[a],
    ) by {
        lemma_part_keeps_paths(rows, part, places, a);
    }
    // the place of a folder that is kept is what it was
    assert forall|folder: Option<u128>|
        (folder is Some ==> has_folder(rows, folder->0)) && !lies_in(
            rows,
            id,
            folder,
        ) implies #[trigger] place_of(part, folder) == place_of(rows, folder) && (folder is Some
        ==> has_folder(part, folder->0)) by {
        if folder is Some {
            lemma_position(rows, folder->0);
            let i = position(rows, folder->0);
            assert(keep_folder(rows[i]));
            let a = choose|a: int| 0 <= a < places.len() && #[trigger] places[a] == i;
            assert(part[a].id == folder->0);
            lemma_place_of(part, a);
        }
    }
    assert forall|b: int|
        0 <= b < less.permissions.len() && (#[trigger] less.permissions[b]).folder_id
            is Some implies has_folder(part, less.permissions[b].folder_id->0) by {
        let row_places = lemma_filter_picks(t.permissions, keep_row);
        let i = row_places[b];
        assert(keep_row(t.permissions[i]));
        assert(less.permissions[b] == t.permissions[i]);
        let folder = t.permissions[i].folder_id;
        assert(place_of(part, folder) == place_of(rows, folder));
    }
    assert forall|b: int| 0 <= b < files.len() implies #[trigger] file_path_of(less, b)
        == file_path_of(t, file_places[b]) && (files[b].folder_id is Some ==> has_folder(
        part,
        files[b].folder_id->0,
    )) by {
        let i = file_places[b];
        assert(keep_file(t.files[i]));
        assert(files[b] == t.files[i]);
        let folder = t.files[i].folder_id;
        assert(place_of(part, folder) == place_of(rows, folder));
    }
    // whether a file's place is at or below the deleted folder
    assert forall|i: int| 0 <= i < t.files.len() implies (has_prefix(
        #[trigger] file_path_of(t, i),
        root,
    ) == lies_in(rows, id, t.files[i].folder_id)) by {
        let folder = t.files[i].folder_id;
        let place = place_of(rows, folder);
        let whole = file_path_of(t, i);
        if has_prefix(whole, root) {
            if root.len() == whole.len() {
                assert(whole.take(root.len() as int) =~= whole);
                assert(file_on_disk(d, whole));
                lemma_kinds_of_entry(d, whole);
            }
            assert(place.take(root.len() as int) =~= whole.take(root.len() as int));
            assert(has_prefix(place, root));
            lemma_position(rows, folder->0);
        }
        if lies_in(rows, id, folder) {
            lemma_position(rows, folder->0);
            let x = position(rows, folder->0);
            assert(!keep_folder(rows[x]));
            assert(has_prefix(place, root));
            assert(whole.take(root.len() as int) =~= place.take(root.len() as int));
        }
    }
    assert(paths_distinct(disk)) by {
        assert forall|a: int, b: int| 0 <= a < b < disk.len() implies (#[trigger] disk[a]).path != (
        #[trigger] disk[b]).path by {
            assert(entry_places[a] < entry_places[b]);
            assert(d[entry_places[a]].path != d[entry_places[b]].path);
        }
    }
    assert forall|a: int| 0 <= a < part.len() implies dir_on_disk(
        disk,
        #[trigger] path_of(part, a),
    ) by {
        let i = places[a];
        assert(keep_folder(rows[i]));
        assert(dir_on_disk(d, path_of(rows, i)));
        let m = choose|m: int|
            0 <= m < d.len() && (#[trigger] d[m]).path == path_of(rows, i) && d[m].content is None;
        assert(outside(d[m]));
        let n = choose|n: int| 0 <= n < entry_places.len() && #[trigger] entry_places[n] == m;
        assert(disk[n] == d[m]);
    }
    assert forall|b: int| 0 <= b < files.len() implies file_on_disk(
        disk,
        #[trigger] file_path_of(less, b),
    ) by {
        let i = file_places[b];
        assert(keep_file(t.files[i]));
        assert(file_on_disk(d, file_path_of(t, i)));
        let m = choose|m: int|
            0 <= m < d.len() && (#[trigger] d[m]).path == file_path_of(t, i) && d[m].content
                is Some;
        assert(outside(d[m]));
        let n = choose|n: int| 0 <= n < entry_places.len() && #[trigger] entry_places[n] == m;
        assert(disk[n] == d[m]);
    }
    assert forall|n: int|
        0 <= n < disk.len() && (#[trigger] disk[n]).content is None implies folder_at(
        part,
        disk[n].path,
    ) by {
        let m = entry_places[n];
        assert(disk[n] == d[m]);
        assert(outside(d[m]));
        assert(folder_at(rows, d[m].path));
        let i = choose|i: int| 0 <= i < rows.len() && #[trigger] path_of(rows, i) == d[m].path;
        assert(keep_folder(rows[i]));
        let a = choose|a: int| 0 <= a < places.len() && #[trigger] places[a] == i;
        assert(path_of(part, a) == d[m].path);
    }
    assert forall|n: int|
        0 <= n < disk.len() && (#[trigger] disk[n]).content is Some implies file_at(
        less,
        disk[n].path,
    ) by {
        let m = entry_places[n];
        assert(disk[n] == d[m]);
        assert(outside(d[m]));
        assert(file_at(t, d[m].path));
        let i = choose|i: int| 0 <= i < t.files.len() && #[trigger] file_path_of(t, i) == d[m].path;
        assert(keep_file(t.files[i]));
        let b = choose|b: int| 0 <= b < file_places.len() && #[trigger] file_places[b] == i;
        assert(file_path_of(less, b) == d[m].path);
    }
    assert forall|a: int, b: int| 0 <= a < b < files.len() implies (#[trigger] files[a]).id != (
    #[trigger] files[b]).id by {
        assert(file_places[a] < file_places[b]);
        assert(t.files[file_places[a]].id != t.files[file_places[b]].id);
    }
    assert forall|a: int, b: int|
        0 <= a < b < files.len() && (#[trigger] files[a]).folder_id == (
        #[trigger] files[b]).folder_id implies files[a].name != files[b].name by {
        assert(file_places[a] < file_places[b]);
        assert(t.files[file_places[a]].folder_id == t.files[file_places[b]].folder_id);
        assert(t.files[file_places[a]].name != t.files[file_places[b]].name);
    }
    assert forall|b: int|
        0 <= b < files.len() && (#[trigger] files[b]).folder_id is Some implies has_folder(
        part,
        files[b].folder_id->0,
    ) by {
        assert(file_path_of(less, b) == file_path_of(t, file_places[b]));
    }
}

/// The cascade gives out no identifier: what it leaves holds only
/// identifiers that were there.
pub proof fn lemma_cascade_ids_below(t: TablesView, id: u128, next: u128)
    requires
        ids_below(t, next),
    ensures
        ids_below(cascade(t, id), next),
{
    let rows = t.folders;
    let keep_folder = |f: FolderView| !in_subtree(rows, id, f.id);
    let keep_file = |f: FileView| !lies_in(rows, id, f.folder_id);
    let places = lemma_filter_picks(rows, keep_folder);
    let file_places = lemma_filter_picks(t.files, keep_file);
    let less = cascade(t, id);
    assert forall|a: int| 0 <= a < less.folders.len() implies (#[trigger] less.folders[a]).id
        < next by {
        assert(less.folders[a] == rows[places[a]]);
    }
    assert forall|a: int| 0 <= a < less.files.len() implies (#[trigger] less.files[a]).id
        < next by {
        assert(less.files[a] == t.files[file_places[a]]);
    }
}

/// What holds while a folder is being deleted from a sound store, whether
/// or not something has gone wrong.
pub open spec fn deleting_folder_safely(
    before: StoreView,
    id: u128,
    user_id: u128,
    admin: bool,
    w: StoreView,
    s: SagaView,
    e: EventView,
) -> bool {
    let committed = (s.stage == Stage::Committing && e is Done) || s.stage == Stage::Removing;
    &&& sound(before)
    &&& deleting_folder_on_course(before, id, user_id, admin, w, s, e)
    &&& w.next_id == before.next_id
    &&& s.stage == Stage::Start || s.stage == Stage::Opening || s.stage == Stage::Gating
        || s.stage == Stage::Resolving || s.stage == Stage::Deleting || s.stage
        == Stage::Committing || s.stage == Stage::Removing || s.stage == Stage::Aborting
    &&& !committed ==> w.committed == before.committed
    &&& s.stage != Stage::Removing ==> w.disk == before.disk
    &&& s.stage == Stage::Start || s.stage == Stage::Committing || s.stage == Stage::Removing
        || s.stage == Stage::Aborting || (s.stage == Stage::Opening && !(e is Done)) ==> w.pending
        is None
}

proof fn lemma_deleting_folder_safely_step(
    before: StoreView,
    id: u128,
    user_id: u128,
    admin: bool,
    w: StoreView,
    content: Seq<u8>,
    s: SagaView,
    e: EventView,
)
    requires
        deleting_folder_safely(before, id, user_id, admin, w, s, e),
    ensures
        ({
            let (next, action) = step(OperationView::DeleteFolder { id }, user_id, admin, s, e);
            match action {
                ActionView::Finish(result) => left_sound(before, w, result),
                _ => {
                    let (after, answer) = apply(w, action, content);
                    deleting_folder_safely(before, id, user_id, admin, after, next, answer)
                },
            }
        }),
{
    lemma_deleting_folder_step_holds(before, id, user_id, admin, w, content, s, e);
    let t0 = before.committed;
    if s.stage == Stage::Removing && (e is Done || e is Missing) {
        lemma_position(t0.folders, id);
        let r = position(t0.folders, id);
        lemma_resolves(t0.folders, r);
        lemma_subtree_gone_keeps_sound(t0, before.disk, r);
        lemma_cascade_ids_below(t0, id, before.next_id);
    }
}

proof fn lemma_deleting_folder_safely_run(
    before: StoreView,
    id: u128,
    user_id: u128,
    admin: bool,
    w: StoreView,
    content: Seq<u8>,
    s: SagaView,
    e: EventView,
    fuel: nat,
)
    requires
        deleting_folder_safely(before, id, user_id, admin, w, s, e),
        fuel >= rank(s.stage),
    ensures
        ({
            let op = OperationView::DeleteFolder { id };
            let (after, result) = run_from(op, user_id, admin, w, content, s, e, fuel);
            left_sound(before, after, result)
        }),
    decreases fuel,
{
    let op = OperationView::DeleteFolder { id };
    lemma_deleting_folder_safely_step(before, id, user_id, admin, w, content, s, e);
    lemma_steps_advance(op, user_id, admin, s, e);
    let (next, action) = step(op, user_id, admin, s, e);
    if !(action is Finish) {
        let (after, answer) = apply(w, action, content);
        lemma_deleting_folder_safely_run(
            before,
            id,
            user_id,
            admin,
            after,
            content,
            next,
            answer,
            (fuel - 1) as nat,
        );
    }
}

/// Deleting a folder leaves a sound store sound.
///
/// Where it ends well, the folder and all that was below it are gone, rows
/// and disk, and what is left of the disk mirrors what is left of the rows.
/// Where it fails, the committed rows and the disk are what they were. Only
/// a partial failure, which says so, may leave the directory without its
/// rows.
pub proof fn lemma_delete_folder_keeps_sound(
    w: StoreView,
    id: u128,
    user_id: u128,
    admin: bool,
    content: Seq<u8>,
)
    requires
        sound(w),
    ensures
        ({
            let op = OperationView::DeleteFolder { id };
            let (after, result) = run(op, user_id, admin, w, content);
            left_sound(w, after, result)
        }),
{
    lemma_deleting_folder_safely_run(
        w,
        id,
        user_id,
        admin,
        w,
        content,
        fresh_saga(),
        EventView::Start,
        MAX_STEPS as nat,
    );
}

} // verus!
