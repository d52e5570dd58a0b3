//! Renaming a folder in a sound store.
use crate::assets::sibling_path;
use crate::disk::{has_prefix, lemma_moved_keeps_content, moved_path, rename, EntryView};
use crate::effects::renaming::{lemma_renaming_folder_step_holds, renaming_folder_on_course};
use crate::laws::{lemma_steps_advance, rank};
use crate::mirror::{
    dir_on_disk, file_at, file_on_disk, file_path_of, folder_at, ids_below, left_sound,
    lemma_kinds_of_entry, mirrors, paths_distinct, rows_sound, sound,
};
use crate::models::{ErrorKind, FolderView};
use crate::paths::{has_folder, lemma_position, position};
use crate::saga::{fresh_saga, ActionView, EventView, SagaView, Stage};
use crate::soundness::moving::{
    lemma_free_place_is_clear, lemma_moved_stay_apart, lemma_there_and_back,
    lemma_undo_restores, side_by_side,
};
use crate::store::{apply, run, run_from, step, MAX_STEPS, OperationView, StoreView};
use crate::tables::{folder_name_taken_by_other, TablesView};
use crate::tree::{
    is_tree, lemma_parent_place, lemma_path_unfolds, lemma_paths_tell_folders_apart, lemma_place_of,
    lemma_resolves, parent_place, path_of, place_of,
};
use vstd::prelude::*;

verus! {

/// The rows with row `r` under another name.
pub open spec fn renamed(rows: Seq<FolderView>, r: int, name: Seq<char>, now: i64) -> Seq<
    FolderView,
> {
    rows.update(r, FolderView { name, updated_at: now, ..rows[r] })
}

/// A tree stays a tree when a folder gets a name that no other folder
/// below its parent has.
pub proof fn lemma_renamed_is_tree(rows: Seq<FolderView>, r: int, name: Seq<char>, now: i64)
    requires
        is_tree(rows),
        0 <= r < rows.len(),
        !folder_name_taken_by_other(rows, rows[r].parent_id, name, rows[r].id),
    ensures
        is_tree(renamed(rows, r, name, now)),
{
    let other = renamed(rows, r, name, now);
    assert forall|i: int, j: int| 0 <= i < j < other.len() implies (#[trigger] other[i]).id != (
    #[trigger] other[j]).id by {
        assert(rows[i].id != rows[j].id);
    }
    assert forall|i: int|
        0 <= i < other.len() && (#[trigger] other[i]).parent_id is Some implies has_folder(
        other.take(i),
        other[i].parent_id->0,
    ) by {
        assert(rows[i].parent_id is Some);
        let j = choose|j: int|
            0 <= j < rows.take(i).len() && (#[trigger] rows.take(i)[j]).id == rows[i].parent_id->0;
        assert(other.take(i)[j].id == rows[j].id);
    }
    assert forall|i: int, j: int|
        0 <= i < j < other.len() && (#[trigger] other[i]).parent_id == (
        #[trigger] other[j]).parent_id implies other[i].name != other[j].name by {
        assert(rows[i].id != rows[j].id);
        if i == r {
            assert(rows[j].parent_id == rows[r].parent_id);
        } else if j == r {
            assert(rows[i].parent_id == rows[r].parent_id);
        } else {
            assert(rows[i].name != rows[j].name);
        }
    }
}

/// Renaming a folder moves the path of every folder at or below it, and no
/// other: each row resolves in the renamed rows to what the move on disk
/// makes of its old path.
pub proof fn lemma_renamed_paths(
    rows: Seq<FolderView>,
    r: int,
    name: Seq<char>,
    now: i64,
    x: int,
)
    requires
        is_tree(rows),
        is_tree(renamed(rows, r, name, now)),
        0 <= r < rows.len(),
        0 <= x < rows.len(),
    ensures
        path_of(renamed(rows, r, name, now), x) == moved_path(
            path_of(rows, x),
            path_of(rows, r),
            sibling_path(path_of(rows, r), name),
        ),
    decreases x,
{
    let other = renamed(rows, r, name, now);
    let from = path_of(rows, r);
    let to = sibling_path(from, name);
    lemma_path_unfolds(rows, x);
    lemma_path_unfolds(other, x);
    lemma_path_unfolds(rows, r);
    let old = path_of(rows, x);
    let above = if rows[x].parent_id is Some {
        path_of(rows, parent_place(rows, x))
    } else {
        Seq::<Seq<char>>::empty()
    };
    let above_now = if rows[x].parent_id is Some {
        path_of(other, parent_place(other, x))
    } else {
        Seq::<Seq<char>>::empty()
    };
    assert(old =~= above.push(rows[x].name));
    assert(path_of(other, x) =~= above_now.push(other[x].name));
    if rows[x].parent_id is Some {
        lemma_parent_place(rows, x);
        lemma_parent_place(other, x);
        let up = parent_place(rows, x);
        let up_now = parent_place(other, x);
        assert(other[up_now].id == rows[up].id);
        assert(other[up].id == rows[up].id);
        if up != up_now {
            if up < up_now {
                assert(other[up].id != other[up_now].id);
            } else {
                assert(other[up_now].id != other[up].id);
            }
        }
        lemma_renamed_paths(rows, r, name, now, up);
        assert(above_now == moved_path(above, from, to));
    } else {
        assert(!has_prefix(above, from));
    }
    if has_prefix(above, from) {
        lemma_there_and_back(above, from, to);
        assert(x != r) by {
            if x == r {
                assert(above.len() < from.len());
            }
        }
        assert(old.take(from.len() as int) =~= above.take(from.len() as int));
        assert(has_prefix(old, from));
        assert(to + old.skip(from.len() as int) =~= (to + above.skip(from.len() as int)).push(
            rows[x].name,
        ));
    } else {
        if x == r {
            assert(from.take(from.len() as int) =~= from);
            assert(from.skip(from.len() as int) =~= Seq::<Seq<char>>::empty());
            assert(to + from.skip(from.len() as int) =~= to);
            assert(above =~= from.drop_last());
        } else {
            if has_prefix(old, from) {
                if from.len() <= above.len() {
                    assert(above.take(from.len() as int) =~= old.take(from.len() as int));
                } else {
                    assert(old.take(from.len() as int) =~= old);
                    lemma_paths_tell_folders_apart(rows, x, r);
                }
            }
        }
    }
}

/// A sound store with a folder renamed, row and directory, is sound: where
/// the folder gets a name that no other folder below its parent has, and its
/// directory could be moved to the same place under the new name, the
/// renamed rows are sound and the disk after the move mirrors them.
pub proof fn lemma_renamed_folder_keeps_sound(
    t: TablesView,
    d: Seq<EntryView>,
    r: int,
    name: Seq<char>,
    now: i64,
)
    requires
        rows_sound(t),
        mirrors(t, d),
        0 <= r < t.folders.len(),
        !folder_name_taken_by_other(t.folders, t.folders[r].parent_id, name, t.folders[r].id),
        rename(d, path_of(t.folders, r), sibling_path(path_of(t.folders, r), name)).1 is Done,
    ensures
        rows_sound(TablesView { folders: renamed(t.folders, r, name, now), ..t }),
        mirrors(
            TablesView { folders: renamed(t.folders, r, name, now), ..t },
            rename(d, path_of(t.folders, r), sibling_path(path_of(t.folders, r), name)).0,
        ),
{
    let rows = t.folders;
    let other = renamed(rows, r, name, now);
    let after = TablesView { folders: other, ..t };
    let from = path_of(rows, r);
    let to = sibling_path(from, name);
    let disk = rename(d, from, to).0;
    lemma_renamed_is_tree(rows, r, name, now);
    lemma_path_unfolds(rows, r);
    assert forall|m: int| 0 <= m < d.len() implies disk.len() == d.len() && (
    #[trigger] disk[m]).content == d[m].content && disk[m].path == moved_path(
        d[m].path,
        from,
        to,
    ) by {
        lemma_moved_keeps_content(d, from, to, m);
    }
    if d.len() == 0 {
        assert(dir_on_disk(d, path_of(rows, r)));
    }
    assert(disk.len() == d.len()) by {
        lemma_moved_keeps_content(d, from, to, 0);
    }
    assert forall|x: int| 0 <= x < rows.len() implies #[trigger] path_of(other, x) == moved_path(
        path_of(rows, x),
        from,
        to,
    ) by {
        lemma_renamed_paths(rows, r, name, now, x);
    }
    // the place of a folder moves with its path
    assert forall|folder: Option<u128>|
        folder is Some ==> has_folder(rows, folder->0) implies #[trigger] place_of(other, folder)
        == moved_path(place_of(rows, folder), from, to) && (folder is Some ==> has_folder(
        other,
        folder->0,
    )) by {
        if folder is Some {
            lemma_position(rows, folder->0);
            let i = position(rows, folder->0);
            assert(other[i].id == folder->0);
            lemma_place_of(other, i);
        }
    }
    assert forall|i: int| 0 <= i < t.files.len() implies #[trigger] file_path_of(after, i)
        == moved_path(file_path_of(t, i), from, to) by {
        let folder = t.files[i].folder_id;
        let place = place_of(rows, folder);
        let whole = file_path_of(t, i);
        if has_prefix(place, from) {
            lemma_there_and_back(place, from, to);
            assert(whole.take(from.len() as int) =~= place.take(from.len() as int));
            assert(to + whole.skip(from.len() as int) =~= (to + place.skip(
                from.len() as int,
            )).push(t.files[i].name));
        } else {
            if has_prefix(whole, from) {
                if from.len() <= place.len() {
                    assert(place.take(from.len() as int) =~= whole.take(from.len() as int));
                } else {
                    assert(whole.take(from.len() as int) =~= whole);
                    assert(dir_on_disk(d, path_of(rows, r)));
                    assert(file_on_disk(d, file_path_of(t, i)));
                    lemma_kinds_of_entry(d, from);
                }
            }
        }
    }
    assert(paths_distinct(disk)) by {
        if from != to {
            lemma_free_place_is_clear(t, d, to);
            assert forall|k: int, l: int| 0 <= k < l < disk.len() implies (
            #[trigger] disk[k]).path != (#[trigger] disk[l]).path by {
                lemma_moved_stay_apart(d, from, to, k, l);
            }
        } else {
            assert(disk == d);
        }
    }
    assert forall|x: int| 0 <= x < other.len() implies dir_on_disk(
        disk,
        #[trigger] path_of(other, x),
    ) by {
        assert(dir_on_disk(d, path_of(rows, x)));
        let m = choose|m: int|
            0 <= m < d.len() && (#[trigger] d[m]).path == path_of(rows, x) && d[m].content is None;
        assert(disk[m].path == path_of(other, x));
    }
    assert forall|i: int| 0 <= i < after.files.len() implies file_on_disk(
        disk,
        #[trigger] file_path_of(after, i),
    ) by {
        assert(file_on_disk(d, file_path_of(t, i)));
        let m = choose|m: int|
            0 <= m < d.len() && (#[trigger] d[m]).path == file_path_of(t, i) && d[m].content
                is Some;
        assert(disk[m].path == file_path_of(after, i));
    }
    assert forall|m: int|
        0 <= m < disk.len() && (#[trigger] disk[m]).content is None implies folder_at(
        other,
        disk[m].path,
    ) by {
        assert(d[m].content is None);
        assert(folder_at(rows, d[m].path));
        let x = choose|x: int| 0 <= x < rows.len() && #[trigger] path_of(rows, x) == d[m].path;
        assert(path_of(other, x) == disk[m].path);
    }
    assert forall|m: int|
        0 <= m < disk.len() && (#[trigger] disk[m]).content is Some implies file_at(
        after,
        disk[m].path,
    ) by {
        assert(d[m].content is Some);
        assert(file_at(t, d[m].path));
        let i = choose|i: int| 0 <= i < t.files.len() && #[trigger] file_path_of(t, i) == d[m].path;
        assert(file_path_of(after, i) == disk[m].path);
    }
    assert forall|i: int|
        0 <= i < after.permissions.len() && (#[trigger] after.permissions[i]).folder_id
            is Some implies has_folder(other, after.permissions[i].folder_id->0) by {
        let f = t.permissions[i].folder_id->0;
        lemma_position(rows, f);
        assert(other[position(rows, f)].id == f);
    }
    assert forall|i: int|
        0 <= i < after.files.len() && (#[trigger] after.files[i]).folder_id
            is Some implies has_folder(
        other,
        after.files[i].folder_id->0,
    ) by {
        assert(place_of(other, t.files[i].folder_id) == moved_path(
            place_of(rows, t.files[i].folder_id),
            from,
            to,
        ));
    }
}

/// What holds while a folder is being renamed in a sound store, whether or
/// not something has gone wrong.
pub open spec fn renaming_folder_safely(
    before: StoreView,
    id: u128,
    name: Seq<char>,
    user_id: u128,
    admin: bool,
    w: StoreView,
    s: SagaView,
    e: EventView,
) -> bool {
    let committed = s.stage == Stage::Committing && e is Done;
    let before_disk = s.stage == Stage::Start || s.stage == Stage::Opening || s.stage
        == Stage::Gating || s.stage == Stage::Resolving || s.stage == Stage::Renaming;
    let moved = rename(before.disk, s.path, s.dest) == (w.disk, EventView::Done) && side_by_side(
        s.path,
        s.dest,
    );
    &&& sound(before)
    &&& renaming_folder_on_course(before, id, name, user_id, admin, w, s, e)
    &&& w.next_id >= before.next_id
    &&& before_disk || s.stage == Stage::Moving || s.stage == Stage::Committing || s.stage
        == Stage::Undoing || s.stage == Stage::Aborting
    &&& !committed ==> w.committed == before.committed
    &&& before_disk ==> w.disk == before.disk
    &&& s.stage == Stage::Start || s.stage == Stage::Undoing || s.stage == Stage::Aborting || (
    s.stage == Stage::Opening && !(e is Done)) ==> w.pending is None
    &&& s.stage == Stage::Moving ==> if e is Done {
        moved
    } else {
        w.disk == before.disk
    }
    &&& s.stage == Stage::Committing ==> moved && (!(e is Done) ==> w.pending is None)
    &&& s.stage == Stage::Undoing ==> {
        &&& s.verdict is Some
        &&& s.verdict->0.kind == ErrorKind::DatabaseFault
        &&& e is Done ==> w.disk == before.disk
    }
    &&& s.stage == Stage::Aborting ==> {
        &&& s.verdict is Some
        &&& s.verdict->0.kind != ErrorKind::PartialFailure ==> w.disk == before.disk
    }
}

proof fn lemma_renaming_folder_safely_step(
    before: StoreView,
    id: u128,
    name: Seq<char>,
    user_id: u128,
    admin: bool,
    w: StoreView,
    content: Seq<u8>,
    s: SagaView,
    e: EventView,
)
    requires
        renaming_folder_safely(before, id, name, user_id, admin, w, s, e),
    ensures
        ({
            let op = OperationView::EditFolder { id, name };
            let (next, action) = step(op, user_id, admin, s, e);
            match action {
                ActionView::Finish(result) => left_sound(before, w, result),
                _ => {
                    let (after, answer) = apply(w, action, content);
                    renaming_folder_safely(before, id, name, user_id, admin, after, next, answer)
                },
            }
        }),
{
    lemma_renaming_folder_step_holds(before, id, name, user_id, admin, w, content, s, e);
    let t0 = before.committed;
    if s.stage == Stage::Renaming {
        assert(sibling_path(s.path, name).drop_last() =~= s.path.drop_last());
    }
    if s.stage == Stage::Committing {
        if e is Done {
            lemma_position(t0.folders, id);
            let r = position(t0.folders, id);
            lemma_resolves(t0.folders, r);
            lemma_renamed_folder_keeps_sound(t0, before.disk, r, name, before.clock);
            let rows = renamed(t0.folders, r, name, before.clock);
            assert(w.committed == TablesView { folders: rows, ..t0 });
            assert(ids_below(w.committed, w.next_id)) by {
                assert forall|i: int| 0 <= i < rows.len() implies (#[trigger] rows[i]).id
                    < w.next_id by {
                    assert(t0.folders[i].id < before.next_id);
                }
            }
        } else {
            lemma_undo_restores(t0, before.disk, s.path, s.dest);
        }
    }
}

proof fn lemma_renaming_folder_safely_run(
    before: StoreView,
    id: u128,
    name: Seq<char>,
    user_id: u128,
    admin: bool,
    w: StoreView,
    content: Seq<u8>,
    s: SagaView,
    e: EventView,
    fuel: nat,
)
    requires
        renaming_folder_safely(before, id, name, user_id, admin, w, s, e),
        fuel >= rank(s.stage),
    ensures
        ({
            let op = OperationView::EditFolder { id, name };
            let (after, result) = run_from(op, user_id, admin, w, content, s, e, fuel);
            left_sound(before, after, result)
        }),
    decreases fuel,
{
    let op = OperationView::EditFolder { id, name };
    lemma_renaming_folder_safely_step(before, id, name, user_id, admin, w, content, s, e);
    lemma_steps_advance(op, user_id, admin, s, e);
    let (next, action) = step(op, user_id, admin, s, e);
    if !(action is Finish) {
        let (after, answer) = apply(w, action, content);
        lemma_renaming_folder_safely_run(
            before,
            id,
            name,
            user_id,
            admin,
            after,
            content,
            next,
            answer,
            (fuel - 1) as nat,
        );
    }
}

/// Renaming a folder leaves a sound store sound.
///
/// Where it ends well, the row has the new name, the directory and all
/// that was in it are below the new name, and the disk mirrors the rows:
/// every folder and every file that was below the folder is found on disk at
/// the place that the renamed rows give it. Where it fails, the committed
/// rows and the disk are what they were: the name has gone back, and so has
/// the directory. Only a partial failure, which says so, may leave the
/// directory under a name that its row does not have.
pub proof fn lemma_edit_folder_keeps_sound(
    w: StoreView,
    id: u128,
    name: Seq<char>,
    user_id: u128,
    admin: bool,
    content: Seq<u8>,
)
    requires
        sound(w),
    ensures
        ({
            let op = OperationView::EditFolder { id, name };
            let (after, result) = run(op, user_id, admin, w, content);
            left_sound(w, after, result)
        }),
{
    lemma_renaming_folder_safely_run(
        w,
        id,
        name,
        user_id,
        admin,
        w,
        content,
        fresh_saga(),
        EventView::Start,
        MAX_STEPS as nat,
    );
}

} // verus!
