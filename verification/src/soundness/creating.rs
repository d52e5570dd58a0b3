//! Creating a folder in a sound store.
use crate::assets::create_folder_step;
use crate::disk::{dir_entry, first_entry_at, lemma_entry_position, make_dir, EntryView};
use crate::effects::creating::{
    creating_on_course, new_folder_row, with_folder, with_folder_granted,
};
use crate::mirror::{
    dir_on_disk, file_at, file_on_disk, file_path_of, folder_at, ids_below, left_sound,
    lemma_kinds_of_entry, mirrors, paths_distinct, rows_sound, sound,
};
use crate::laws::{lemma_steps_advance, rank};
use crate::models::{ErrorKind, FolderView};
use crate::paths::{folder_path, has_folder, lemma_position, position, ResolveError};
use crate::saga::{fresh_saga, ActionView, EventView, SagaView, Stage};
use crate::store::{apply, run, run_from, step, MAX_STEPS, OperationView, StoreView};
use crate::tables::{folder_known, folder_name_taken, TablesView};
use crate::tree::{
    is_tree, lemma_parent_place, lemma_path_unfolds, lemma_paths_tell_folders_apart, lemma_place_of,
    lemma_tree_grows, parent_place, path_of, place_of,
};
use vstd::prelude::*;

verus! {

/// Where no sibling has a name, no directory is at the place that a
/// folder of that name would have.
pub proof fn lemma_free_name_free_place(
    t: TablesView,
    d: Seq<EntryView>,
    parent: Option<u128>,
    name: Seq<char>,
)
    requires
        rows_sound(t),
        mirrors(t, d),
        folder_known(t.folders, parent),
        !folder_name_taken(t.folders, parent, name),
    ensures
        !dir_on_disk(d, place_of(t.folders, parent).push(name)),
{
    let rows = t.folders;
    let target = place_of(rows, parent).push(name);
    if dir_on_disk(d, target) {
        let k = choose|k: int|
            0 <= k < d.len() && (#[trigger] d[k]).path == target && d[k].content is None;
        assert(folder_at(rows, d[k].path));
        let i = choose|i: int| 0 <= i < rows.len() && #[trigger] path_of(rows, i) == target;
        lemma_path_unfolds(rows, i);
        assert(rows[i].name == name);
        assert(target.drop_last() =~= place_of(rows, parent));
        if rows[i].parent_id is Some {
            lemma_parent_place(rows, i);
            let up = parent_place(rows, i);
            lemma_path_unfolds(rows, up);
            assert(path_of(rows, i).drop_last() =~= path_of(rows, up));
            assert(parent is Some);
            lemma_position(rows, parent->0);
            let at = position(rows, parent->0);
            lemma_paths_tell_folders_apart(rows, up, at);
        } else {
            assert(path_of(rows, i).drop_last() =~= Seq::<Seq<char>>::empty());
            if parent is Some {
                lemma_position(rows, parent->0);
                lemma_path_unfolds(rows, position(rows, parent->0));
            }
        }
        assert(rows[i].parent_id == parent);
    }
}

/// The place of a file does not change when a folder is put into the
/// rows.
proof fn lemma_place_after_push(rows: Seq<FolderView>, row: FolderView, folder: Option<u128>)
    requires
        is_tree(rows),
        is_tree(rows.push(row)),
        forall|i: int| 0 <= i < rows.len() ==> path_of(rows.push(row), i) == path_of(rows, i),
        folder is Some ==> has_folder(rows, folder->0),
    ensures
        place_of(rows.push(row), folder) == place_of(rows, folder),
{
    if folder is Some {
        lemma_position(rows, folder->0);
        let i = position(rows, folder->0);
        assert(rows.push(row)[i] == rows[i]);
        lemma_place_of(rows.push(row), i);
    }
}

/// A sound store with a new folder and its directory is sound: where the
/// folder goes under a parent that is there, with a name that no sibling has
/// and an identifier that no row has, and its directory could be made at the
/// folder's place, the rows with the folder are sound and the disk with the
/// directory mirrors them.
pub proof fn lemma_new_folder_keeps_sound(t: TablesView, d: Seq<EntryView>, row: FolderView)
    requires
        rows_sound(t),
        mirrors(t, d),
        !has_folder(t.folders, row.id),
        folder_known(t.folders, row.parent_id),
        !folder_name_taken(t.folders, row.parent_id, row.name),
        make_dir(d, place_of(t.folders, row.parent_id).push(row.name)).1 is Done,
    ensures
        rows_sound(TablesView { folders: t.folders.push(row), ..t }),
        mirrors(
            TablesView { folders: t.folders.push(row), ..t },
            d.push(dir_entry(place_of(t.folders, row.parent_id).push(row.name))),
        ),
        folder_path(t.folders.push(row), Some(row.id)) == Ok::<Seq<Seq<char>>, ResolveError>(
            place_of(t.folders, row.parent_id).push(row.name),
        ),
{
    let rows = t.folders;
    let more = rows.push(row);
    let grown = TablesView { folders: more, ..t };
    let target = place_of(rows, row.parent_id).push(row.name);
    let disk = d.push(dir_entry(target));
    let n = rows.len() as int;
    lemma_tree_grows(rows, row);
    assert forall|i: int|
        0 <= i < grown.files.len() && (#[trigger] grown.files[i]).folder_id
            is Some implies has_folder(
        more,
        grown.files[i].folder_id->0,
    ) by {
        let f = t.files[i].folder_id->0;
        lemma_position(rows, f);
        assert(more[position(rows, f)].id == f);
    }
    assert forall|i: int|
        0 <= i < grown.permissions.len() && (#[trigger] grown.permissions[i]).folder_id
            is Some implies has_folder(more, grown.permissions[i].folder_id->0) by {
        let f = t.permissions[i].folder_id->0;
        lemma_position(rows, f);
        assert(more[position(rows, f)].id == f);
    }
    assert forall|i: int| 0 <= i < grown.files.len() implies file_path_of(grown, i)
        == file_path_of(t, i) by {
        lemma_place_after_push(rows, row, t.files[i].folder_id);
    }
    assert(paths_distinct(disk)) by {
        assert forall|k: int, l: int| 0 <= k < l < disk.len() implies (#[trigger] disk[k]).path != (
        #[trigger] disk[l]).path by {
            if l < d.len() {
                assert(d[k].path != d[l].path);
            } else {
                assert(d[k].path != target);
            }
        }
    }
    assert forall|i: int| 0 <= i < more.len() implies dir_on_disk(
        disk,
        #[trigger] path_of(more, i),
    ) by {
        if i < n {
            assert(dir_on_disk(d, path_of(rows, i)));
            let k = choose|k: int|
                0 <= k < d.len() && (#[trigger] d[k]).path == path_of(rows, i) && d[k].content
                    is None;
            assert(disk[k] == d[k]);
        } else {
            assert(disk[d.len() as int] == dir_entry(target));
        }
    }
    assert forall|i: int| 0 <= i < grown.files.len() implies file_on_disk(
        disk,
        #[trigger] file_path_of(grown, i),
    ) by {
        assert(file_on_disk(d, file_path_of(t, i)));
        let k = choose|k: int|
            0 <= k < d.len() && (#[trigger] d[k]).path == file_path_of(t, i) && d[k].content
                is Some;
        assert(disk[k] == d[k]);
    }
    assert forall|k: int|
        0 <= k < disk.len() && (#[trigger] disk[k]).content is None implies folder_at(
        more,
        disk[k].path,
    ) by {
        if k < d.len() {
            assert(disk[k] == d[k]);
            assert(folder_at(rows, d[k].path));
            let i = choose|i: int| 0 <= i < rows.len() && #[trigger] path_of(rows, i) == d[k].path;
            assert(path_of(more, i) == d[k].path);
        } else {
            assert(path_of(more, n) == target);
        }
    }
    assert forall|k: int|
        0 <= k < disk.len() && (#[trigger] disk[k]).content is Some implies file_at(
        grown,
        disk[k].path,
    ) by {
        assert(disk[k] == d[k]);
        assert(file_at(t, d[k].path));
        let i = choose|i: int| 0 <= i < t.files.len() && #[trigger] file_path_of(t, i) == d[k].path;
        assert(file_path_of(grown, i) == d[k].path);
    }
}

/// What holds while a folder is being created in a sound store, whether or
/// not something has gone wrong.
pub open spec fn creating_safely(
    before: StoreView,
    name: Seq<char>,
    parent: Option<u128>,
    user_id: u128,
    admin: bool,
    w: StoreView,
    s: SagaView,
    e: EventView,
) -> bool {
    let committed = s.stage == Stage::Committing && e is Done;
    let before_disk = s.stage == Stage::Start || s.stage == Stage::Opening || s.stage
        == Stage::Gating || s.stage == Stage::Inserting || s.stage == Stage::Granting || s.stage
        == Stage::Resolving;
    let inserted = s.stage == Stage::Granting || s.stage == Stage::Resolving || s.stage
        == Stage::MakingDir || s.stage == Stage::Committing || s.stage == Stage::Scrubbing
        || s.stage == Stage::Undoing;
    let made = make_dir(before.disk, s.path) == (w.disk, EventView::Done);
    &&& sound(before)
    &&& creating_on_course(before, name, parent, user_id, admin, w, s, e)
    &&& w.next_id >= before.next_id
    &&& inserted ==> w.next_id > before.next_id
    &&& before_disk || s.stage == Stage::MakingDir || s.stage == Stage::Committing || s.stage
        == Stage::Scrubbing || s.stage == Stage::Undoing || s.stage == Stage::Aborting
    &&& !committed ==> w.committed == before.committed
    &&& before_disk ==> w.disk == before.disk
    &&& s.stage == Stage::Start ==> w.pending is None
    &&& s.stage == Stage::Opening && !(e is Done) ==> w.pending is None
    &&& s.stage == Stage::MakingDir ==> {
        &&& s.path.len() > 0
        &&& !dir_on_disk(before.disk, s.path)
        &&& !(e is Done) ==> w.disk == before.disk
    }
    &&& s.stage == Stage::Scrubbing ==> {
        &&& s.verdict is Some
        &&& s.verdict->0.kind == ErrorKind::StorageFault
        &&& !(e is Done)
        &&& w.disk == before.disk
    }
    &&& s.stage == Stage::Committing && !(e is Done) ==> w.pending is None && made
    &&& s.stage == Stage::Undoing ==> {
        &&& w.pending is None
        &&& s.verdict is Some
        &&& s.verdict->0.kind == ErrorKind::DatabaseFault
        &&& !(e is Missing)
        &&& e is Done ==> w.disk == before.disk
    }
    &&& s.stage == Stage::Aborting ==> {
        &&& w.pending is None
        &&& s.verdict is Some
        &&& s.verdict->0.kind != ErrorKind::PartialFailure ==> w.disk == before.disk
    }
}

proof fn lemma_creating_safely_step(
    before: StoreView,
    name: Seq<char>,
    parent: Option<u128>,
    user_id: u128,
    admin: bool,
    w: StoreView,
    content: Seq<u8>,
    s: SagaView,
    e: EventView,
)
    requires
        creating_safely(before, name, parent, user_id, admin, w, s, e),
    ensures
        ({
            let (next, action) = create_folder_step(name, parent, user_id, admin, s, e);
            match action {
                ActionView::Finish(result) => left_sound(before, w, result),
                _ => {
                    let (after, answer) = apply(w, action, content);
                    creating_safely(before, name, parent, user_id, admin, after, next, answer)
                },
            }
        }),
{
    let op = OperationView::CreateFolder { name, parent };
    let (next, action) = create_folder_step(name, parent, user_id, admin, s, e);
    let t0 = before.committed;
    let row = new_folder_row(before, name, parent, user_id);
    crate::effects::creating::lemma_creating_step_holds(
        before,
        name,
        parent,
        user_id,
        admin,
        w,
        content,
        s,
        e,
    );
    if s.stage == Stage::Resolving && e is Folders && action is MakeDir {
        assert(!has_folder(t0.folders, row.id)) by {
            if has_folder(t0.folders, row.id) {
                let i = choose|i: int|
                    0 <= i < t0.folders.len() && (#[trigger] t0.folders[i]).id == row.id;
                assert(t0.folders[i].id < before.next_id);
            }
        }
        lemma_tree_grows(t0.folders, row);
        lemma_free_name_free_place(t0, before.disk, parent, name);
    }
    if s.stage == Stage::MakingDir && !(e is Done) {
        lemma_kinds_of_entry(before.disk, s.path);
    }
    if s.stage == Stage::Committing {
        if e is Done {
            assert(!has_folder(t0.folders, row.id)) by {
                if has_folder(t0.folders, row.id) {
                    let i = choose|i: int|
                        0 <= i < t0.folders.len() && (#[trigger] t0.folders[i]).id == row.id;
                    assert(t0.folders[i].id < before.next_id);
                }
            }
            lemma_tree_grows(t0.folders, row);
            lemma_new_folder_keeps_sound(t0, before.disk, row);
            let t1 = with_folder(before, name, parent, user_id);
            let t2 = with_folder_granted(before, name, parent, user_id);
            assert(mirrors(t2, w.disk)) by {
                assert forall|i: int| 0 <= i < t2.files.len() implies file_path_of(t2, i)
                    == file_path_of(t1, i) by {}
                assert forall|k: int|
                    0 <= k < w.disk.len() && (#[trigger] w.disk[k]).content is Some implies file_at(
                    t2,
                    w.disk[k].path,
                ) by {
                    assert(file_at(t1, w.disk[k].path));
                    let i = choose|i: int|
                        0 <= i < t1.files.len() && #[trigger] file_path_of(t1, i) == w.disk[k].path;
                    assert(file_path_of(t2, i) == w.disk[k].path);
                }
            }
            assert(ids_below(t2, w.next_id)) by {
                assert forall|i: int| 0 <= i < t2.folders.len() implies (
                #[trigger] t2.folders[i]).id < w.next_id by {
                    if i < t0.folders.len() {
                        assert(t2.folders[i] == t0.folders[i]);
                    }
                }
            }
        } else {
            let pushed = before.disk.push(dir_entry(s.path));
            let last = before.disk.len() as int;
            assert(first_entry_at(pushed, s.path, last)) by {
                assert forall|j: int| 0 <= j < last implies (#[trigger] pushed[j]).path
                    != s.path by {
                    assert(pushed[j] == before.disk[j]);
                }
            }
            lemma_entry_position(pushed, s.path, last);
            assert(pushed.remove(last) =~= before.disk);
        }
    }
}

proof fn lemma_creating_safely_run(
    before: StoreView,
    name: Seq<char>,
    parent: Option<u128>,
    user_id: u128,
    admin: bool,
    w: StoreView,
    content: Seq<u8>,
    s: SagaView,
    e: EventView,
    fuel: nat,
)
    requires
        creating_safely(before, name, parent, user_id, admin, w, s, e),
        fuel >= rank(s.stage),
    ensures
        ({
            let op = OperationView::CreateFolder { name, parent };
            let (after, result) = run_from(op, user_id, admin, w, content, s, e, fuel);
            left_sound(before, after, result)
        }),
    decreases fuel,
{
    let op = OperationView::CreateFolder { name, parent };
    lemma_creating_safely_step(before, name, parent, user_id, admin, w, content, s, e);
    lemma_steps_advance(op, user_id, admin, s, e);
    let (next, action) = step(op, user_id, admin, s, e);
    if !(action is Finish) {
        let (after, answer) = apply(w, action, content);
        lemma_creating_safely_run(
            before,
            name,
            parent,
            user_id,
            admin,
            after,
            content,
            next,
            answer,
            (fuel - 1) as nat,
        );
    }
}

/// Creating a folder leaves a sound store sound.
///
/// Where it ends well, the rows with the new folder are sound and the disk
/// with the folder's directory mirrors them. Where it fails, the committed
/// rows and the disk are what they were: neither the row nor the directory
/// appears to have come into being. Only a partial failure, which says so,
/// may leave the directory without its row.
pub proof fn lemma_create_folder_keeps_sound(
    w: StoreView,
    name: Seq<char>,
    parent: Option<u128>,
    user_id: u128,
    admin: bool,
    content: Seq<u8>,
)
    requires
        sound(w),
    ensures
        ({
            let op = OperationView::CreateFolder { name, parent };
            let (after, result) = run(op, user_id, admin, w, content);
            left_sound(w, after, result)
        }),
{
    lemma_creating_safely_run(
        w,
        name,
        parent,
        user_id,
        admin,
        w,
        content,
        fresh_saga(),
        EventView::Start,
        MAX_STEPS as nat,
    );
}

} // verus!
