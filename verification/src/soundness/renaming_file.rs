//! Renaming a file in a sound store.
use crate::disk::{has_prefix, lemma_moved_keeps_content, rename, EntryView};
use crate::effects::deleting::file_place;
use crate::effects::renaming::{
    file_place_as, lemma_renaming_file_step_holds, renaming_file_on_course,
};
use crate::laws::{lemma_steps_advance, rank};
use crate::mirror::{
    dir_on_disk, file_at, file_on_disk, file_path_of, folder_at, ids_below, left_sound,
    lemma_kinds_of_entry, lemma_nothing_below, mirrors, paths_distinct, rows_sound, sound,
};
use crate::models::{ErrorKind, FileView};
use crate::paths::has_folder;
use crate::saga::{fresh_saga, ActionView, EventView, SagaView, Stage};
use crate::soundness::deleting_file::lemma_first_file;
use crate::soundness::moving::{
    lemma_free_place_is_clear, lemma_moved_stay_apart, lemma_undo_restores, side_by_side,
};
use crate::store::{apply, run, run_from, step, MAX_STEPS, OperationView, StoreView};
use crate::tables::{file_name_taken_by_other, file_position, TablesView};
use crate::tree::{lemma_known_resolves, path_of, place_of};
use vstd::prelude::*;

verus! {

/// The file rows with row `k` under another name.
pub open spec fn renamed_file(files: Seq<FileView>, k: int, name: Seq<char>, now: i64) -> Seq<
    FileView,
> {
    files.update(k, FileView { name, updated_at: now, ..files[k] })
}

/// Where file row `k` goes once it is called `name`.
pub open spec fn new_file_place(t: TablesView, k: int, name: Seq<char>) -> Seq<Seq<char>> {
    place_of(t.folders, t.files[k].folder_id).push(name)
}

/// A sound store with a file renamed, row and bytes, is sound: where the
/// file gets a name that no other file of its folder has, and it could be
/// moved to that name in its directory, the renamed rows are sound and the
/// disk after the move mirrors them.
pub proof fn lemma_renamed_file_keeps_sound(
    t: TablesView,
    d: Seq<EntryView>,
    k: int,
    name: Seq<char>,
    now: i64,
)
    requires
        rows_sound(t),
        mirrors(t, d),
        0 <= k < t.files.len(),
        !file_name_taken_by_other(t.files, t.files[k].folder_id, name, t.files[k].id),
        rename(d, file_path_of(t, k), new_file_place(t, k, name)).1 is Done,
    ensures
        rows_sound(TablesView { files: renamed_file(t.files, k, name, now), ..t }),
        mirrors(
            TablesView { files: renamed_file(t.files, k, name, now), ..t },
            rename(d, file_path_of(t, k), new_file_place(t, k, name)).0,
        ),
{
    let files = renamed_file(t.files, k, name, now);
    let after = TablesView { files, ..t };
    let from = file_path_of(t, k);
    let to = new_file_place(t, k, name);
    let disk = rename(d, from, to).0;
    assert(file_on_disk(d, file_path_of(t, k)));
    lemma_kinds_of_entry(d, from);
    assert(disk.len() == d.len()) by {
        lemma_moved_keeps_content(d, from, to, 0);
    }
    // only the file itself is at or below its place
    assert forall|m: int| 0 <= m < d.len() implies disk[m].content == (#[trigger] d[m]).content
        && disk[m].path == (if d[m].path == from {
        to
    } else {
        d[m].path
    }) by {
        lemma_moved_keeps_content(d, from, to, m);
        lemma_nothing_below(t, d, from, m);
        assert(from.take(from.len() as int) =~= from);
        if has_prefix(d[m].path, from) {
            assert(d[m].path.take(from.len() as int) =~= d[m].path);
            assert(d[m].path == from);
            assert(from.skip(from.len() as int) =~= Seq::<Seq<char>>::empty());
            assert(to + from.skip(from.len() as int) =~= to);
        }
    }
    assert forall|i: int| 0 <= i < files.len() implies #[trigger] file_path_of(after, i) == (if i
        == k {
        to
    } else {
        file_path_of(t, i)
    }) by {}
    assert(paths_distinct(disk)) by {
        if from != to {
            lemma_free_place_is_clear(t, d, to);
            assert forall|a: int, b: int| 0 <= a < b < disk.len() implies (
            #[trigger] disk[a]).path != (#[trigger] disk[b]).path by {
                lemma_moved_keeps_content(d, from, to, a);
                lemma_moved_keeps_content(d, from, to, b);
                lemma_moved_stay_apart(d, from, to, a, b);
            }
        } else {
            assert(disk == d);
        }
    }
    assert forall|x: int| 0 <= x < after.folders.len() implies dir_on_disk(
        disk,
        #[trigger] path_of(after.folders, x),
    ) by {
        assert(dir_on_disk(d, path_of(t.folders, x)));
        let m = choose|m: int|
            0 <= m < d.len() && (#[trigger] d[m]).path == path_of(t.folders, x) && d[m].content
                is None;
        assert(disk[m].path == path_of(t.folders, x));
    }
    assert forall|i: int| 0 <= i < files.len() implies file_on_disk(
        disk,
        #[trigger] file_path_of(after, i),
    ) by {
        assert(file_on_disk(d, file_path_of(t, i)));
        let m = choose|m: int|
            0 <= m < d.len() && (#[trigger] d[m]).path == file_path_of(t, i) && d[m].content
                is Some;
        if i != k && d[m].path == from {
            crate::mirror::lemma_file_paths_apart(t, i, k);
        }
        assert(disk[m].path == file_path_of(after, i));
    }
    assert forall|m: int|
        0 <= m < disk.len() && (#[trigger] disk[m]).content is None implies folder_at(
        after.folders,
        disk[m].path,
    ) by {
        assert(d[m].content is None);
        assert(folder_at(t.folders, d[m].path));
    }
    assert forall|m: int|
        0 <= m < disk.len() && (#[trigger] disk[m]).content is Some implies file_at(
        after,
        disk[m].path,
    ) by {
        assert(d[m].content is Some);
        assert(file_at(t, d[m].path));
        let i = choose|i: int| 0 <= i < t.files.len() && #[trigger] file_path_of(t, i) == d[m].path;
        assert(file_path_of(after, i) == disk[m].path);
    }
    assert forall|i: int, j: int| 0 <= i < j < files.len() implies (#[trigger] files[i]).id != (
    #[trigger] files[j]).id by {
        assert(t.files[i].id != t.files[j].id);
    }
    assert forall|i: int, j: int|
        0 <= i < j < files.len() && (#[trigger] files[i]).folder_id == (
        #[trigger] files[j]).folder_id implies files[i].name != files[j].name by {
        assert(t.files[i].id != t.files[j].id);
        if i == k {
            assert(t.files[j].folder_id == t.files[k].folder_id);
        } else if j == k {
            assert(t.files[i].folder_id == t.files[k].folder_id);
        } else {
            assert(t.files[i].name != t.files[j].name);
        }
    }
    assert forall|i: int|
        0 <= i < files.len() && (#[trigger] files[i]).folder_id is Some implies has_folder(
        after.folders,
        files[i].folder_id->0,
    ) by {
        assert(t.files[i].folder_id is Some);
    }
}

/// What holds while a file is being renamed in a sound store, whether or
/// not something has gone wrong.
pub open spec fn renaming_file_safely(
    before: StoreView,
    id: u128,
    name: Seq<char>,
    user_id: u128,
    admin: bool,
    w: StoreView,
    s: SagaView,
    e: EventView,
) -> bool {
    let committed = s.stage == Stage::Committing && e is Done;
    let before_disk = s.stage == Stage::Start || s.stage == Stage::Opening || s.stage
        == Stage::Finding || s.stage == Stage::Gating || s.stage == Stage::Resolving || s.stage
        == Stage::Renaming;
    let moved = rename(before.disk, s.path, s.dest) == (w.disk, EventView::Done) && side_by_side(
        s.path,
        s.dest,
    );
    &&& sound(before)
    &&& renaming_file_on_course(before, id, name, user_id, admin, w, s, e)
    &&& w.next_id >= before.next_id
    &&& before_disk || s.stage == Stage::Moving || s.stage == Stage::Committing || s.stage
        == Stage::Undoing || s.stage == Stage::Aborting
    &&& !committed ==> w.committed == before.committed
    &&& before_disk ==> w.disk == before.disk
    &&& s.stage == Stage::Start || s.stage == Stage::Undoing || s.stage == Stage::Aborting || (
    s.stage == Stage::Opening && !(e is Done)) ==> w.pending is None
    &&& s.stage == Stage::Moving ==> if e is Done {
        moved
    } else {
        w.disk == before.disk
    }
    &&& s.stage == Stage::Committing ==> moved && (!(e is Done) ==> w.pending is None)
    &&& s.stage == Stage::Undoing ==> {
        &&& s.verdict is Some
        &&& s.verdict->0.kind == ErrorKind::DatabaseFault
        &&& e is Done ==> w.disk == before.disk
    }
    &&& s.stage == Stage::Aborting ==> {
        &&& s.verdict is Some
        &&& s.verdict->0.kind != ErrorKind::PartialFailure ==> w.disk == before.disk
    }
}

proof fn lemma_renaming_file_safely_step(
    before: StoreView,
    id: u128,
    name: Seq<char>,
    user_id: u128,
    admin: bool,
    w: StoreView,
    content: Seq<u8>,
    s: SagaView,
    e: EventView,
)
    requires
        renaming_file_safely(before, id, name, user_id, admin, w, s, e),
    ensures
        ({
            let op = OperationView::EditFile { id, name };
            let (next, action) = step(op, user_id, admin, s, e);
            match action {
                ActionView::Finish(result) => left_sound(before, w, result),
                _ => {
                    let (after, answer) = apply(w, action, content);
                    renaming_file_safely(before, id, name, user_id, admin, after, next, answer)
                },
            }
        }),
{
    lemma_renaming_file_step_holds(before, id, name, user_id, admin, w, content, s, e);
    let t0 = before.committed;
    if s.stage == Stage::Renaming && e is Affected && e->Affected_0 != 0 {
        lemma_first_file(t0, id);
        let file = t0.files[file_position(t0.files, id)];
        let dir = crate::paths::folder_path(t0.folders, file.folder_id)->Ok_0;
        assert(dir.push(file.name).drop_last() =~= dir);
        assert(dir.push(name).drop_last() =~= dir);
    }
    if s.stage == Stage::Committing {
        if e is Done {
            lemma_first_file(t0, id);
            let k = file_position(t0.files, id);
            lemma_known_resolves(t0.folders, t0.files[k].folder_id);
            assert(file_place(before, id) == file_path_of(t0, k));
            assert(file_place_as(before, id, name) == new_file_place(t0, k, name));
            lemma_renamed_file_keeps_sound(t0, before.disk, k, name, before.clock);
            let files = renamed_file(t0.files, k, name, before.clock);
            assert(w.committed == TablesView { files, ..t0 });
            assert(ids_below(w.committed, w.next_id)) by {
                assert forall|i: int| 0 <= i < files.len() implies (#[trigger] files[i]).id
                    < w.next_id by {
                    assert(t0.files[i].id < before.next_id);
                }
            }
        } else {
            lemma_undo_restores(t0, before.disk, s.path, s.dest);
        }
    }
}

proof fn lemma_renaming_file_safely_run(
    before: StoreView,
    id: u128,
    name: Seq<char>,
    user_id: u128,
    admin: bool,
    w: StoreView,
    content: Seq<u8>,
    s: SagaView,
    e: EventView,
    fuel: nat,
)
    requires
        renaming_file_safely(before, id, name, user_id, admin, w, s, e),
        fuel >= rank(s.stage),
    ensures
        ({
            let op = OperationView::EditFile { id, name };
            let (after, result) = run_from(op, user_id, admin, w, content, s, e, fuel);
            left_sound(before, after, result)
        }),
    decreases fuel,
{
    let op = OperationView::EditFile { id, name };
    lemma_renaming_file_safely_step(before, id, name, user_id, admin, w, content, s, e);
    lemma_steps_advance(op, user_id, admin, s, e);
    let (next, action) = step(op, user_id, admin, s, e);
    if !(action is Finish) {
        let (after, answer) = apply(w, action, content);
        lemma_renaming_file_safely_run(
            before,
            id,
            name,
            user_id,
            admin,
            after,
            content,
            next,
            answer,
            (fuel - 1) as nat,
        );
    }
}

/// Renaming a file leaves a sound store sound.
///
/// Where it ends well, the row has the new name, the bytes are under the
/// new name in the same directory, and the disk mirrors the rows. Where it
/// fails, the committed rows and the disk are what they were. Only a partial
/// failure, which says so, may leave the bytes under a name that their row
/// does not have.
pub proof fn lemma_edit_file_keeps_sound(
    w: StoreView,
    id: u128,
    name: Seq<char>,
    user_id: u128,
    admin: bool,
    content: Seq<u8>,
)
    requires
        sound(w),
    ensures
        ({
            let op = OperationView::EditFile { id, name };
            let (after, result) = run(op, user_id, admin, w, content);
            left_sound(w, after, result)
        }),
{
    lemma_renaming_file_safely_run(
        w,
        id,
        name,
        user_id,
        admin,
        w,
        content,
        fresh_saga(),
        EventView::Start,
        MAX_STEPS as nat,
    );
}

} // verus!
