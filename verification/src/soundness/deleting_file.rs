//! Deleting a file from a sound store.
use crate::disk::{entry_position, remove_file, EntryView};
use crate::effects::deleting::{deleting_file_on_course, file_place, lemma_deleting_file_step_holds};
use crate::laws::{lemma_steps_advance, rank};
use crate::mirror::{
    dir_on_disk, file_at, file_on_disk, file_path_of, folder_at, ids_below, left_sound,
    lemma_file_paths_apart, lemma_kinds_of_entry, lemma_the_entry, mirrors, paths_distinct,
    rows_sound, sound,
};
use crate::paths::has_folder;
use crate::saga::{fresh_saga, ActionView, EventView, SagaView, Stage};
use crate::store::{apply, run, run_from, step, MAX_STEPS, OperationView, StoreView};
use crate::tables::{file_position, first_file_at, has_file, TablesView};
use crate::tree::{lemma_known_resolves, path_of};
use vstd::prelude::*;

verus! {

/// Where a file has identifier `id`, one of them is the first.
pub proof fn lemma_first_file(t: TablesView, id: u128)
    requires
        has_file(t.files, id),
    ensures
        first_file_at(t.files, id, file_position(t.files, id)),
{
    let k = choose|i: int| 0 <= i < t.files.len() && (#[trigger] t.files[i]).id == id;
    lemma_first_file_below(t, id, k);
}

proof fn lemma_first_file_below(t: TablesView, id: u128, k: int)
    requires
        0 <= k < t.files.len(),
        t.files[k].id == id,
    ensures
        exists|i: int| first_file_at(t.files, id, i),
    decreases k,
{
    if exists|j: int| 0 <= j < k && (#[trigger] t.files[j]).id == id {
        let j = choose|j: int| 0 <= j < k && (#[trigger] t.files[j]).id == id;
        lemma_first_file_below(t, id, j);
    } else {
        assert(first_file_at(t.files, id, k));
    }
}

/// A sound store without one of its files, row and bytes, is sound: the
/// file is on disk, so it can be removed, and what is left of the disk
/// mirrors what is left of the rows.
pub proof fn lemma_file_gone_keeps_sound(t: TablesView, d: Seq<EntryView>, k: int)
    requires
        rows_sound(t),
        mirrors(t, d),
        0 <= k < t.files.len(),
    ensures
        remove_file(d, file_path_of(t, k)).1 is Done,
        rows_sound(TablesView { files: t.files.remove(k), ..t }),
        mirrors(
            TablesView { files: t.files.remove(k), ..t },
            remove_file(d, file_path_of(t, k)).0,
        ),
{
    let path = file_path_of(t, k);
    let less = TablesView { files: t.files.remove(k), ..t };
    assert(file_on_disk(d, path));
    lemma_kinds_of_entry(d, path);
    let at = entry_position(d, path);
    crate::disk::lemma_first_entry(d, path);
    lemma_the_entry(d, at);
    let disk = d.remove(at);
    assert(remove_file(d, path) == (disk, EventView::Done));
    assert forall|i: int| 0 <= i < less.files.len() implies #[trigger] file_path_of(less, i)
        == file_path_of(t, if i < k { i } else { i + 1 }) by {}
    assert(paths_distinct(disk)) by {
        assert forall|a: int, b: int| 0 <= a < b < disk.len() implies (#[trigger] disk[a]).path != (
        #[trigger] disk[b]).path by {
            let a0 = if a < at { a } else { a + 1 };
            let b0 = if b < at { b } else { b + 1 };
            assert(d[a0].path != d[b0].path);
        }
    }
    assert forall|i: int| 0 <= i < less.folders.len() implies dir_on_disk(
        disk,
        #[trigger] path_of(less.folders, i),
    ) by {
        assert(dir_on_disk(d, path_of(t.folders, i)));
        let m = choose|m: int|
            0 <= m < d.len() && (#[trigger] d[m]).path == path_of(t.folders, i) && d[m].content
                is None;
        assert(m != at);
        assert(disk[if m < at { m } else { m - 1 }] == d[m]);
    }
    assert forall|i: int| 0 <= i < less.files.len() implies file_on_disk(
        disk,
        #[trigger] file_path_of(less, i),
    ) by {
        let i0 = if i < k { i } else { i + 1 };
        assert(file_on_disk(d, file_path_of(t, i0)));
        let m = choose|m: int|
            0 <= m < d.len() && (#[trigger] d[m]).path == file_path_of(t, i0) && d[m].content
                is Some;
        if m == at {
            lemma_file_paths_apart(t, i0, k);
        }
        assert(disk[if m < at { m } else { m - 1 }] == d[m]);
    }
    assert forall|m: int|
        0 <= m < disk.len() && (#[trigger] disk[m]).content is None implies folder_at(
        less.folders,
        disk[m].path,
    ) by {
        let m0 = if m < at { m } else { m + 1 };
        assert(disk[m] == d[m0]);
        assert(folder_at(t.folders, d[m0].path));
    }
    assert forall|m: int|
        0 <= m < disk.len() && (#[trigger] disk[m]).content is Some implies file_at(
        less,
        disk[m].path,
    ) by {
        let m0 = if m < at { m } else { m + 1 };
        assert(disk[m] == d[m0]);
        assert(file_at(t, d[m0].path));
        let i = choose|i: int|
            0 <= i < t.files.len() && #[trigger] file_path_of(t, i) == d[m0].path;
        if i == k {
            lemma_the_entry(d, m0);
        }
        assert(file_path_of(less, if i < k { i } else { i - 1 }) == d[m0].path);
    }
    assert forall|i: int, j: int| 0 <= i < j < less.files.len() implies (
    #[trigger] less.files[i]).id != (#[trigger] less.files[j]).id by {
        let i0 = if i < k {
            i
        } else {
            i + 1
        };
        let j0 = if j < k {
            j
        } else {
            j + 1
        };
        assert(t.files[i0].id != t.files[j0].id);
    }
    assert forall|i: int, j: int|
        0 <= i < j < less.files.len() && (#[trigger] less.files[i]).folder_id == (
        #[trigger] less.files[j]).folder_id implies less.files[i].name != less.files[j].name by {
        let i0 = if i < k { i } else { i + 1 };
        let j0 = if j < k { j } else { j + 1 };
        assert(t.files[i0].folder_id == t.files[j0].folder_id);
        assert(t.files[i0].name != t.files[j0].name);
    }
    assert forall|i: int|
        0 <= i < less.files.len() && (#[trigger] less.files[i]).folder_id
            is Some implies has_folder(
        less.folders,
        less.files[i].folder_id->0,
    ) by {
        assert(t.files[if i < k { i } else { i + 1 }].folder_id is Some);
    }
}

/// What holds while a file is being deleted from a sound store, whether or
/// not something has gone wrong.
pub open spec fn deleting_file_safely(
    before: StoreView,
    id: u128,
    user_id: u128,
    admin: bool,
    w: StoreView,
    s: SagaView,
    e: EventView,
) -> bool {
    let committed = (s.stage == Stage::Committing && e is Done) || s.stage == Stage::Removing;
    &&& sound(before)
    &&& deleting_file_on_course(before, id, user_id, admin, w, s, e)
    &&& w.next_id == before.next_id
    &&& s.stage == Stage::Start || s.stage == Stage::Opening || s.stage == Stage::Finding
        || s.stage == Stage::Gating || s.stage == Stage::Resolving || s.stage == Stage::Deleting
        || s.stage == Stage::Committing || s.stage == Stage::Removing || s.stage
        == Stage::Aborting
    &&& !committed ==> w.committed == before.committed
    &&& s.stage != Stage::Removing ==> w.disk == before.disk
    &&& s.stage == Stage::Start || s.stage == Stage::Committing || s.stage == Stage::Removing
        || s.stage == Stage::Aborting || (s.stage == Stage::Opening && !(e is Done)) ==> w.pending
        is None
}

proof fn lemma_deleting_file_safely_step(
    before: StoreView,
    id: u128,
    user_id: u128,
    admin: bool,
    w: StoreView,
    content: Seq<u8>,
    s: SagaView,
    e: EventView,
)
    requires
        deleting_file_safely(before, id, user_id, admin, w, s, e),
    ensures
        ({
            let (next, action) = step(OperationView::DeleteFile { id }, user_id, admin, s, e);
            match action {
                ActionView::Finish(result) => left_sound(before, w, result),
                _ => {
                    let (after, answer) = apply(w, action, content);
                    deleting_file_safely(before, id, user_id, admin, after, next, answer)
                },
            }
        }),
{
    lemma_deleting_file_step_holds(before, id, user_id, admin, w, content, s, e);
    let t0 = before.committed;
    if s.stage == Stage::Removing && (e is Done || e is Missing) {
        lemma_first_file(t0, id);
        let k = file_position(t0.files, id);
        let file = t0.files[k];
        lemma_known_resolves(t0.folders, file.folder_id);
        assert(file_place(before, id) == file_path_of(t0, k));
        lemma_file_gone_keeps_sound(t0, before.disk, k);
        let less = TablesView { files: t0.files.remove(k), ..t0 };
        assert(w.committed == less);
        assert(ids_below(less, w.next_id)) by {
            assert forall|i: int| 0 <= i < less.files.len() implies (#[trigger] less.files[i]).id
                < w.next_id by {
                assert(t0.files[if i < k { i } else { i + 1 }].id < before.next_id);
            }
        }
    }
}

proof fn lemma_deleting_file_safely_run(
    before: StoreView,
    id: u128,
    user_id: u128,
    admin: bool,
    w: StoreView,
    content: Seq<u8>,
    s: SagaView,
    e: EventView,
    fuel: nat,
)
    requires
        deleting_file_safely(before, id, user_id, admin, w, s, e),
        fuel >= rank(s.stage),
    ensures
        ({
            let op = OperationView::DeleteFile { id };
            let (after, result) = run_from(op, user_id, admin, w, content, s, e, fuel);
            left_sound(before, after, result)
        }),
    decreases fuel,
{
    let op = OperationView::DeleteFile { id };
    lemma_deleting_file_safely_step(before, id, user_id, admin, w, content, s, e);
    lemma_steps_advance(op, user_id, admin, s, e);
    let (next, action) = step(op, user_id, admin, s, e);
    if !(action is Finish) {
        let (after, answer) = apply(w, action, content);
        lemma_deleting_file_safely_run(
            before,
            id,
            user_id,
            admin,
            after,
            content,
            next,
            answer,
            (fuel - 1) as nat,
        );
    }
}

/// Deleting a file leaves a sound store sound.
///
/// Where it ends well, the row and the bytes are gone and what is left of
/// the disk mirrors what is left of the rows. Where it fails, the committed
/// rows and the disk are what they were. Only a partial failure, which says
/// so, may leave the bytes without their row.
pub proof fn lemma_delete_file_keeps_sound(
    w: StoreView,
    id: u128,
    user_id: u128,
    admin: bool,
    content: Seq<u8>,
)
    requires
        sound(w),
    ensures
        ({
            let op = OperationView::DeleteFile { id };
            let (after, result) = run(op, user_id, admin, w, content);
            left_sound(w, after, result)
        }),
{
    lemma_deleting_file_safely_run(
        w,
        id,
        user_id,
        admin,
        w,
        content,
        fresh_saga(),
        EventView::Start,
        MAX_STEPS as nat,
    );
}

} // verus!
