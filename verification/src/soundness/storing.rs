//! Storing a file in a sound store.
use crate::disk::{
    file_entry, first_entry_at, has_entry, lemma_entry_position, remove_file, write_file, EntryView,
};
use crate::effects::storing::{lemma_storing_step_holds, upload_of, Upload};
use crate::kept::lemma_filter_drops_one;
use crate::laws::{lemma_steps_advance, rank};
use crate::mirror::{
    dir_on_disk, file_at, file_on_disk, file_path_of, folder_at, ids_below, left_sound,
    lemma_dir_is_ensured, lemma_kinds_of_entry, mirrors, paths_distinct, rows_sound, sound,
};
use crate::models::{ErrorKind, FileView};
use crate::paths::{folder_path, has_folder};
use crate::saga::{fresh_saga, ActionView, EventView, SagaView, Stage};
use crate::soundness::deleting_file::lemma_file_gone_keeps_sound;
use crate::store::{apply, run, run_from, step, MAX_STEPS, OperationView, StoreView};
use crate::tables::{delete_file_named, file_name_taken, folder_known, has_file, TablesView};
use crate::tree::{lemma_known_resolves, lemma_places_tell_folders_apart, path_of, place_of};
use vstd::prelude::*;

verus! {

/// Where no file of a folder has a name, no file is on disk at the place
/// that a file of that name would have.
pub proof fn lemma_free_file_name_free_place(
    t: TablesView,
    d: Seq<EntryView>,
    folder: Option<u128>,
    name: Seq<char>,
)
    requires
        rows_sound(t),
        mirrors(t, d),
        folder_known(t.folders, folder),
        !file_name_taken(t.files, folder, name),
    ensures
        !file_on_disk(d, place_of(t.folders, folder).push(name)),
{
    let target = place_of(t.folders, folder).push(name);
    if file_on_disk(d, target) {
        let m = choose|m: int|
            0 <= m < d.len() && (#[trigger] d[m]).path == target && d[m].content is Some;
        assert(file_at(t, d[m].path));
        let i = choose|i: int| 0 <= i < t.files.len() && #[trigger] file_path_of(t, i) == target;
        assert(file_path_of(t, i).last() == t.files[i].name);
        assert(target.last() == name);
        assert(file_path_of(t, i).drop_last() =~= place_of(t.folders, t.files[i].folder_id));
        assert(target.drop_last() =~= place_of(t.folders, folder));
        lemma_places_tell_folders_apart(t.folders, t.files[i].folder_id, folder);
    }
}

/// In sound rows the file of a name in a folder is one file: deleting the
/// rows of that name takes out that one row.
pub proof fn lemma_named_file_is_one(t: TablesView, folder: Option<u128>, name: Seq<char>) -> (k:
    int)
    requires
        rows_sound(t),
        file_name_taken(t.files, folder, name),
    ensures
        0 <= k < t.files.len(),
        t.files[k].folder_id == folder,
        t.files[k].name == name,
        delete_file_named(t, folder, name).0 == (TablesView { files: t.files.remove(k), ..t }),
        file_path_of(t, k) == place_of(t.folders, folder).push(name),
{
    let k = choose|k: int|
        0 <= k < t.files.len() && (#[trigger] t.files[k]).folder_id == folder && t.files[k].name
            == name;
    let other = |f: FileView| !(f.folder_id == folder && f.name == name);
    assert forall|i: int| 0 <= i < t.files.len() && i != k implies other(#[trigger] t.files[i]) by {
        if i < k {
            assert(t.files[i].folder_id == t.files[k].folder_id ==> t.files[i].name
                != t.files[k].name);
        } else {
            assert(t.files[k].folder_id == t.files[i].folder_id ==> t.files[k].name
                != t.files[i].name);
        }
    }
    lemma_filter_drops_one(t.files, other, k);
    k
}

/// The rows with one more file row.
pub open spec fn with_file(t: TablesView, row: FileView) -> TablesView {
    TablesView { files: t.files.push(row), ..t }
}

/// A sound store with a new file, row and bytes, is sound: where the file
/// goes into the root or a folder that is there, under a name that no file of
/// the folder has and an identifier that no file has, and its content could
/// be stored at the file's place, the content is a new entry of the disk, the
/// rows with the file are sound, and the disk with the content mirrors them.
/// Removing the file again gives the disk as it was.
pub proof fn lemma_new_file_keeps_sound(
    t: TablesView,
    d: Seq<EntryView>,
    row: FileView,
    content: Seq<u8>,
)
    requires
        rows_sound(t),
        mirrors(t, d),
        folder_known(t.folders, row.folder_id),
        !file_name_taken(t.files, row.folder_id, row.name),
        !has_file(t.files, row.id),
        write_file(d, place_of(t.folders, row.folder_id).push(row.name), content).1 is Written,
    ensures
        ({
            let place = place_of(t.folders, row.folder_id).push(row.name);
            let disk = d.push(file_entry(place, content));
            &&& !has_entry(d, place)
            &&& write_file(d, place, content).0 == disk
            &&& rows_sound(with_file(t, row))
            &&& mirrors(with_file(t, row), disk)
            &&& remove_file(disk, place) == (d, EventView::Done)
        }),
{
    let place = place_of(t.folders, row.folder_id).push(row.name);
    let disk = d.push(file_entry(place, content));
    let more = with_file(t, row);
    let n = t.files.len() as int;
    lemma_free_file_name_free_place(t, d, row.folder_id, row.name);
    lemma_kinds_of_entry(d, place);
    assert(!has_entry(d, place));
    assert forall|i: int| 0 <= i < more.files.len() implies #[trigger] file_path_of(more, i) == (
    if i < n {
        file_path_of(t, i)
    } else {
        place
    }) by {}
    assert(paths_distinct(disk)) by {
        assert forall|a: int, b: int| 0 <= a < b < disk.len() implies (#[trigger] disk[a]).path != (
        #[trigger] disk[b]).path by {
            if b < d.len() {
                assert(d[a].path != d[b].path);
            } else {
                assert(d[a].path != place);
            }
        }
    }
    assert forall|x: int| 0 <= x < more.folders.len() implies dir_on_disk(
        disk,
        #[trigger] path_of(more.folders, x),
    ) by {
        assert(dir_on_disk(d, path_of(t.folders, x)));
        let m = choose|m: int|
            0 <= m < d.len() && (#[trigger] d[m]).path == path_of(t.folders, x) && d[m].content
                is None;
        assert(disk[m] == d[m]);
    }
    assert forall|i: int| 0 <= i < more.files.len() implies file_on_disk(
        disk,
        #[trigger] file_path_of(more, i),
    ) by {
        if i < n {
            assert(file_on_disk(d, file_path_of(t, i)));
            let m = choose|m: int|
                0 <= m < d.len() && (#[trigger] d[m]).path == file_path_of(t, i) && d[m].content
                    is Some;
            assert(disk[m] == d[m]);
        } else {
            assert(disk[d.len() as int] == file_entry(place, content));
        }
    }
    assert forall|m: int|
        0 <= m < disk.len() && (#[trigger] disk[m]).content is None implies folder_at(
        more.folders,
        disk[m].path,
    ) by {
        assert(disk[m] == d[m]);
        assert(folder_at(t.folders, d[m].path));
    }
    assert forall|m: int|
        0 <= m < disk.len() && (#[trigger] disk[m]).content is Some implies file_at(
        more,
        disk[m].path,
    ) by {
        if m < d.len() {
            assert(disk[m] == d[m]);
            assert(file_at(t, d[m].path));
            let i = choose|i: int|
                0 <= i < t.files.len() && #[trigger] file_path_of(t, i) == d[m].path;
            assert(file_path_of(more, i) == d[m].path);
        } else {
            assert(file_path_of(more, n) == place);
        }
    }
    assert forall|i: int, j: int| 0 <= i < j < more.files.len() implies (
    #[trigger] more.files[i]).id != (#[trigger] more.files[j]).id by {
        if j < n {
            assert(t.files[i].id != t.files[j].id);
        } else {
            assert(t.files[i].id != row.id);
        }
    }
    assert forall|i: int, j: int|
        0 <= i < j < more.files.len() && (#[trigger] more.files[i]).folder_id == (
        #[trigger] more.files[j]).folder_id implies more.files[i].name != more.files[j].name by {
        if j < n {
            assert(t.files[i].name != t.files[j].name);
        } else {
            assert(t.files[i].folder_id == row.folder_id);
        }
    }
    assert forall|i: int|
        0 <= i < more.files.len() && (#[trigger] more.files[i]).folder_id
            is Some implies has_folder(
        more.folders,
        more.files[i].folder_id->0,
    ) by {
        if i < n {
            assert(t.files[i].folder_id is Some);
        }
    }
    let last = d.len() as int;
    assert(first_entry_at(disk, place, last)) by {
        assert forall|j: int| 0 <= j < last implies (#[trigger] disk[j]).path != place by {
            assert(disk[j] == d[j]);
        }
    }
    lemma_entry_position(disk, place, last);
    assert(disk.remove(last) =~= d);
}

/// What holds while a file is being stored in a sound store, whether or
/// not something has gone wrong.
pub open spec fn storing_safely(
    u: Upload,
    before: StoreView,
    user_id: u128,
    admin: bool,
    w: StoreView,
    s: SagaView,
    e: EventView,
) -> bool {
    let t0 = before.committed;
    let committed = s.stage == Stage::Committing && e is Done;
    let before_disk = s.stage == Stage::Start || s.stage == Stage::Opening || s.stage
        == Stage::Gating || s.stage == Stage::Resolving || s.stage == Stage::Probing || s.stage
        == Stage::Unlinking;
    let placed = s.path == u.place(before) && s.dest == u.dir(before) && folder_path(
        t0.folders,
        u.folder,
    ) is Ok && s.name == u.name && s.folder_id == u.folder;
    let with_content = before.disk.push(file_entry(s.path, u.content));
    let fresh = !s.replaced ==> !u.replaces(before);
    &&& sound(before)
    &&& u.on_course(before, user_id, admin, w, s, e)
    &&& w.next_id >= before.next_id
    &&& before_disk || s.stage == Stage::Clearing || s.stage == Stage::Preparing || s.stage
        == Stage::Writing || s.stage == Stage::Recording || s.stage == Stage::Scrubbing
        || s.stage == Stage::Committing || s.stage == Stage::Undoing || s.stage
        == Stage::Aborting
    &&& !committed ==> w.committed == t0
    &&& before_disk ==> w.disk == before.disk && !s.replaced
    &&& s.stage == Stage::Start || s.stage == Stage::Undoing || s.stage == Stage::Aborting || (
    s.stage == Stage::Opening && !(e is Done)) || (s.stage == Stage::Committing && !(e is Done))
        ==> w.pending is None
    &&& s.stage == Stage::Probing ==> placed && (e is Exists ==> e->Exists_0 == u.replaces(
        before,
    ))
    &&& s.stage == Stage::Unlinking ==> placed && u.replaces(before)
    &&& s.stage == Stage::Clearing ==> placed && !s.replaced && u.replaces(before) && (!(e
        is Done) ==> w.disk == before.disk)
    &&& s.stage == Stage::Preparing ==> placed && fresh && (!s.replaced ==> w.disk
        == before.disk)
    &&& s.stage == Stage::Writing ==> placed && fresh && (!s.replaced ==> if e is Written {
        w.disk == with_content && !has_entry(before.disk, s.path)
    } else {
        w.disk == before.disk
    })
    &&& s.stage == Stage::Recording ==> placed && fresh && !(e is Done) && (!s.replaced ==> w.disk
        == with_content && !has_entry(before.disk, s.path)) && (e is Inserted ==> w.next_id
        > before.next_id)
    &&& s.stage == Stage::Committing ==> placed && fresh && w.next_id > before.next_id && (
    !s.replaced ==> w.disk == with_content && !has_entry(before.disk, s.path))
    &&& s.stage == Stage::Scrubbing || s.stage == Stage::Undoing ==> placed && s.verdict is Some
        && (!s.replaced && (e is Done || e is Missing) ==> w.disk == before.disk)
    &&& s.stage == Stage::Aborting ==> {
        &&& s.verdict is Some
        &&& s.verdict->0.kind != ErrorKind::PartialFailure ==> w.disk == before.disk
    }
}

/// In a sound store, the file whose content was stored can be removed
/// again, and what is left is the disk as it was.
proof fn lemma_content_removed(d: Seq<EntryView>, path: Seq<Seq<char>>, content: Seq<u8>)
    requires
        path.len() > 0,
        !has_entry(d, path),
    ensures
        remove_file(d.push(file_entry(path, content)), path) == (d, EventView::Done),
{
    let disk = d.push(file_entry(path, content));
    let last = d.len() as int;
    assert(first_entry_at(disk, path, last)) by {
        assert forall|j: int| 0 <= j < last implies (#[trigger] disk[j]).path != path by {
            assert(disk[j] == d[j]);
        }
    }
    lemma_entry_position(disk, path, last);
    assert(disk.remove(last) =~= d);
}

proof fn lemma_storing_safely_step(
    op: OperationView,
    before: StoreView,
    user_id: u128,
    admin: bool,
    w: StoreView,
    content: Seq<u8>,
    s: SagaView,
    e: EventView,
)
    requires
        op is UploadFile,
        storing_safely(upload_of(op, content), before, user_id, admin, w, s, e),
    ensures
        ({
            let (next, action) = step(op, user_id, admin, s, e);
            match action {
                ActionView::Finish(result) => left_sound(before, w, result),
                _ => {
                    let (after, answer) = apply(w, action, content);
                    storing_safely(
                        upload_of(op, content),
                        before,
                        user_id,
                        admin,
                        after,
                        next,
                        answer,
                    )
                },
            }
        }),
{
    let u = upload_of(op, content);
    lemma_storing_step_holds(op, before, user_id, admin, w, content, s, e);
    let t0 = before.committed;
    let (next, action) = step(op, user_id, admin, s, e);
    if s.stage == Stage::Resolving && e is Folders && action is FileExists {
        assert(folder_known(t0.folders, u.folder)) by {
            if u.folder is Some && !has_folder(t0.folders, u.folder->0) {
            }
        }
    }
    let known = s.stage != Stage::Start && s.stage != Stage::Opening && s.stage != Stage::Gating
        && s.stage != Stage::Resolving && s.stage != Stage::Aborting;
    if known {
        assert(folder_known(t0.folders, u.folder)) by {
            if u.folder is Some && !has_folder(t0.folders, u.folder->0) {
            }
        }
        lemma_known_resolves(t0.folders, u.folder);
        assert(u.dir(before) == place_of(t0.folders, u.folder));
        if !u.replaces(before) {
            lemma_free_file_name_free_place(t0, before.disk, u.folder, u.name);
            lemma_kinds_of_entry(before.disk, u.place(before));
            lemma_dir_is_ensured(t0, before.disk, u.folder);
        }
        if s.stage == Stage::Writing || s.stage == Stage::Recording || s.stage
            == Stage::Committing {
            if !has_entry(before.disk, s.path) {
                lemma_content_removed(before.disk, s.path, content);
            }
        }
    }
    if s.stage == Stage::Committing && e is Done {
        let row = FileView {
            id: before.next_id,
            folder_id: u.folder,
            owner_id: user_id,
            name: u.name,
            size: Some(crate::assets::recorded_size(u.written(before).1->Written_0)),
            created_at: before.clock,
            updated_at: before.clock,
        };
        if u.replaces(before) {
            let k = lemma_named_file_is_one(t0, u.folder, u.name);
            lemma_file_gone_keeps_sound(t0, before.disk, k);
            let t1 = TablesView { files: t0.files.remove(k), ..t0 };
            let d1 = remove_file(before.disk, u.place(before)).0;
            assert(u.rows_cleared(before) == t1);
            assert(u.disk_cleared(before) == d1);
            lemma_dir_is_ensured(t1, d1, u.folder);
            assert(!has_file(t1.files, row.id)) by {
                if has_file(t1.files, row.id) {
                    let i = choose|i: int|
                        0 <= i < t1.files.len() && (#[trigger] t1.files[i]).id == row.id;
                    assert(t0.files[if i < k { i } else { i + 1 }].id < before.next_id);
                }
            }
            lemma_new_file_keeps_sound(t1, d1, row, content);
            assert(w.committed == with_file(t1, row));
            assert(ids_below(w.committed, w.next_id)) by {
                assert forall|i: int| 0 <= i < w.committed.files.len() implies (
                #[trigger] w.committed.files[i]).id < w.next_id by {
                    if i < t1.files.len() {
                        assert(t0.files[if i < k { i } else { i + 1 }].id < before.next_id);
                    }
                }
                assert forall|i: int| 0 <= i < w.committed.folders.len() implies (
                #[trigger] w.committed.folders[i]).id < w.next_id by {
                    assert(t0.folders[i].id < before.next_id);
                }
            }
        } else {
            assert(!has_file(t0.files, row.id)) by {
                if has_file(t0.files, row.id) {
                    let i = choose|i: int|
                        0 <= i < t0.files.len() && (#[trigger] t0.files[i]).id == row.id;
                    assert(t0.files[i].id < before.next_id);
                }
            }
            lemma_new_file_keeps_sound(t0, before.disk, row, content);
            assert(w.committed == with_file(t0, row));
            assert(ids_below(w.committed, w.next_id)) by {
                assert forall|i: int| 0 <= i < w.committed.files.len() implies (
                #[trigger] w.committed.files[i]).id < w.next_id by {
                    if i < t0.files.len() {
                        assert(t0.files[i].id < before.next_id);
                    }
                }
                assert forall|i: int| 0 <= i < w.committed.folders.len() implies (
                #[trigger] w.committed.folders[i]).id < w.next_id by {
                    assert(t0.folders[i].id < before.next_id);
                }
            }
        }
    }
}

proof fn lemma_storing_safely_run(
    op: OperationView,
    before: StoreView,
    user_id: u128,
    admin: bool,
    w: StoreView,
    content: Seq<u8>,
    s: SagaView,
    e: EventView,
    fuel: nat,
)
    requires
        op is UploadFile,
        storing_safely(upload_of(op, content), before, user_id, admin, w, s, e),
        fuel >= rank(s.stage),
    ensures
        ({
            let (after, result) = run_from(op, user_id, admin, w, content, s, e, fuel);
            left_sound(before, after, result)
        }),
    decreases fuel,
{
    lemma_storing_safely_step(op, before, user_id, admin, w, content, s, e);
    lemma_steps_advance(op, user_id, admin, s, e);
    let (next, action) = step(op, user_id, admin, s, e);
    if !(action is Finish) {
        let (after, answer) = apply(w, action, content);
        lemma_storing_safely_run(
            op,
            before,
            user_id,
            admin,
            after,
            content,
            next,
            answer,
            (fuel - 1) as nat,
        );
    }
}

/// Storing a file leaves a sound store sound.
///
/// Where it ends well, the content is on disk at the file's place, the
/// rows have its row, the file of that name that was there before is gone,
/// row and bytes, and the disk mirrors the rows. Where it fails, the
/// committed rows and the disk are what they were: no row counts content that
/// is not there, and no content is left without a row. Only a partial
/// failure, which says so, may leave the two apart: content that could not
/// be removed again, or a row whose file was already overwritten.
pub proof fn lemma_upload_file_keeps_sound(
    w: StoreView,
    op: OperationView,
    user_id: u128,
    admin: bool,
    content: Seq<u8>,
)
    requires
        sound(w),
        op is UploadFile,
    ensures
        ({
            let (after, result) = run(op, user_id, admin, w, content);
            left_sound(w, after, result)
        }),
{
    lemma_storing_safely_run(
        op,
        w,
        user_id,
        admin,
        w,
        content,
        fresh_saga(),
        EventView::Start,
        MAX_STEPS as nat,
    );
}

} // verus!
