//! When success is owed: in a sound store, with no request failing, a
//! mutation that is allowed ends well.
use crate::assets::{sibling_path, stored_name};
use crate::disk::{has_prefix, parent_of, remove_file, rename};
use crate::effects::creating::{
    lemma_create_folder_effect, lemma_create_folder_succeeds, new_folder_row,
};
use crate::effects::deleting::{lemma_delete_file_effect, lemma_delete_folder_effect};
use crate::effects::renaming::{lemma_edit_file_effect, lemma_edit_folder_effect};
use crate::effects::storing::{lemma_upload_file_effect, upload_of};
use crate::mirror::{
    file_on_disk, file_path_of, lemma_dir_is_ensured, lemma_folder_has_dir, lemma_kinds_of_entry,
    sound,
};
use crate::names::valid_name;
use crate::paths::{has_folder, lemma_position, position};
use crate::perms::{permitted, PermissionKind};
use crate::soundness::creating::lemma_free_name_free_place;
use crate::soundness::deleting_file::{lemma_file_gone_keeps_sound, lemma_first_file};
use crate::soundness::deleting_folder::lemma_subtree_gone_keeps_sound;
use crate::soundness::storing::{lemma_free_file_name_free_place, lemma_named_file_is_one};
use crate::store::{run, run_from, OperationView, StoreView};
use crate::tables::{
    file_name_taken, file_name_taken_by_other, file_position, find_file, folder_known,
    folder_name_taken, folder_name_taken_by_other, has_file, has_row_for, TablesView,
};
use crate::tree::{
    lemma_known_resolves, lemma_path_unfolds, lemma_resolves, lemma_tree_grows, path_of, place_of,
};
use vstd::prelude::*;

verus! {

/// The store is sound and none of its requests is set to fail.
pub open spec fn sound_and_well(w: StoreView) -> bool {
    sound(w) && w.faults.len() == 0
}

/// A folder that may be created is created.
///
/// In a sound store with no request failing, creating a folder ends well
/// where the principal holds `Edit` on the parent, the name is valid, the
/// parent is there, no folder and no file below the parent has the name, and
/// two identifiers are left.
pub proof fn lemma_create_folder_owed(
    w: StoreView,
    name: Seq<char>,
    parent: Option<u128>,
    user_id: u128,
    admin: bool,
    content: Seq<u8>,
)
    requires
        sound_and_well(w),
        permitted(w.committed.permissions, user_id, admin, parent, PermissionKind::Edit),
        valid_name(name),
        folder_known(w.committed.folders, parent),
        !folder_name_taken(w.committed.folders, parent, name),
        !file_name_taken(w.committed.files, parent, name),
        w.next_id + 1 < u128::MAX,
    ensures
        run(OperationView::CreateFolder { name, parent }, user_id, admin, w, content).1 is Ok,
{
    let t = w.committed;
    let row = new_folder_row(w, name, parent, user_id);
    let place = place_of(t.folders, parent).push(name);
    assert(!has_folder(t.folders, row.id)) by {
        if has_folder(t.folders, row.id) {
            let i = choose|i: int|
                0 <= i < t.folders.len() && (#[trigger] t.folders[i]).id == row.id;
            assert(t.folders[i].id < w.next_id);
        }
    }
    assert(!has_row_for(t.permissions, user_id, Some(w.next_id))) by {
        if has_row_for(t.permissions, user_id, Some(w.next_id)) {
            let i = choose|i: int|
                0 <= i < t.permissions.len() && crate::perms::is_row_for(
                    #[trigger] t.permissions[i],
                    user_id,
                    Some(w.next_id),
                );
            assert(has_folder(t.folders, t.permissions[i].folder_id->0));
        }
    }
    lemma_tree_grows(t.folders, row);
    lemma_free_name_free_place(t, w.disk, parent, name);
    lemma_free_file_name_free_place(t, w.disk, parent, name);
    lemma_kinds_of_entry(w.disk, place);
    lemma_folder_has_dir(t, w.disk, parent);
    assert(parent_of(place) =~= place_of(t.folders, parent));
    lemma_create_folder_succeeds(w, name, parent, user_id, admin, content);
}

/// A folder that may be deleted is deleted.
///
/// In a sound store with no request failing, deleting a folder ends well
/// where the principal holds `Modify` on the folder and the folder is there.
pub proof fn lemma_delete_folder_owed(
    w: StoreView,
    id: u128,
    user_id: u128,
    admin: bool,
    content: Seq<u8>,
)
    requires
        sound_and_well(w),
        permitted(w.committed.permissions, user_id, admin, Some(id), PermissionKind::Modify),
        has_folder(w.committed.folders, id),
    ensures
        run(OperationView::DeleteFolder { id }, user_id, admin, w, content).1 is Ok,
{
    let t = w.committed;
    lemma_position(t.folders, id);
    let r = position(t.folders, id);
    lemma_resolves(t.folders, r);
    lemma_subtree_gone_keeps_sound(t, w.disk, r);
    reveal_with_fuel(run_from, 8);
}

/// A folder that may be renamed is renamed.
///
/// In a sound store with no request failing, renaming a folder ends well
/// where the principal holds `Modify` on the folder, the new name is valid,
/// the folder is there, and no other folder and no file below the same
/// parent has the new name.
pub proof fn lemma_edit_folder_owed(
    w: StoreView,
    id: u128,
    name: Seq<char>,
    user_id: u128,
    admin: bool,
    content: Seq<u8>,
)
    requires
        sound_and_well(w),
        permitted(w.committed.permissions, user_id, admin, Some(id), PermissionKind::Modify),
        valid_name(name),
        has_folder(w.committed.folders, id),
        !folder_name_taken_by_other(
            w.committed.folders,
            w.committed.folders[position(w.committed.folders, id)].parent_id,
            name,
            id,
        ),
        !file_name_taken(
            w.committed.files,
            w.committed.folders[position(w.committed.folders, id)].parent_id,
            name,
        ),
    ensures
        run(OperationView::EditFolder { id, name }, user_id, admin, w, content).1 is Ok,
{
    let t = w.committed;
    lemma_position(t.folders, id);
    let r = position(t.folders, id);
    let row = t.folders[r];
    lemma_resolves(t.folders, r);
    lemma_path_unfolds(t.folders, r);
    let from = path_of(t.folders, r);
    let to = sibling_path(from, name);
    if row.parent_id is Some {
        crate::tree::lemma_parent_place(t.folders, r);
    }
    assert(from.drop_last() =~= place_of(t.folders, row.parent_id));
    assert(to == place_of(t.folders, row.parent_id).push(name));
    assert(crate::mirror::dir_on_disk(w.disk, path_of(t.folders, r)));
    lemma_kinds_of_entry(w.disk, from);
    if from != to {
        assert(row.name != name) by {
            if row.name == name {
                assert(from =~= to);
            }
        }
        assert(!folder_name_taken(t.folders, row.parent_id, name)) by {
            if folder_name_taken(t.folders, row.parent_id, name) {
                let i = choose|i: int|
                    0 <= i < t.folders.len() && (#[trigger] t.folders[i]).parent_id
                        == row.parent_id && t.folders[i].name == name;
                assert(t.folders[i].id != id) by {
                    if i != r {
                        if i < r {
                            assert(t.folders[i].id != t.folders[r].id);
                        } else {
                            assert(t.folders[r].id != t.folders[i].id);
                        }
                    }
                }
            }
        }
        lemma_free_name_free_place(t, w.disk, row.parent_id, name);
        lemma_free_file_name_free_place(t, w.disk, row.parent_id, name);
        lemma_kinds_of_entry(w.disk, to);
        lemma_folder_has_dir(t, w.disk, row.parent_id);
        assert(parent_of(to) =~= place_of(t.folders, row.parent_id));
        assert(!has_prefix(to, from)) by {
            if has_prefix(to, from) {
                assert(to.take(from.len() as int) =~= to);
            }
        }
    }
    assert(rename(w.disk, from, to).1 is Done);
    reveal_with_fuel(run_from, 8);
}

/// A file that may be deleted is deleted.
///
/// In a sound store with no request failing, deleting a file ends well
/// where the file is there and the principal holds `Edit` on its folder.
pub proof fn lemma_delete_file_owed(
    w: StoreView,
    id: u128,
    user_id: u128,
    admin: bool,
    content: Seq<u8>,
)
    requires
        sound_and_well(w),
        has_file(w.committed.files, id),
        permitted(
            w.committed.permissions,
            user_id,
            admin,
            find_file(w.committed, id)->0.folder_id,
            PermissionKind::Edit,
        ),
    ensures
        run(OperationView::DeleteFile { id }, user_id, admin, w, content).1 is Ok,
{
    let t = w.committed;
    lemma_first_file(t, id);
    let k = file_position(t.files, id);
    lemma_known_resolves(t.folders, t.files[k].folder_id);
    lemma_file_gone_keeps_sound(t, w.disk, k);
    reveal_with_fuel(run_from, 9);
}

/// A file that may be renamed is renamed.
///
/// In a sound store with no request failing, renaming a file ends well
/// where the file is there, the principal holds `Edit` on its folder, the new
/// name is valid, and no other file and no folder in that folder has the new
/// name.
pub proof fn lemma_edit_file_owed(
    w: StoreView,
    id: u128,
    name: Seq<char>,
    user_id: u128,
    admin: bool,
    content: Seq<u8>,
)
    requires
        sound_and_well(w),
        has_file(w.committed.files, id),
        permitted(
            w.committed.permissions,
            user_id,
            admin,
            find_file(w.committed, id)->0.folder_id,
            PermissionKind::Edit,
        ),
        valid_name(name),
        !file_name_taken_by_other(
            w.committed.files,
            find_file(w.committed, id)->0.folder_id,
            name,
            id,
        ),
        !folder_name_taken(w.committed.folders, find_file(w.committed, id)->0.folder_id, name),
    ensures
        run(OperationView::EditFile { id, name }, user_id, admin, w, content).1 is Ok,
{
    let t = w.committed;
    lemma_first_file(t, id);
    let k = file_position(t.files, id);
    let file = t.files[k];
    lemma_known_resolves(t.folders, file.folder_id);
    let dir = place_of(t.folders, file.folder_id);
    let from = dir.push(file.name);
    let to = dir.push(name);
    assert(from == file_path_of(t, k));
    assert(file_on_disk(w.disk, file_path_of(t, k)));
    lemma_kinds_of_entry(w.disk, from);
    if from != to {
        assert(!file_name_taken(t.files, file.folder_id, name)) by {
            if file_name_taken(t.files, file.folder_id, name) {
                let i = choose|i: int|
                    0 <= i < t.files.len() && (#[trigger] t.files[i]).folder_id == file.folder_id
                        && t.files[i].name == name;
                if i == k {
                    assert(from =~= to);
                }
                if i < k {
                    assert(t.files[i].id != t.files[k].id);
                }
                if k < i {
                    assert(t.files[k].id != t.files[i].id);
                }
            }
        }
        lemma_free_name_free_place(t, w.disk, file.folder_id, name);
        lemma_free_file_name_free_place(t, w.disk, file.folder_id, name);
        lemma_kinds_of_entry(w.disk, to);
        lemma_folder_has_dir(t, w.disk, file.folder_id);
        assert(parent_of(to) =~= dir);
        assert(!has_prefix(to, from)) by {
            if has_prefix(to, from) {
                assert(to.take(from.len() as int) =~= to);
            }
        }
    }
    assert(rename(w.disk, from, to).1 is Done);
    reveal_with_fuel(run_from, 9);
}

/// A file that may be stored is stored.
///
/// In a sound store with no request failing, storing a file ends well
/// where the principal holds `Edit` on the folder, the name in force is
/// valid, the folder is there, no folder in it has the name, a file of the
/// name is in the way only if the request asks to overwrite it, and an
/// identifier is left.
pub proof fn lemma_upload_file_owed(
    w: StoreView,
    op: OperationView,
    user_id: u128,
    admin: bool,
    content: Seq<u8>,
)
    requires
        op is UploadFile,
        sound_and_well(w),
        permitted(
            w.committed.permissions,
            user_id,
            admin,
            op->UploadFile_folder,
            PermissionKind::Edit,
        ),
        valid_name(stored_name(op->UploadFile_file_name, op->UploadFile_name)),
        folder_known(w.committed.folders, op->UploadFile_folder),
        !folder_name_taken(
            w.committed.folders,
            op->UploadFile_folder,
            stored_name(op->UploadFile_file_name, op->UploadFile_name),
        ),
        file_name_taken(
            w.committed.files,
            op->UploadFile_folder,
            stored_name(op->UploadFile_file_name, op->UploadFile_name),
        ) ==> op->UploadFile_overwrite,
        w.next_id < u128::MAX,
    ensures
        run(op, user_id, admin, w, content).1 is Ok,
{
    let t = w.committed;
    let folder = op->UploadFile_folder;
    let name = stored_name(op->UploadFile_file_name, op->UploadFile_name);
    let dir = place_of(t.folders, folder);
    let place = dir.push(name);
    lemma_known_resolves(t.folders, folder);
    assert(parent_of(place) =~= dir);
    if file_name_taken(t.files, folder, name) {
        let k = lemma_named_file_is_one(t, folder, name);
        lemma_file_gone_keeps_sound(t, w.disk, k);
        let t1 = TablesView { files: t.files.remove(k), ..t };
        let d1 = remove_file(w.disk, place).0;
        assert(!file_name_taken(t1.files, folder, name)) by {
            if file_name_taken(t1.files, folder, name) {
                let i = choose|i: int|
                    0 <= i < t1.files.len() && (#[trigger] t1.files[i]).folder_id == folder
                        && t1.files[i].name == name;
                let i0 = if i < k {
                    i
                } else {
                    i + 1
                };
                if i0 < k {
                    assert(t.files[i0].folder_id == t.files[k].folder_id ==> t.files[i0].name
                        != t.files[k].name);
                } else {
                    assert(t.files[k].folder_id == t.files[i0].folder_id ==> t.files[k].name
                        != t.files[i0].name);
                }
            }
        }
        lemma_dir_is_ensured(t1, d1, folder);
        lemma_free_name_free_place(t1, d1, folder, name);
        lemma_free_file_name_free_place(t1, d1, folder, name);
        lemma_kinds_of_entry(d1, place);
        lemma_folder_has_dir(t1, d1, folder);
    } else {
        lemma_dir_is_ensured(t, w.disk, folder);
        lemma_free_name_free_place(t, w.disk, folder, name);
        lemma_free_file_name_free_place(t, w.disk, folder, name);
        lemma_kinds_of_entry(w.disk, place);
        lemma_folder_has_dir(t, w.disk, folder);
    }
    assert(!has_file(upload_of(op, content).rows_cleared(w).files, w.next_id)) by {
        let rows = upload_of(op, content).rows_cleared(w).files;
        if has_file(rows, w.next_id) {
            let i = choose|i: int| 0 <= i < rows.len() && (#[trigger] rows[i]).id == w.next_id;
            if file_name_taken(t.files, folder, name) {
                let k = lemma_named_file_is_one(t, folder, name);
                assert(t.files[if i < k { i } else { i + 1 }].id < w.next_id);
            } else {
                assert(t.files[i].id < w.next_id);
            }
        }
    }
    crate::effects::storing::lemma_upload_file_succeeds(w, op, user_id, admin, content);
}

/// Creating a folder ends well exactly where it may.
///
/// In a sound store with no request failing and two identifiers left,
/// creating a folder ends well if and only if the principal holds `Edit` on
/// the parent, the name is valid, the parent is there, and no folder and no
/// file below the parent has the name.
pub proof fn lemma_create_folder_exactly_when(
    w: StoreView,
    name: Seq<char>,
    parent: Option<u128>,
    user_id: u128,
    admin: bool,
    content: Seq<u8>,
)
    requires
        sound_and_well(w),
        w.next_id + 1 < u128::MAX,
    ensures
        run(OperationView::CreateFolder { name, parent }, user_id, admin, w, content).1 is Ok
            <==> {
            &&& permitted(w.committed.permissions, user_id, admin, parent, PermissionKind::Edit)
            &&& valid_name(name)
            &&& folder_known(w.committed.folders, parent)
            &&& !folder_name_taken(w.committed.folders, parent, name)
            &&& !file_name_taken(w.committed.files, parent, name)
        },
{
    let t = w.committed;
    let op = OperationView::CreateFolder { name, parent };
    if run(op, user_id, admin, w, content).1 is Ok {
        lemma_create_folder_effect(w, name, parent, user_id, admin, content);
        let row = new_folder_row(w, name, parent, user_id);
        assert(!has_folder(t.folders, row.id)) by {
            if has_folder(t.folders, row.id) {
                let i = choose|i: int|
                    0 <= i < t.folders.len() && (#[trigger] t.folders[i]).id == row.id;
                assert(t.folders[i].id < w.next_id);
            }
        }
        lemma_tree_grows(t.folders, row);
        let place = place_of(t.folders, parent).push(name);
        if file_name_taken(t.files, parent, name) {
            let i = choose|i: int|
                0 <= i < t.files.len() && (#[trigger] t.files[i]).folder_id == parent
                    && t.files[i].name == name;
            assert(file_on_disk(w.disk, file_path_of(t, i)));
            lemma_kinds_of_entry(w.disk, place);
        }
    }
    if permitted(t.permissions, user_id, admin, parent, PermissionKind::Edit) && valid_name(name)
        && folder_known(t.folders, parent) && !folder_name_taken(t.folders, parent, name)
        && !file_name_taken(t.files, parent, name) {
        lemma_create_folder_owed(w, name, parent, user_id, admin, content);
    }
}

/// Deleting a folder ends well exactly where it may.
///
/// In a sound store with no request failing, deleting a folder ends well
/// if and only if the principal holds `Modify` on the folder and the folder
/// is there.
pub proof fn lemma_delete_folder_exactly_when(
    w: StoreView,
    id: u128,
    user_id: u128,
    admin: bool,
    content: Seq<u8>,
)
    requires
        sound_and_well(w),
    ensures
        run(OperationView::DeleteFolder { id }, user_id, admin, w, content).1 is Ok <==> {
            &&& permitted(
                w.committed.permissions,
                user_id,
                admin,
                Some(id),
                PermissionKind::Modify,
            )
            &&& has_folder(w.committed.folders, id)
        },
{
    let op = OperationView::DeleteFolder { id };
    if run(op, user_id, admin, w, content).1 is Ok {
        lemma_delete_folder_effect(w, id, user_id, admin, content);
    }
    if permitted(w.committed.permissions, user_id, admin, Some(id), PermissionKind::Modify)
        && has_folder(w.committed.folders, id) {
        lemma_delete_folder_owed(w, id, user_id, admin, content);
    }
}

/// Renaming a folder ends well exactly where it may.
///
/// In a sound store with no request failing, renaming a folder ends well
/// if and only if the principal holds `Modify` on the folder, the new name is
/// valid, the folder is there, and no other folder and no file below the
/// same parent has the new name.
pub proof fn lemma_edit_folder_exactly_when(
    w: StoreView,
    id: u128,
    name: Seq<char>,
    user_id: u128,
    admin: bool,
    content: Seq<u8>,
)
    requires
        sound_and_well(w),
    ensures
        run(OperationView::EditFolder { id, name }, user_id, admin, w, content).1 is Ok <==> {
            let parent = w.committed.folders[position(w.committed.folders, id)].parent_id;
            &&& permitted(
                w.committed.permissions,
                user_id,
                admin,
                Some(id),
                PermissionKind::Modify,
            )
            &&& valid_name(name)
            &&& has_folder(w.committed.folders, id)
            &&& !folder_name_taken_by_other(w.committed.folders, parent, name, id)
            &&& !file_name_taken(w.committed.files, parent, name)
        },
{
    let t = w.committed;
    let op = OperationView::EditFolder { id, name };
    let parent = t.folders[position(t.folders, id)].parent_id;
    if run(op, user_id, admin, w, content).1 is Ok {
        lemma_edit_folder_effect(w, id, name, user_id, admin, content);
        lemma_position(t.folders, id);
        let r = position(t.folders, id);
        lemma_resolves(t.folders, r);
        lemma_path_unfolds(t.folders, r);
        let from = path_of(t.folders, r);
        let to = sibling_path(from, name);
        if t.folders[r].parent_id is Some {
            crate::tree::lemma_parent_place(t.folders, r);
        }
        assert(from.drop_last() =~= place_of(t.folders, parent));
        assert(to == place_of(t.folders, parent).push(name));
        if file_name_taken(t.files, parent, name) {
            let i = choose|i: int|
                0 <= i < t.files.len() && (#[trigger] t.files[i]).folder_id == parent
                    && t.files[i].name == name;
            assert(file_on_disk(w.disk, file_path_of(t, i)));
            assert(crate::mirror::dir_on_disk(w.disk, path_of(t.folders, r)));
            lemma_kinds_of_entry(w.disk, to);
        }
    }
    if permitted(t.permissions, user_id, admin, Some(id), PermissionKind::Modify) && valid_name(
        name,
    ) && has_folder(t.folders, id) && !folder_name_taken_by_other(t.folders, parent, name, id)
        && !file_name_taken(t.files, parent, name) {
        lemma_edit_folder_owed(w, id, name, user_id, admin, content);
    }
}

/// Deleting a file ends well exactly where it may.
///
/// In a sound store with no request failing, deleting a file ends well if
/// and only if the file is there and the principal holds `Edit` on its
/// folder.
pub proof fn lemma_delete_file_exactly_when(
    w: StoreView,
    id: u128,
    user_id: u128,
    admin: bool,
    content: Seq<u8>,
)
    requires
        sound_and_well(w),
    ensures
        run(OperationView::DeleteFile { id }, user_id, admin, w, content).1 is Ok <==> {
            &&& has_file(w.committed.files, id)
            &&& permitted(
                w.committed.permissions,
                user_id,
                admin,
                find_file(w.committed, id)->0.folder_id,
                PermissionKind::Edit,
            )
        },
{
    let op = OperationView::DeleteFile { id };
    if run(op, user_id, admin, w, content).1 is Ok {
        lemma_delete_file_effect(w, id, user_id, admin, content);
    }
    if has_file(w.committed.files, id) && permitted(
        w.committed.permissions,
        user_id,
        admin,
        find_file(w.committed, id)->0.folder_id,
        PermissionKind::Edit,
    ) {
        lemma_delete_file_owed(w, id, user_id, admin, content);
    }
}

/// Renaming a file ends well exactly where it may.
///
/// In a sound store with no request failing, renaming a file ends well if
/// and only if the file is there, the principal holds `Edit` on its folder,
/// the new name is valid, and no other file and no folder in that folder has
/// the new name.
pub proof fn lemma_edit_file_exactly_when(
    w: StoreView,
    id: u128,
    name: Seq<char>,
    user_id: u128,
    admin: bool,
    content: Seq<u8>,
)
    requires
        sound_and_well(w),
    ensures
        run(OperationView::EditFile { id, name }, user_id, admin, w, content).1 is Ok <==> {
            let folder = find_file(w.committed, id)->0.folder_id;
            &&& has_file(w.committed.files, id)
            &&& permitted(w.committed.permissions, user_id, admin, folder, PermissionKind::Edit)
            &&& valid_name(name)
            &&& !file_name_taken_by_other(w.committed.files, folder, name, id)
            &&& !folder_name_taken(w.committed.folders, folder, name)
        },
{
    let t = w.committed;
    let op = OperationView::EditFile { id, name };
    let folder = find_file(t, id)->0.folder_id;
    if run(op, user_id, admin, w, content).1 is Ok {
        lemma_edit_file_effect(w, id, name, user_id, admin, content);
        lemma_first_file(t, id);
        let k = file_position(t.files, id);
        lemma_known_resolves(t.folders, folder);
        let dir = place_of(t.folders, folder);
        let from = dir.push(t.files[k].name);
        let to = dir.push(name);
        assert(from == file_path_of(t, k));
        if folder_name_taken(t.folders, folder, name) {
            let i = choose|i: int|
                0 <= i < t.folders.len() && (#[trigger] t.folders[i]).parent_id == folder
                    && t.folders[i].name == name;
            lemma_path_unfolds(t.folders, i);
            if folder is Some {
                crate::tree::lemma_parent_place(t.folders, i);
            }
            assert(path_of(t.folders, i) == to);
            assert(crate::mirror::dir_on_disk(w.disk, path_of(t.folders, i)));
            assert(file_on_disk(w.disk, file_path_of(t, k)));
            lemma_kinds_of_entry(w.disk, to);
        }
    }
    if has_file(t.files, id) && permitted(
        t.permissions,
        user_id,
        admin,
        folder,
        PermissionKind::Edit,
    ) && valid_name(name) && !file_name_taken_by_other(t.files, folder, name, id)
        && !folder_name_taken(t.folders, folder, name) {
        lemma_edit_file_owed(w, id, name, user_id, admin, content);
    }
}

/// Storing a file ends well exactly where it may.
///
/// In a sound store with no request failing and an identifier left,
/// storing a file ends well if and only if the principal holds `Edit` on the
/// folder, the name in force is valid, the folder is there, no folder in it
/// has the name, and a file of the name is in the way only if the request
/// asks to overwrite it.
pub proof fn lemma_upload_file_exactly_when(
    w: StoreView,
    op: OperationView,
    user_id: u128,
    admin: bool,
    content: Seq<u8>,
)
    requires
        op is UploadFile,
        sound_and_well(w),
        w.next_id < u128::MAX,
    ensures
        run(op, user_id, admin, w, content).1 is Ok <==> {
            let folder = op->UploadFile_folder;
            let name = stored_name(op->UploadFile_file_name, op->UploadFile_name);
            &&& permitted(w.committed.permissions, user_id, admin, folder, PermissionKind::Edit)
            &&& valid_name(name)
            &&& folder_known(w.committed.folders, folder)
            &&& !folder_name_taken(w.committed.folders, folder, name)
            &&& file_name_taken(w.committed.files, folder, name) ==> op->UploadFile_overwrite
        },
{
    let t = w.committed;
    let folder = op->UploadFile_folder;
    let name = stored_name(op->UploadFile_file_name, op->UploadFile_name);
    let u = upload_of(op, content);
    if run(op, user_id, admin, w, content).1 is Ok {
        lemma_upload_file_effect(w, op, user_id, admin, content);
        assert(folder_known(t.folders, folder)) by {
            if folder is Some && !has_folder(t.folders, folder->0) {
            }
        }
        lemma_known_resolves(t.folders, folder);
        let place = place_of(t.folders, folder).push(name);
        if folder_name_taken(t.folders, folder, name) {
            let i = choose|i: int|
                0 <= i < t.folders.len() && (#[trigger] t.folders[i]).parent_id == folder
                    && t.folders[i].name == name;
            lemma_path_unfolds(t.folders, i);
            if folder is Some {
                crate::tree::lemma_parent_place(t.folders, i);
            }
            assert(path_of(t.folders, i) == place);
            assert(crate::mirror::dir_on_disk(w.disk, path_of(t.folders, i)));
            lemma_kinds_of_entry(w.disk, place);
            lemma_dir_is_ensured(t, w.disk, folder);
            if file_name_taken(t.files, folder, name) {
                let k = lemma_named_file_is_one(t, folder, name);
                assert(file_on_disk(w.disk, file_path_of(t, k)));
            }
        }
    }
    if permitted(t.permissions, user_id, admin, folder, PermissionKind::Edit) && valid_name(name)
        && folder_known(t.folders, folder) && !folder_name_taken(t.folders, folder, name) && (
    file_name_taken(t.files, folder, name) ==> op->UploadFile_overwrite) {
        lemma_upload_file_owed(w, op, user_id, admin, content);
    }
}

} // verus!
