//! A sound store stays sound: whatever a mutation ends in, short of a
//! partial failure, rows and disk say the same afterwards as they did
//! before.
use crate::mirror::{left_sound, sound};
use crate::store::{run, OperationView, StoreView};
use vstd::prelude::*;

pub mod creating;
pub mod deleting_file;
pub mod deleting_folder;
pub mod moving;
pub mod renaming_file;
pub mod renaming_folder;
pub mod storing;

verus! {

/// No mutation lets rows and disk drift apart unnoticed.
///
/// Run against a sound store, every mutation ends in one of three ways.
/// It ends well, and the store is sound again: the change is in the rows and
/// on disk alike. Or it fails, and the committed rows and the disk are what
/// they were: neither side appears to have changed. Or it ends in a partial
/// failure, which names the path that an operator has to look at. This
/// holds whoever asks, whatever the request, and whichever requests to the
/// database and the disk fail.
pub proof fn lemma_mutations_keep_sound(
    w: StoreView,
    op: OperationView,
    user_id: u128,
    admin: bool,
    content: Seq<u8>,
)
    requires
        sound(w),
    ensures
        left_sound(w, run(op, user_id, admin, w, content).0, run(op, user_id, admin, w, content).1),
{
    match op {
        OperationView::CreateFolder { name, parent } => {
            creating::lemma_create_folder_keeps_sound(w, name, parent, user_id, admin, content);
        },
        OperationView::DeleteFolder { id } => {
            deleting_folder::lemma_delete_folder_keeps_sound(w, id, user_id, admin, content);
        },
        OperationView::EditFolder { id, name } => {
            renaming_folder::lemma_edit_folder_keeps_sound(w, id, name, user_id, admin, content);
        },
        OperationView::UploadFile { .. } => {
            storing::lemma_upload_file_keeps_sound(w, op, user_id, admin, content);
        },
        OperationView::DeleteFile { id } => {
            deleting_file::lemma_delete_file_keeps_sound(w, id, user_id, admin, content);
        },
        OperationView::EditFile { id, name } => {
            renaming_file::lemma_edit_file_keeps_sound(w, id, name, user_id, admin, content);
        },
    }
}

} // verus!
