//! What each mutation has changed once it has ended well.
pub mod creating;
pub mod deleting;
pub mod renaming;
pub mod storing;
