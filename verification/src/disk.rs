//! The directory tree of the store, and what each filesystem operation
//! does to it.
//!
//! This is the reference for the disk side of the store. An entry is a
//! directory or a file, and is known by its path: the names from the store's
//! root down to it. The root itself is always there and has no entry.
use crate::models::{clone_path, StorePath};
use crate::saga::{Event, EventView};
use vstd::prelude::*;

verus! {

/// One entry on disk: a directory, or a file with its content.
#[derive(Debug)]
pub struct Entry {
    pub path: StorePath,
    /// The bytes of a file; a directory has none.
    pub content: Option<Vec<u8>>,
}

/// The mathematical value of an [`Entry`].
pub struct EntryView {
    pub path: Seq<Seq<char>>,
    pub content: Option<Seq<u8>>,
}

impl DeepView for Entry {
    type V = EntryView;

    open spec fn deep_view(&self) -> EntryView {
        EntryView {
            path: self.path.deep_view(),
            content: match self.content {
                Some(bytes) => Some(bytes@),
                None => None,
            },
        }
    }
}

/// The entry of a directory at `path`.
pub open spec fn dir_entry(path: Seq<Seq<char>>) -> EntryView {
    EntryView { path, content: None }
}

/// The entry of a file at `path`.
pub open spec fn file_entry(path: Seq<Seq<char>>, content: Seq<u8>) -> EntryView {
    EntryView { path, content: Some(content) }
}

/// Some entry is at `path`.
pub open spec fn has_entry(d: Seq<EntryView>, path: Seq<Seq<char>>) -> bool {
    exists|i: int| 0 <= i < d.len() && (#[trigger] d[i]).path == path
}

/// `i` is the place of the first entry at `path`.
pub open spec fn first_entry_at(d: Seq<EntryView>, path: Seq<Seq<char>>, i: int) -> bool {
    &&& 0 <= i < d.len()
    &&& d[i].path == path
    &&& forall|j: int| 0 <= j < i ==> (#[trigger] d[j]).path != path
}

/// The place of the first entry at `path`; arbitrary where there is none.
pub open spec fn entry_position(d: Seq<EntryView>, path: Seq<Seq<char>>) -> int {
    choose|i: int| first_entry_at(d, path, i)
}

/// Where an entry is at `path`, `entry_position` is the place of the first
/// such entry, and no other place is.
pub proof fn lemma_entry_position(d: Seq<EntryView>, path: Seq<Seq<char>>, k: int)
    requires
        first_entry_at(d, path, k),
    ensures
        entry_position(d, path) == k,
        has_entry(d, path),
{
    let p = entry_position(d, path);
    assert(first_entry_at(d, path, p));
    if p < k {
        assert(d[p].path != path);
    }
    if k < p {
        assert(d[k].path != path);
    }
}

/// A directory is at `path`. The root, whose path is empty, always is one.
pub open spec fn is_dir(d: Seq<EntryView>, path: Seq<Seq<char>>) -> bool {
    path.len() == 0 || (has_entry(d, path) && d[entry_position(d, path)].content is None)
}

/// A file is at `path`.
pub open spec fn is_file(d: Seq<EntryView>, path: Seq<Seq<char>>) -> bool {
    path.len() > 0 && has_entry(d, path) && d[entry_position(d, path)].content is Some
}

/// `path` is `prefix` or lies below it.
pub open spec fn has_prefix(path: Seq<Seq<char>>, prefix: Seq<Seq<char>>) -> bool {
    prefix.len() <= path.len() && path.take(prefix.len() as int) == prefix
}

/// Some entry lies below `path`, not counting the entry at `path` itself.
pub open spec fn has_child(d: Seq<EntryView>, path: Seq<Seq<char>>) -> bool {
    exists|i: int|
        0 <= i < d.len() && (#[trigger] d[i]).path.len() > path.len() && has_prefix(
            d[i].path,
            path,
        )
}

/// The directory that holds the entry at `path`.
pub open spec fn parent_of(path: Seq<Seq<char>>) -> Seq<Seq<char>> {
    path.drop_last()
}

/// What making a directory does.
///
/// It fails, and changes nothing, for the root, where an entry is already
/// at the path, and where the directory that is to hold it is missing.
/// Otherwise the directory is there afterwards.
pub open spec fn make_dir(d: Seq<EntryView>, path: Seq<Seq<char>>) -> (Seq<EntryView>, EventView) {
    if path.len() == 0 || has_entry(d, path) || !is_dir(d, parent_of(path)) {
        (d, EventView::Failed)
    } else {
        (d.push(dir_entry(path)), EventView::Done)
    }
}

/// What removing one directory does.
///
/// With no entry at the path, the directory is missing. The root, a file,
/// and a directory that holds something are not removed: the operation
/// fails. Otherwise the directory is gone afterwards. Nothing else changes.
pub open spec fn remove_dir(d: Seq<EntryView>, path: Seq<Seq<char>>) -> (
    Seq<EntryView>,
    EventView,
) {
    if path.len() == 0 {
        (d, EventView::Failed)
    } else if !has_entry(d, path) {
        (d, EventView::Missing)
    } else if !is_dir(d, path) || has_child(d, path) {
        (d, EventView::Failed)
    } else {
        (d.remove(entry_position(d, path)), EventView::Done)
    }
}

/// What removing a directory with all its content does.
///
/// With no entry at the path, the directory is missing. The root and a
/// file are not removed: the operation fails. Otherwise every entry at or
/// below the path is gone afterwards, and every other entry stays.
pub open spec fn remove_dir_all(d: Seq<EntryView>, path: Seq<Seq<char>>) -> (
    Seq<EntryView>,
    EventView,
) {
    if path.len() == 0 {
        (d, EventView::Failed)
    } else if !has_entry(d, path) {
        (d, EventView::Missing)
    } else if !is_dir(d, path) {
        (d, EventView::Failed)
    } else {
        (d.filter(|e: EntryView| !has_prefix(e.path, path)), EventView::Done)
    }
}

/// Where an entry at `path` is after what was at `from` has been moved to
/// `to`.
pub open spec fn moved_path(path: Seq<Seq<char>>, from: Seq<Seq<char>>, to: Seq<Seq<char>>) -> Seq<
    Seq<char>,
> {
    if has_prefix(path, from) {
        to + path.skip(from.len() as int)
    } else {
        path
    }
}

/// The entry `e` after what was at `from` has been moved to `to`.
pub open spec fn moved_entry(e: EntryView, from: Seq<Seq<char>>, to: Seq<Seq<char>>) -> EntryView {
    EntryView { path: moved_path(e.path, from, to), ..e }
}

/// What moving an entry does.
///
/// It fails, and changes nothing, where nothing is at `from`, and for the
/// root as source or destination. Moving an entry to where it is changes
/// nothing. Otherwise it fails where something is at `to` already, where
/// the directory that is to hold `to` is missing, and where `to` lies below
/// `from`. Otherwise the entry and all that lies below it are at and below
/// `to` afterwards; every other entry stays.
pub open spec fn rename(d: Seq<EntryView>, from: Seq<Seq<char>>, to: Seq<Seq<char>>) -> (
    Seq<EntryView>,
    EventView,
) {
    if from.len() == 0 || to.len() == 0 || !has_entry(d, from) {
        (d, EventView::Failed)
    } else if from == to {
        (d, EventView::Done)
    } else if has_entry(d, to) || !is_dir(d, parent_of(to)) || has_prefix(to, from) {
        (d, EventView::Failed)
    } else {
        (d.map_values(|e: EntryView| moved_entry(e, from, to)), EventView::Done)
    }
}

/// What storing a file does.
///
/// It fails, and changes nothing, for the root, where the directory that is
/// to hold the file is missing, and where a directory is at the path. A
/// file at the path gets the new content; otherwise the file is new.
/// The answer tells the size of what was stored.
pub open spec fn write_file(d: Seq<EntryView>, path: Seq<Seq<char>>, content: Seq<u8>) -> (
    Seq<EntryView>,
    EventView,
) {
    if path.len() == 0 || !is_dir(d, parent_of(path)) {
        (d, EventView::Failed)
    } else if has_entry(d, path) {
        if is_file(d, path) {
            (
                d.update(entry_position(d, path), file_entry(path, content)),
                EventView::Written(content.len() as u64),
            )
        } else {
            (d, EventView::Failed)
        }
    } else {
        (d.push(file_entry(path, content)), EventView::Written(content.len() as u64))
    }
}

/// What removing a file does.
///
/// With no entry at the path, the file is missing. A directory is not
/// removed: the operation fails. Otherwise the file is gone afterwards.
/// Nothing else changes.
pub open spec fn remove_file(d: Seq<EntryView>, path: Seq<Seq<char>>) -> (
    Seq<EntryView>,
    EventView,
) {
    if !has_entry(d, path) {
        (d, EventView::Missing)
    } else if !is_file(d, path) {
        (d, EventView::Failed)
    } else {
        (d.remove(entry_position(d, path)), EventView::Done)
    }
}

/// Some directory on the way down to `path`, or `path` itself, is a file.
pub open spec fn blocked(d: Seq<EntryView>, path: Seq<Seq<char>>) -> bool {
    exists|k: int| 1 <= k <= path.len() && is_file(d, #[trigger] path.take(k))
}

/// The disk after the first `k` directories on the way down to `path` were
/// made where they were missing.
pub open spec fn with_dirs(d: Seq<EntryView>, path: Seq<Seq<char>>, k: nat) -> Seq<EntryView>
    decreases k,
{
    if k == 0 {
        d
    } else {
        let above = with_dirs(d, path, (k - 1) as nat);
        if has_entry(above, path.take(k as int)) {
            above
        } else {
            above.push(dir_entry(path.take(k as int)))
        }
    }
}

/// What making sure of a directory does.
///
/// It fails, and changes nothing, where a file is in the way. Otherwise
/// every directory on the way down to the path that was missing is there
/// afterwards, and so is the directory itself. Where it was there already
/// nothing changes.
pub open spec fn ensure_dir(d: Seq<EntryView>, path: Seq<Seq<char>>) -> (
    Seq<EntryView>,
    EventView,
) {
    if blocked(d, path) {
        (d, EventView::Failed)
    } else {
        (with_dirs(d, path, path.len()), EventView::Done)
    }
}

/// Whether two paths are the same.
pub fn same_path(a: &StorePath, b: &StorePath) -> (res: bool)
    ensures
        res == (a.deep_view() == b.deep_view()),
{
    if a.len() != b.len() {
        assert(a.deep_view().len() != b.deep_view().len());
        return false;
    }
    let mut i: usize = 0;
    while i < a.len()
        invariant
            i <= a.len(),
            a.len() == b.len(),
            forall|k: int| 0 <= k < i ==> a[k]@ == b[k]@,
        decreases a.len() - i,
    {
        if a[i] != b[i] {
            assert(a.deep_view()[i as int] != b.deep_view()[i as int]);
            return false;
        }
        i += 1;
    }
    assert(a.deep_view() =~= b.deep_view());
    true
}

/// Whether `path` is `prefix` or lies below it.
pub fn path_has_prefix(path: &StorePath, prefix: &StorePath) -> (res: bool)
    ensures
        res == has_prefix(path.deep_view(), prefix.deep_view()),
{
    if prefix.len() > path.len() {
        return false;
    }
    let mut i: usize = 0;
    while i < prefix.len()
        invariant
            i <= prefix.len(),
            prefix.len() <= path.len(),
            forall|k: int| 0 <= k < i ==> path[k]@ == prefix[k]@,
        decreases prefix.len() - i,
    {
        if path[i] != prefix[i] {
            assert(path.deep_view().take(prefix.len() as int)[i as int]
                != prefix.deep_view()[i as int]);
            return false;
        }
        i += 1;
    }
    assert(path.deep_view().take(prefix.len() as int) =~= prefix.deep_view());
    true
}

/// The first `k` names of `path`.
pub fn path_take(path: &StorePath, k: usize) -> (res: StorePath)
    requires
        k <= path.len(),
    ensures
        res.deep_view() == path.deep_view().take(k as int),
{
    let mut out: Vec<String> = Vec::new();
    let mut i: usize = 0;
    while i < k
        invariant
            i <= k <= path.len(),
            out.len() == i,
            forall|j: int| 0 <= j < i ==> out[j]@ == path[j]@,
        decreases k - i,
    {
        out.push(path[i].clone());
        i += 1;
    }
    assert(out.deep_view() =~= path.deep_view().take(k as int));
    out
}

/// A copy of `bytes`.
pub fn copy_bytes(bytes: &Vec<u8>) -> (res: Vec<u8>)
    ensures
        res@ == bytes@,
{
    let mut out: Vec<u8> = Vec::new();
    let mut i: usize = 0;
    while i < bytes.len()
        invariant
            i <= bytes.len(),
            out.len() == i,
            forall|j: int| 0 <= j < i ==> out[j] == bytes[j],
        decreases bytes.len() - i,
    {
        out.push(bytes[i]);
        i += 1;
    }
    assert(out@ =~= bytes@);
    out
}

impl Clone for Entry {
    fn clone(&self) -> (res: Self)
        ensures
            res.deep_view() == self.deep_view(),
    {
        let content = match &self.content {
            Some(bytes) => Some(copy_bytes(bytes)),
            None => None,
        };
        Entry { path: clone_path(&self.path), content }
    }
}

/// The directory tree of the store: its entries, in the order in which
/// they came to be.
#[derive(Debug)]
pub struct Disk {
    pub entries: Vec<Entry>,
}

impl DeepView for Disk {
    type V = Seq<EntryView>;

    open spec fn deep_view(&self) -> Seq<EntryView> {
        self.entries.deep_view()
    }
}

impl Disk {
    /// A disk with nothing on it but the root.
    pub fn new() -> (res: Disk)
        ensures
            res.deep_view().len() == 0,
    {
        Disk { entries: Vec::new() }
    }

    /// The place of the first entry at `path`, if there is one.
    pub fn find(&self, path: &StorePath) -> (res: Option<usize>)
        ensures
            res is Some <==> has_entry(self.deep_view(), path.deep_view()),
            res is Some ==> res->0 == entry_position(self.deep_view(), path.deep_view()) && res->0
                < self.entries.len(),
    {
        let mut i: usize = 0;
        while i < self.entries.len()
            invariant
                i <= self.entries.len(),
                forall|j: int|
                    0 <= j < i ==> (#[trigger] self.deep_view()[j]).path != path.deep_view(),
            decreases self.entries.len() - i,
        {
            if same_path(&self.entries[i].path, path) {
                proof {
                    assert(self.deep_view()[i as int].path == path.deep_view());
                    lemma_entry_position(self.deep_view(), path.deep_view(), i as int);
                }
                return Some(i);
            }
            i += 1;
        }
        None
    }

    /// Whether a directory is at `path`.
    pub fn dir_at(&self, path: &StorePath) -> (res: bool)
        ensures
            res == is_dir(self.deep_view(), path.deep_view()),
    {
        if path.len() == 0 {
            return true;
        }
        match self.find(path) {
            Some(k) => self.entries[k].content.is_none(),
            None => false,
        }
    }

    /// Whether a file is at `path`.
    pub fn file_at(&self, path: &StorePath) -> (res: bool)
        ensures
            res == is_file(self.deep_view(), path.deep_view()),
    {
        if path.len() == 0 {
            return false;
        }
        match self.find(path) {
            Some(k) => self.entries[k].content.is_some(),
            None => false,
        }
    }

    /// Whether a directory is where the entry at `path` is to be held.
    pub fn parent_is_dir(&self, path: &StorePath) -> (res: bool)
        requires
            path.len() > 0,
        ensures
            res == is_dir(self.deep_view(), parent_of(path.deep_view())),
    {
        let parent = path_take(path, path.len() - 1);
        assert(path.deep_view().take(path.len() - 1) =~= parent_of(path.deep_view()));
        self.dir_at(&parent)
    }

    /// Whether some entry lies below `path`.
    pub fn child_below(&self, path: &StorePath) -> (res: bool)
        ensures
            res == has_child(self.deep_view(), path.deep_view()),
    {
        let mut i: usize = 0;
        while i < self.entries.len()
            invariant
                i <= self.entries.len(),
                forall|j: int|
                    0 <= j < i ==> !((#[trigger] self.deep_view()[j]).path.len() > path.len()
                        && has_prefix(self.deep_view()[j].path, path.deep_view())),
            decreases self.entries.len() - i,
        {
            let e = &self.entries[i];
            if e.path.len() > path.len() && path_has_prefix(&e.path, path) {
                proof {
                    let v = self.deep_view()[i as int];
                    assert(v.path.len() > path.len() && has_prefix(v.path, path.deep_view()));
                }
                return true;
            }
            i += 1;
        }
        false
    }

    /// Makes one directory.
    pub fn make_dir(&mut self, path: &StorePath) -> (e: Event)
        ensures
            (final(self).deep_view(), e.deep_view()) == make_dir(
                old(self).deep_view(),
                path.deep_view(),
            ),
    {
        if path.len() == 0 || self.find(path).is_some() || !self.parent_is_dir(path) {
            return Event::Failed;
        }
        self.entries.push(Entry { path: clone_path(path), content: None });
        assert(self.deep_view() =~= old(self).deep_view().push(dir_entry(path.deep_view())));
        Event::Done
    }

    /// Removes one empty directory.
    pub fn remove_dir(&mut self, path: &StorePath) -> (e: Event)
        ensures
            (final(self).deep_view(), e.deep_view()) == remove_dir(
                old(self).deep_view(),
                path.deep_view(),
            ),
    {
        if path.len() == 0 {
            return Event::Failed;
        }
        match self.find(path) {
            None => Event::Missing,
            Some(k) => {
                if self.entries[k].content.is_some() || self.child_below(path) {
                    return Event::Failed;
                }
                self.entries.remove(k);
                assert(self.deep_view() =~= old(self).deep_view().remove(k as int));
                Event::Done
            },
        }
    }

    /// Removes a directory with all that is in it.
    pub fn remove_dir_all(&mut self, path: &StorePath) -> (e: Event)
        ensures
            (final(self).deep_view(), e.deep_view()) == remove_dir_all(
                old(self).deep_view(),
                path.deep_view(),
            ),
    {
        if path.len() == 0 {
            return Event::Failed;
        }
        match self.find(path) {
            None => Event::Missing,
            Some(k) => {
                if self.entries[k].content.is_some() {
                    return Event::Failed;
                }
                let ghost before = self.deep_view();
                let ghost outside = |e: EntryView| !has_prefix(e.path, path.deep_view());
                let mut kept: Vec<Entry> = Vec::new();
                let mut i: usize = 0;
                while i < self.entries.len()
                    invariant
                        i <= self.entries.len(),
                        *self == *old(self),
                        before == self.deep_view(),
                        outside == |e: EntryView| !has_prefix(e.path, path.deep_view()),
                        kept.deep_view() == before.take(i as int).filter(outside),
                    decreases self.entries.len() - i,
                {
                    let keep = !path_has_prefix(&self.entries[i].path, path);
                    let ghost row = before[i as int];
                    proof {
                        assert(before.take(i + 1) =~= before.take(i as int).push(row));
                        before.take(i as int).lemma_filter_push(row, outside);
                    }
                    if keep {
                        let ghost so_far = kept.deep_view();
                        kept.push(self.entries[i].clone());
                        assert(kept.deep_view() =~= so_far.push(row));
                    }
                    i += 1;
                }
                assert(before.take(before.len() as int) =~= before);
                self.entries = kept;
                Event::Done
            },
        }
    }

    /// Moves an entry, with all that lies below it.
    pub fn rename(&mut self, from: &StorePath, to: &StorePath) -> (e: Event)
        ensures
            (final(self).deep_view(), e.deep_view()) == rename(
                old(self).deep_view(),
                from.deep_view(),
                to.deep_view(),
            ),
    {
        if from.len() == 0 || to.len() == 0 || self.find(from).is_none() {
            return Event::Failed;
        }
        if same_path(from, to) {
            return Event::Done;
        }
        if self.find(to).is_some() || !self.parent_is_dir(to) || path_has_prefix(to, from) {
            return Event::Failed;
        }
        let ghost before = self.deep_view();
        let mut moved: Vec<Entry> = Vec::new();
        let mut i: usize = 0;
        while i < self.entries.len()
            invariant
                i <= self.entries.len(),
                *self == *old(self),
                before == self.deep_view(),
                moved.len() == i,
                forall|j: int|
                    0 <= j < i ==> (#[trigger] moved.deep_view()[j]) == moved_entry(
                        before[j],
                        from.deep_view(),
                        to.deep_view(),
                    ),
            decreases self.entries.len() - i,
        {
            let entry = &self.entries[i];
            let ghost so_far = moved.deep_view();
            let mut next = entry.clone();
            if path_has_prefix(&entry.path, from) {
                let mut path = clone_path(to);
                let mut k: usize = from.len();
                while k < entry.path.len()
                    invariant
                        from.len() <= k <= entry.path.len(),
                        path.deep_view() == to.deep_view() + entry.path.deep_view().subrange(
                            from.len() as int,
                            k as int,
                        ),
                    decreases entry.path.len() - k,
                {
                    let ghost head = path.deep_view();
                    path.push(entry.path[k].clone());
                    assert(path.deep_view() =~= to.deep_view() + entry.path.deep_view().subrange(
                        from.len() as int,
                        k + 1,
                    )) by {
                        assert(path.deep_view() =~= head.push(entry.path.deep_view()[k as int]));
                    }
                    k += 1;
                }
                assert(entry.path.deep_view().subrange(
                    from.len() as int,
                    entry.path.len() as int,
                ) =~= entry.path.deep_view().skip(from.len() as int));
                next = Entry { path, content: next.content };
            }
            moved.push(next);
            assert(moved.deep_view() =~= so_far.push(
                moved_entry(before[i as int], from.deep_view(), to.deep_view()),
            ));
            i += 1;
        }
        assert(moved.deep_view() =~= before.map_values(
            |e: EntryView| moved_entry(e, from.deep_view(), to.deep_view()),
        ));
        self.entries = moved;
        Event::Done
    }

    /// Stores a file.
    pub fn write_file(&mut self, path: &StorePath, content: &Vec<u8>) -> (e: Event)
        ensures
            (final(self).deep_view(), e.deep_view()) == write_file(
                old(self).deep_view(),
                path.deep_view(),
                content@,
            ),
    {
        if path.len() == 0 || !self.parent_is_dir(path) {
            return Event::Failed;
        }
        let size = content.len() as u64;
        match self.find(path) {
            Some(k) => {
                if self.entries[k].content.is_none() {
                    return Event::Failed;
                }
                self.entries.set(
                    k,
                    Entry { path: clone_path(path), content: Some(copy_bytes(content)) },
                );
                assert(self.deep_view() =~= old(self).deep_view().update(
                    k as int,
                    file_entry(path.deep_view(), content@),
                ));
                Event::Written(size)
            },
            None => {
                self.entries.push(
                    Entry { path: clone_path(path), content: Some(copy_bytes(content)) },
                );
                assert(self.deep_view() =~= old(self).deep_view().push(
                    file_entry(path.deep_view(), content@),
                ));
                Event::Written(size)
            },
        }
    }

    /// Removes one file.
    pub fn remove_file(&mut self, path: &StorePath) -> (e: Event)
        ensures
            (final(self).deep_view(), e.deep_view()) == remove_file(
                old(self).deep_view(),
                path.deep_view(),
            ),
    {
        match self.find(path) {
            None => Event::Missing,
            Some(k) => {
                if path.len() == 0 || self.entries[k].content.is_none() {
                    return Event::Failed;
                }
                self.entries.remove(k);
                assert(self.deep_view() =~= old(self).deep_view().remove(k as int));
                Event::Done
            },
        }
    }

    /// Makes sure of a directory, and of every directory above it.
    pub fn ensure_dir(&mut self, path: &StorePath) -> (e: Event)
        ensures
            (final(self).deep_view(), e.deep_view()) == ensure_dir(
                old(self).deep_view(),
                path.deep_view(),
            ),
    {
        let mut k: usize = 0;
        while k < path.len()
            invariant
                k <= path.len(),
                *self == *old(self),
                forall|j: int|
                    1 <= j <= k ==> !is_file(self.deep_view(), #[trigger] path.deep_view().take(j)),
            decreases path.len() - k,
        {
            let prefix = path_take(path, k + 1);
            if self.file_at(&prefix) {
                return Event::Failed;
            }
            k += 1;
        }
        let mut k: usize = 0;
        while k < path.len()
            invariant
                k <= path.len(),
                self.deep_view() == with_dirs(old(self).deep_view(), path.deep_view(), k as nat),
            decreases path.len() - k,
        {
            let prefix = path_take(path, k + 1);
            if self.find(&prefix).is_none() {
                let ghost above = self.deep_view();
                self.entries.push(Entry { path: prefix, content: None });
                assert(self.deep_view() =~= above.push(
                    dir_entry(path.deep_view().take(k + 1)),
                ));
            }
            k += 1;
        }
        Event::Done
    }
}

/// Where an entry is at `path`, one of them is the first.
pub proof fn lemma_first_entry(d: Seq<EntryView>, path: Seq<Seq<char>>)
    requires
        has_entry(d, path),
    ensures
        first_entry_at(d, path, entry_position(d, path)),
{
    let k = choose|i: int| 0 <= i < d.len() && (#[trigger] d[i]).path == path;
    lemma_first_entry_below(d, path, k);
}

proof fn lemma_first_entry_below(d: Seq<EntryView>, path: Seq<Seq<char>>, k: int)
    requires
        0 <= k < d.len(),
        d[k].path == path,
    ensures
        exists|i: int| first_entry_at(d, path, i),
    decreases k,
{
    if exists|j: int| 0 <= j < k && (#[trigger] d[j]).path == path {
        let j = choose|j: int| 0 <= j < k && (#[trigger] d[j]).path == path;
        lemma_first_entry_below(d, path, j);
    } else {
        assert(first_entry_at(d, path, k));
    }
}

/// The content of the file at `path`; nothing where no file is there.
pub open spec fn content_at(d: Seq<EntryView>, path: Seq<Seq<char>>) -> Option<Seq<u8>> {
    if has_entry(d, path) {
        d[entry_position(d, path)].content
    } else {
        None
    }
}

/// What was stored is what is there: once a file is stored at `path`, the
/// content at `path` is the content that was stored, whatever was there
/// before.
pub proof fn lemma_stored_content_is_there(
    d: Seq<EntryView>,
    path: Seq<Seq<char>>,
    content: Seq<u8>,
)
    requires
        write_file(d, path, content).1 is Written,
    ensures
        content_at(write_file(d, path, content).0, path) == Some(content),
        is_file(write_file(d, path, content).0, path),
{
    let after = write_file(d, path, content).0;
    if has_entry(d, path) {
        let k = entry_position(d, path);
        lemma_first_entry(d, path);
        assert(first_entry_at(after, path, k)) by {
            assert forall|j: int| 0 <= j < k implies (#[trigger] after[j]).path != path by {
                assert(after[j] == d[j]);
            }
        }
        lemma_entry_position(after, path, k);
    } else {
        let k = d.len() as int;
        assert(first_entry_at(after, path, k)) by {
            assert forall|j: int| 0 <= j < k implies (#[trigger] after[j]).path != path by {
                assert(after[j] == d[j]);
            }
        }
        lemma_entry_position(after, path, k);
    }
}

/// A move loses nothing: once an entry is moved from `from` to `to`, every
/// entry of the disk is still there with the content it had, at the place
/// that the move gives it.
pub proof fn lemma_moved_keeps_content(
    d: Seq<EntryView>,
    from: Seq<Seq<char>>,
    to: Seq<Seq<char>>,
    k: int,
)
    requires
        rename(d, from, to).1 is Done,
        0 <= k < d.len(),
    ensures
        rename(d, from, to).0.len() == d.len(),
        rename(d, from, to).0[k].content == d[k].content,
        rename(d, from, to).0[k].path == moved_path(d[k].path, from, to),
{
    if from == to {
        if has_prefix(d[k].path, from) {
            assert(d[k].path.take(from.len() as int) + d[k].path.skip(from.len() as int)
                =~= d[k].path);
        }
    }
}

} // verus!
