//! The path resolver: from a folder's identifier to its place in the tree.
//!
//! A folder's path is found by walking parent links up to the root and
//! reading the names off from the root down. The walk is bounded: after as
//! many steps as there are rows it has met some row twice, and reports a
//! cycle instead of running on.
use crate::models::{Folder, FolderView, StorePath};
use vstd::prelude::*;

verus! {

/// Why a folder's path could not be resolved.
#[derive(Debug, Clone, Copy, PartialEq, Eq, Structural)]
pub enum ResolveError {
    /// No row has the identifier that was asked for.
    NotFound,
    /// A row on the way up names a parent that has no row.
    Dangling,
    /// The parent links run in a circle.
    Cycle,
}

/// One step of a path: a folder's identifier and its name.
#[derive(Debug)]
pub struct UuidPath {
    pub id: u128,
    pub name: String,
}

/// The mathematical value of a [`UuidPath`].
pub struct UuidPathView {
    pub id: u128,
    pub name: Seq<char>,
}

impl DeepView for UuidPath {
    type V = UuidPathView;

    open spec fn deep_view(&self) -> UuidPathView {
        UuidPathView { id: self.id, name: self.name@ }
    }
}

/// `i` is the place of the first row with identifier `id`.
pub open spec fn first_at(rows: Seq<FolderView>, id: u128, i: int) -> bool {
    &&& 0 <= i < rows.len()
    &&& rows[i].id == id
    &&& forall|j: int| 0 <= j < i ==> (#[trigger] rows[j]).id != id
}

/// Some row has identifier `id`.
pub open spec fn has_folder(rows: Seq<FolderView>, id: u128) -> bool {
    exists|i: int| 0 <= i < rows.len() && (#[trigger] rows[i]).id == id
}

/// The place of the first row with identifier `id`; arbitrary where there
/// is none.
pub open spec fn position(rows: Seq<FolderView>, id: u128) -> int {
    choose|i: int| first_at(rows, id, i)
}

/// Where a row has identifier `id`, `position` is the place of the first
/// such row.
pub proof fn lemma_position(rows: Seq<FolderView>, id: u128)
    requires
        has_folder(rows, id),
    ensures
        first_at(rows, id, position(rows, id)),
{
    let k = choose|i: int| 0 <= i < rows.len() && (#[trigger] rows[i]).id == id;
    lemma_first_below(rows, id, k);
}

proof fn lemma_first_below(rows: Seq<FolderView>, id: u128, k: int)
    requires
        0 <= k < rows.len(),
        rows[k].id == id,
    ensures
        exists|i: int| first_at(rows, id, i),
    decreases k,
{
    if exists|j: int| 0 <= j < k && (#[trigger] rows[j]).id == id {
        let j = choose|j: int| 0 <= j < k && (#[trigger] rows[j]).id == id;
        lemma_first_below(rows, id, j);
    } else {
        assert(first_at(rows, id, k));
    }
}

/// The first row with a given identifier is one row only.
pub proof fn lemma_first_unique(rows: Seq<FolderView>, id: u128, i: int, j: int)
    requires
        first_at(rows, id, i),
        first_at(rows, id, j),
    ensures
        i == j,
{
    if i < j {
        assert(rows[i].id != id);
    }
    if j < i {
        assert(rows[j].id != id);
    }
}

/// The steps from the root down to `id`, found in at most `fuel` moves up
/// the parent links. No identifier stands for the root, whose path is
/// empty.
pub open spec fn lineage(rows: Seq<FolderView>, id: Option<u128>, fuel: nat) -> Result<
    Seq<UuidPathView>,
    ResolveError,
>
    decreases fuel,
{
    match id {
        None => Ok(Seq::empty()),
        Some(i) => {
            if !has_folder(rows, i) {
                Err(ResolveError::Dangling)
            } else if fuel == 0 {
                Err(ResolveError::Cycle)
            } else {
                let row = rows[position(rows, i)];
                match lineage(rows, row.parent_id, (fuel - 1) as nat) {
                    Ok(up) => Ok(up.push(UuidPathView { id: i, name: row.name })),
                    Err(e) => Err(e),
                }
            }
        },
    }
}

/// The steps from the root down to `id`: the resolver's answer.
///
/// An identifier without a row is not found. A walk that would take more
/// moves than there are rows has run into a cycle.
pub open spec fn ancestry(rows: Seq<FolderView>, id: Option<u128>) -> Result<
    Seq<UuidPathView>,
    ResolveError,
> {
    match id {
        Some(i) if !has_folder(rows, i) => Err(ResolveError::NotFound),
        _ => lineage(rows, id, rows.len()),
    }
}

/// The names of the steps of a path.
pub open spec fn names_of(steps: Seq<UuidPathView>) -> Seq<Seq<char>> {
    Seq::new(steps.len(), |i: int| steps[i].name)
}

/// The path of folder `id`: the names from the root down to it.
pub open spec fn folder_path(rows: Seq<FolderView>, id: Option<u128>) -> Result<
    Seq<Seq<char>>,
    ResolveError,
> {
    match ancestry(rows, id) {
        Ok(steps) => Ok(names_of(steps)),
        Err(e) => Err(e),
    }
}

/// The place of the first row with identifier `id`, if there is one.
pub fn find_folder(rows: &Vec<Folder>, id: u128) -> (res: Option<usize>)
    ensures
        res is Some <==> has_folder(rows.deep_view(), id),
        res is Some ==> res->0 == position(rows.deep_view(), id) && first_at(
            rows.deep_view(),
            id,
            res->0 as int,
        ),
{
    let mut i: usize = 0;
    while i < rows.len()
        invariant
            i <= rows.len(),
            forall|j: int| 0 <= j < i ==> (#[trigger] rows.deep_view()[j]).id != id,
        decreases rows.len() - i,
    {
        if rows[i].id == id {
            proof {
                assert(rows.deep_view()[i as int].id == id);
                assert(first_at(rows.deep_view(), id, i as int));
                lemma_position(rows.deep_view(), id);
                lemma_first_unique(rows.deep_view(), id, i as int, position(rows.deep_view(), id));
            }
            return Some(i);
        }
        i += 1;
    }
    None
}

/// Resolves folder `id` to the steps from the root down to it.
///
/// `rows` are the folder rows that the caller's transaction sees; they must
/// hold the folder and its ancestors. No identifier stands for the root and
/// resolves to the empty path.
pub fn get_ancestry(rows: &Vec<Folder>, id: Option<u128>) -> (res: Result<
    Vec<UuidPath>,
    ResolveError,
>)
    ensures
        match res {
            Ok(steps) => ancestry(rows.deep_view(), id) == Ok::<Seq<UuidPathView>, ResolveError>(
                steps.deep_view(),
            ),
            Err(e) => ancestry(rows.deep_view(), id) == Err::<Seq<UuidPathView>, ResolveError>(e),
        },
{
    let ghost table = rows.deep_view();
    let mut steps: Vec<UuidPath> = Vec::new();
    let mut cur = id;
    let mut moves: usize = 0;
    if let Some(i) = id {
        if find_folder(rows, i).is_none() {
            return Err(ResolveError::NotFound);
        }
    }
    loop
        invariant
            table == rows.deep_view(),
            moves <= rows.len(),
            ancestry(table, id) == lineage(table, id, rows.len() as nat),
            lineage(table, id, rows.len() as nat) == (match lineage(
                table,
                cur,
                (rows.len() - moves) as nat,
            ) {
                Ok(up) => Ok(up + steps.deep_view()),
                Err(e) => Err(e),
            }),
        decreases rows.len() - moves,
    {
        match cur {
            None => {
                proof {
                    assert(Seq::<UuidPathView>::empty() + steps.deep_view() =~= steps.deep_view());
                }
                return Ok(steps);
            },
            Some(i) => {
                match find_folder(rows, i) {
                    None => {
                        return Err(ResolveError::Dangling);
                    },
                    Some(k) => {
                        if moves == rows.len() {
                            return Err(ResolveError::Cycle);
                        }
                        let row = &rows[k];
                        let ghost before = steps.deep_view();
                        steps.insert(0, UuidPath { id: i, name: row.name.clone() });
                        proof {
                            let step = UuidPathView { id: i, name: table[k as int].name };
                            assert(steps.deep_view() =~= seq![step] + before);
                            match lineage(
                                table,
                                table[k as int].parent_id,
                                (rows.len() - moves - 1) as nat,
                            ) {
                                Ok(up) => {
                                    assert(up.push(step) + before =~= up + (seq![step] + before));
                                },
                                Err(_) => {},
                            }
                        }
                        cur = row.parent_id;
                        moves += 1;
                    },
                }
            },
        }
    }
}

/// Resolves folder `id` to its path: the names from the root down to it.
///
/// `rows` are the folder rows that the caller's transaction sees. No
/// identifier stands for the root and resolves to the empty path. An
/// identifier without a row is reported as not found, a parent link into
/// nothing as dangling, and a walk longer than the table as a cycle.
pub fn get_folder_path(rows: &Vec<Folder>, id: Option<u128>) -> (res: Result<
    StorePath,
    ResolveError,
>)
    ensures
        match res {
            Ok(path) => folder_path(rows.deep_view(), id) == Ok::<Seq<Seq<char>>, ResolveError>(
                path.deep_view(),
            ),
            Err(e) => folder_path(rows.deep_view(), id) == Err::<Seq<Seq<char>>, ResolveError>(e),
        },
{
    match get_ancestry(rows, id) {
        Ok(steps) => {
            let mut path: Vec<String> = Vec::new();
            let mut i: usize = 0;
            while i < steps.len()
                invariant
                    i <= steps.len(),
                    path.len() == i,
                    forall|k: int| 0 <= k < i ==> path[k]@ == steps[k].name@,
                decreases steps.len() - i,
            {
                path.push(steps[i].name.clone());
                i += 1;
            }
            assert(path.deep_view() =~= names_of(steps.deep_view()));
            Ok(path)
        },
        Err(e) => Err(e),
    }
}

/// The character that separates the names of a path when it is written
/// out.
pub const SEPARATOR: char = '/';

/// A path written out: its names, from the root down, with a separator
/// between each two. The root's path is written as the empty text.
pub open spec fn joined(path: Seq<Seq<char>>) -> Seq<char>
    decreases path.len(),
{
    if path.len() == 0 {
        Seq::empty()
    } else if path.len() == 1 {
        path[0]
    } else {
        joined(path.drop_last()) + seq![SEPARATOR] + path.last()
    }
}

/// Writes a path out.
pub fn join_path(path: &StorePath) -> (res: String)
    ensures
        res@ == joined(path.deep_view()),
{
    let mut out = String::new();
    let mut i: usize = 0;
    while i < path.len()
        invariant
            i <= path.len(),
            out@ == joined(path.deep_view().take(i as int)),
        decreases path.len() - i,
    {
        let ghost head = path.deep_view().take(i as int);
        let ghost next = path.deep_view().take(i + 1);
        proof {
            assert(next.drop_last() =~= head);
            assert(next.last() == path[i as int]@);
        }
        if i > 0 {
            out.append("/");
            proof {
                reveal_strlit("/");
                assert("/"@ =~= seq![SEPARATOR]);
            }
        }
        out.append(path[i].as_str());
        proof {
            if i == 0 {
                assert(out@ =~= path[i as int]@);
            }
        }
        i += 1;
    }
    assert(path.deep_view().take(path.len() as int) =~= path.deep_view());
    out
}

/// `i` is the place of the last separator in `text`.
pub open spec fn last_separator_at(text: Seq<char>, i: int) -> bool {
    &&& 0 <= i < text.len()
    &&& text[i] == SEPARATOR
    &&& forall|j: int| i < j < text.len() ==> text[j] != SEPARATOR
}

/// Some separator is in `text`.
pub open spec fn has_separator(text: Seq<char>) -> bool {
    exists|i: int| 0 <= i < text.len() && text[i] == SEPARATOR
}

/// A written path without its last name: all that stands before the last
/// separator, or nothing where there is no separator.
pub open spec fn without_last(text: Seq<char>) -> Seq<char> {
    if exists|i: int| last_separator_at(text, i) {
        text.take(choose|i: int| last_separator_at(text, i))
    } else {
        Seq::empty()
    }
}

/// The last separator of a text is in one place only.
pub proof fn lemma_last_separator_unique(text: Seq<char>, i: int, j: int)
    requires
        last_separator_at(text, i),
        last_separator_at(text, j),
    ensures
        i == j,
{
}

/// Takes the last name off a written path: `a/b/c` becomes `a/b`, and a
/// single name becomes the empty text, which is the root.
pub fn remove_last_path(s: &str) -> (res: String)
    ensures
        res@ == without_last(s@),
{
    let total = s.unicode_len();
    let mut last: Option<usize> = None;
    let mut n: usize = 0;
    for c in it: s.chars()
        invariant
            it.seq() == s@,
            n == it.index(),
            n <= total,
            total == s@.len(),
            match last {
                Some(i) => i < n && s@[i as int] == SEPARATOR && forall|j: int|
                    i < j < n ==> s@[j] != SEPARATOR,
                None => forall|j: int| 0 <= j < n ==> s@[j] != SEPARATOR,
            },
    {
        if c == '/' {
            last = Some(n);
        }
        n = n + 1;
    }
    match last {
        Some(i) => {
            proof {
                assert(last_separator_at(s@, i as int));
                let k = choose|k: int| last_separator_at(s@, k);
                lemma_last_separator_unique(s@, i as int, k);
                assert(s@.subrange(0, i as int) =~= s@.take(i as int));
            }
            String::from_str(s.substring_char(0, i))
        },
        None => {
            proof {
                assert forall|k: int| !last_separator_at(s@, k) by {}
            }
            String::new()
        },
    }
}

/// Taking the last name off a written path gives the written path of the
/// directory above, as long as no name holds a separator.
pub proof fn lemma_remove_last_is_parent(path: Seq<Seq<char>>)
    requires
        path.len() > 0,
        forall|k: int| 0 <= k < path.len() ==> !has_separator(#[trigger] path[k]),
    ensures
        without_last(joined(path)) == joined(path.drop_last()),
{
    let text = joined(path);
    let above = joined(path.drop_last());
    let name = path.last();
    if path.len() == 1 {
        assert(text == name);
        assert(path.drop_last() =~= Seq::<Seq<char>>::empty());
        assert forall|i: int| !last_separator_at(text, i) by {
            if last_separator_at(text, i) {
                assert(has_separator(name));
            }
        }
    } else {
        assert(text == above + seq![SEPARATOR] + name);
        let i = above.len() as int;
        assert(text[i] == SEPARATOR);
        assert forall|j: int| i < j < text.len() implies text[j] != SEPARATOR by {
            assert(text[j] == name[j - i - 1]);
            if text[j] == SEPARATOR {
                assert(has_separator(name));
            }
        }
        assert(last_separator_at(text, i));
        let k = choose|k: int| last_separator_at(text, k);
        lemma_last_separator_unique(text, i, k);
        assert(text.take(i) =~= above);
    }
}

} // verus!
