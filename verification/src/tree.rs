//! The folder rows as a tree: what it takes for them to be one, and what
//! resolving a folder gives when they are.
use crate::models::FolderView;
use crate::paths::{
    ancestry, first_at, folder_path, has_folder, lemma_first_unique, lemma_position, lineage,
    names_of, position, ResolveError, UuidPathView,
};
use vstd::prelude::*;

verus! {

/// No two rows have the same identifier.
pub open spec fn ids_distinct(rows: Seq<FolderView>) -> bool {
    forall|i: int, j: int|
        0 <= i < j < rows.len() ==> (#[trigger] rows[i]).id != (#[trigger] rows[j]).id
}

/// Every row that names a parent comes after the row of that parent. Rows
/// in this order hold no cycle.
pub open spec fn parents_first(rows: Seq<FolderView>) -> bool {
    forall|i: int|
        0 <= i < rows.len() && (#[trigger] rows[i]).parent_id is Some ==> has_folder(
            rows.take(i),
            rows[i].parent_id->0,
        )
}

/// No two folders below the same parent have the same name.
pub open spec fn siblings_distinct(rows: Seq<FolderView>) -> bool {
    forall|i: int, j: int|
        0 <= i < j < rows.len() && (#[trigger] rows[i]).parent_id == (#[trigger] rows[j]).parent_id
            ==> rows[i].name != rows[j].name
}

/// The folder rows form a tree.
pub open spec fn is_tree(rows: Seq<FolderView>) -> bool {
    ids_distinct(rows) && parents_first(rows) && siblings_distinct(rows)
}

/// The step that row `i` adds to a path.
pub open spec fn step_of(rows: Seq<FolderView>, i: int) -> UuidPathView {
    UuidPathView { id: rows[i].id, name: rows[i].name }
}

/// The place of the row of the parent of row `i`, which comes before it.
pub open spec fn parent_place(rows: Seq<FolderView>, i: int) -> int {
    position(rows.take(i), rows[i].parent_id->0)
}

/// The steps from the root down to row `i`, read off the rows before it.
pub open spec fn trail(rows: Seq<FolderView>, i: int) -> Seq<UuidPathView>
    decreases i,
{
    if i < 0 || i >= rows.len() {
        Seq::empty()
    } else if rows[i].parent_id is Some && has_folder(rows.take(i), rows[i].parent_id->0) {
        let j = choose|j: int|
            0 <= j < i && (#[trigger] rows.take(i)[j]).id == rows[i].parent_id->0;
        trail(rows, j).push(step_of(rows, i))
    } else {
        seq![step_of(rows, i)]
    }
}

/// In a tree, the row of an identifier is in one place only.
pub proof fn lemma_place_of(rows: Seq<FolderView>, i: int)
    requires
        ids_distinct(rows),
        0 <= i < rows.len(),
    ensures
        has_folder(rows, rows[i].id),
        position(rows, rows[i].id) == i,
{
    assert(first_at(rows, rows[i].id, i));
    lemma_position(rows, rows[i].id);
    lemma_first_unique(rows, rows[i].id, i, position(rows, rows[i].id));
}

/// In a tree, the parent that row `i` names has its row at one place
/// before `i`.
pub proof fn lemma_parent_place(rows: Seq<FolderView>, i: int)
    requires
        ids_distinct(rows),
        parents_first(rows),
        0 <= i < rows.len(),
        rows[i].parent_id is Some,
    ensures
        0 <= parent_place(rows, i) < i,
        rows[parent_place(rows, i)].id == rows[i].parent_id->0,
        position(rows, rows[i].parent_id->0) == parent_place(rows, i),
        has_folder(rows, rows[i].parent_id->0),
        parent_place(rows, i) == (choose|j: int|
            0 <= j < i && (#[trigger] rows.take(i)[j]).id == rows[i].parent_id->0),
{
    let head = rows.take(i);
    let p = rows[i].parent_id->0;
    assert(has_folder(head, p));
    lemma_position(head, p);
    let j = position(head, p);
    assert(head[j] == rows[j]);
    lemma_place_of(rows, j);
    let c = choose|c: int| 0 <= c < i && (#[trigger] head[c]).id == p;
    assert(head[c] == rows[c]);
    if c != j {
        if c < j {
            assert(rows[c].id != rows[j].id);
        } else {
            assert(rows[j].id != rows[c].id);
        }
    }
}

/// The steps down to row `i` end with the step of row `i`, and before it
/// are the steps down to its parent.
pub proof fn lemma_trail_unfolds(rows: Seq<FolderView>, i: int)
    requires
        ids_distinct(rows),
        parents_first(rows),
        0 <= i < rows.len(),
    ensures
        trail(rows, i).len() >= 1,
        trail(rows, i).len() <= i + 1,
        trail(rows, i).last() == step_of(rows, i),
        rows[i].parent_id is None ==> trail(rows, i) == seq![step_of(rows, i)],
        rows[i].parent_id is Some ==> trail(rows, i) == trail(rows, parent_place(rows, i)).push(
            step_of(rows, i),
        ),
    decreases i,
{
    if rows[i].parent_id is Some {
        lemma_parent_place(rows, i);
        lemma_trail_unfolds(rows, parent_place(rows, i));
    }
}

/// In a tree, walking up from row `i` arrives at the root within `i + 1`
/// moves and gives the steps down to row `i`.
pub proof fn lemma_lineage_is_trail(rows: Seq<FolderView>, i: int, fuel: nat)
    requires
        ids_distinct(rows),
        parents_first(rows),
        0 <= i < rows.len(),
        fuel >= i + 1,
    ensures
        lineage(rows, Some(rows[i].id), fuel) == Ok::<Seq<UuidPathView>, ResolveError>(
            trail(rows, i),
        ),
    decreases i,
{
    lemma_place_of(rows, i);
    lemma_trail_unfolds(rows, i);
    if rows[i].parent_id is Some {
        lemma_parent_place(rows, i);
        lemma_lineage_is_trail(rows, parent_place(rows, i), (fuel - 1) as nat);
    }
}

/// In a tree every folder resolves: to the steps down to its row, and so to
/// the names on the way.
pub proof fn lemma_resolves(rows: Seq<FolderView>, i: int)
    requires
        ids_distinct(rows),
        parents_first(rows),
        0 <= i < rows.len(),
    ensures
        ancestry(rows, Some(rows[i].id)) == Ok::<Seq<UuidPathView>, ResolveError>(trail(rows, i)),
        folder_path(rows, Some(rows[i].id)) == Ok::<Seq<Seq<char>>, ResolveError>(
            names_of(trail(rows, i)),
        ),
{
    lemma_place_of(rows, i);
    lemma_lineage_is_trail(rows, i, rows.len());
}

/// The path of row `i`: the names on the way down to it.
pub open spec fn path_of(rows: Seq<FolderView>, i: int) -> Seq<Seq<char>> {
    names_of(trail(rows, i))
}

/// The path of a folder is the path of its parent and then its own name;
/// a folder without a parent has a path of one name.
pub proof fn lemma_path_unfolds(rows: Seq<FolderView>, i: int)
    requires
        ids_distinct(rows),
        parents_first(rows),
        0 <= i < rows.len(),
    ensures
        path_of(rows, i).len() >= 1,
        path_of(rows, i).last() == rows[i].name,
        rows[i].parent_id is None ==> path_of(rows, i) == seq![rows[i].name],
        rows[i].parent_id is Some ==> path_of(rows, i) == path_of(
            rows,
            parent_place(rows, i),
        ).push(rows[i].name),
{
    lemma_trail_unfolds(rows, i);
    if rows[i].parent_id is Some {
        assert(path_of(rows, i) =~= path_of(rows, parent_place(rows, i)).push(rows[i].name));
    } else {
        assert(path_of(rows, i) =~= seq![rows[i].name]);
    }
}

/// The path that a folder identifier, or the root, resolves to in a tree.
pub open spec fn place_of(rows: Seq<FolderView>, folder: Option<u128>) -> Seq<Seq<char>> {
    match folder {
        None => Seq::empty(),
        Some(id) => path_of(rows, position(rows, id)),
    }
}

/// In a tree, the root and every folder that has a row resolve to their
/// place.
pub proof fn lemma_known_resolves(rows: Seq<FolderView>, folder: Option<u128>)
    requires
        ids_distinct(rows),
        parents_first(rows),
        folder is Some ==> has_folder(rows, folder->0),
    ensures
        folder_path(rows, folder) == Ok::<Seq<Seq<char>>, ResolveError>(place_of(rows, folder)),
{
    match folder {
        None => {
            assert(names_of(Seq::<UuidPathView>::empty()) =~= Seq::<Seq<char>>::empty());
        },
        Some(id) => {
            lemma_position(rows, id);
            lemma_resolves(rows, position(rows, id));
        },
    }
}

/// In a tree, two folders with the same path are one folder.
pub proof fn lemma_paths_tell_folders_apart(rows: Seq<FolderView>, i: int, j: int)
    requires
        is_tree(rows),
        0 <= i < rows.len(),
        0 <= j < rows.len(),
        path_of(rows, i) == path_of(rows, j),
    ensures
        i == j,
    decreases i,
{
    lemma_path_unfolds(rows, i);
    lemma_path_unfolds(rows, j);
    let a = path_of(rows, i);
    let b = path_of(rows, j);
    assert(rows[i].name == rows[j].name);
    if rows[i].parent_id is Some {
        let pi = parent_place(rows, i);
        lemma_parent_place(rows, i);
        lemma_path_unfolds(rows, pi);
        if rows[j].parent_id is Some {
            let pj = parent_place(rows, j);
            lemma_parent_place(rows, j);
            assert(path_of(rows, pi) =~= a.drop_last());
            assert(path_of(rows, pj) =~= b.drop_last());
            lemma_paths_tell_folders_apart(rows, pi, pj);
            assert(rows[i].parent_id == rows[j].parent_id);
        } else {
            assert(a.len() >= 2);
            assert(b.len() == 1);
        }
    } else {
        if rows[j].parent_id is Some {
            let pj = parent_place(rows, j);
            lemma_parent_place(rows, j);
            lemma_path_unfolds(rows, pj);
            assert(b.len() >= 2);
            assert(a.len() == 1);
        }
    }
    if i < j {
        assert(rows[i].name != rows[j].name);
    }
    if j < i {
        assert(rows[j].name != rows[i].name);
    }
}

/// Putting a row last changes nothing for the rows before it: their steps
/// are what they were.
pub proof fn lemma_trail_after_push(rows: Seq<FolderView>, row: FolderView, i: int)
    requires
        0 <= i < rows.len(),
    ensures
        trail(rows.push(row), i) == trail(rows, i),
    decreases i,
{
    let more = rows.push(row);
    assert(more.take(i) =~= rows.take(i));
    assert(more[i] == rows[i]);
    if rows[i].parent_id is Some && has_folder(rows.take(i), rows[i].parent_id->0) {
        let j = choose|j: int|
            0 <= j < i && (#[trigger] rows.take(i)[j]).id == rows[i].parent_id->0;
        lemma_trail_after_push(rows, row, j);
    }
}

/// A tree stays a tree when a folder is put into it: under a parent that
/// is there, or under the root, with a name that no sibling has and an
/// identifier that no row has.
pub proof fn lemma_tree_grows(rows: Seq<FolderView>, row: FolderView)
    requires
        is_tree(rows),
        !has_folder(rows, row.id),
        row.parent_id is Some ==> has_folder(rows, row.parent_id->0),
        !crate::tables::folder_name_taken(rows, row.parent_id, row.name),
    ensures
        is_tree(rows.push(row)),
        forall|i: int| 0 <= i < rows.len() ==> path_of(rows.push(row), i) == path_of(rows, i),
        path_of(rows.push(row), rows.len() as int) == place_of(rows, row.parent_id).push(row.name),
        folder_path(rows.push(row), Some(row.id)) == Ok::<Seq<Seq<char>>, ResolveError>(
            place_of(rows, row.parent_id).push(row.name),
        ),
{
    let more = rows.push(row);
    let n = rows.len() as int;
    assert forall|i: int, j: int| 0 <= i < j < more.len() implies (#[trigger] more[i]).id != (
    #[trigger] more[j]).id by {
        if j < n {
            assert(rows[i].id != rows[j].id);
        } else {
            assert(rows[i].id != row.id);
        }
    }
    assert forall|i: int|
        0 <= i < more.len() && (#[trigger] more[i]).parent_id is Some implies has_folder(
        more.take(i),
        more[i].parent_id->0,
    ) by {
        if i < n {
            assert(more.take(i) =~= rows.take(i));
            assert(rows[i].parent_id is Some);
        } else {
            assert(more.take(i) =~= rows);
        }
    }
    assert forall|i: int, j: int|
        0 <= i < j < more.len() && (#[trigger] more[i]).parent_id == (
        #[trigger] more[j]).parent_id implies more[i].name != more[j].name by {
        if j < n {
            assert(rows[i].name != rows[j].name);
        } else {
            assert(rows[i].parent_id == row.parent_id);
        }
    }
    assert forall|i: int| 0 <= i < rows.len() implies path_of(more, i) == path_of(rows, i) by {
        lemma_trail_after_push(rows, row, i);
    }
    lemma_path_unfolds(more, n);
    lemma_place_of(more, n);
    lemma_resolves(more, n);
    if row.parent_id is Some {
        lemma_parent_place(more, n);
        let j = parent_place(more, n);
        lemma_trail_after_push(rows, row, j);
        assert(rows[j].id == row.parent_id->0);
        lemma_place_of(rows, j);
    } else {
        assert(seq![row.name] =~= Seq::<Seq<char>>::empty().push(row.name));
    }
}

/// The steps down to a folder begin with the steps down to each folder on
/// the way: the first `m` steps down to row `i` are the steps down to the
/// row of the `m`-th of them.
pub proof fn lemma_trail_prefix(rows: Seq<FolderView>, i: int, m: int) -> (j: int)
    requires
        ids_distinct(rows),
        parents_first(rows),
        0 <= i < rows.len(),
        1 <= m <= trail(rows, i).len(),
    ensures
        0 <= j <= i,
        rows[j].id == trail(rows, i)[m - 1].id,
        trail(rows, j) == trail(rows, i).take(m),
        path_of(rows, j) == path_of(rows, i).take(m),
    decreases i,
{
    lemma_trail_unfolds(rows, i);
    let whole = trail(rows, i);
    if m == whole.len() {
        assert(whole.take(m) =~= whole);
        assert(path_of(rows, i).take(m) =~= path_of(rows, i));
        i
    } else {
        lemma_parent_place(rows, i);
        let up = parent_place(rows, i);
        let j = lemma_trail_prefix(rows, up, m);
        assert(whole.take(m) =~= trail(rows, up).take(m));
        assert(path_of(rows, i).take(m) =~= path_of(rows, up).take(m));
        j
    }
}

/// Whether row `x` is row `root`, or lies below it.
pub open spec fn below(rows: Seq<FolderView>, root: int, x: int) -> bool {
    exists|m: int|
        0 <= m < trail(rows, x).len() && (#[trigger] trail(rows, x)[m]).id == rows[root].id
}

/// In a tree, a folder is a given folder or lies below it exactly if its
/// path begins with the path of that folder.
pub proof fn lemma_below_is_prefix(rows: Seq<FolderView>, root: int, x: int)
    requires
        is_tree(rows),
        0 <= root < rows.len(),
        0 <= x < rows.len(),
    ensures
        below(rows, root, x) <==> crate::disk::has_prefix(path_of(rows, x), path_of(rows, root)),
{
    let whole = trail(rows, x);
    lemma_trail_unfolds(rows, x);
    lemma_trail_unfolds(rows, root);
    if below(rows, root, x) {
        let m = choose|m: int| 0 <= m < whole.len() && (#[trigger] whole[m]).id == rows[root].id;
        let j = lemma_trail_prefix(rows, x, m + 1);
        if j != root {
            if j < root {
                assert(rows[j].id != rows[root].id);
            } else {
                assert(rows[root].id != rows[j].id);
            }
        }
        assert(path_of(rows, root) == path_of(rows, x).take(m + 1));
    }
    if crate::disk::has_prefix(path_of(rows, x), path_of(rows, root)) {
        let m = path_of(rows, root).len() as int;
        let j = lemma_trail_prefix(rows, x, m);
        lemma_paths_tell_folders_apart(rows, j, root);
        assert(whole[m - 1].id == rows[root].id);
    }
}

/// In a tree, a folder lies below another exactly if its parent does or
/// is that other folder.
pub proof fn lemma_below_unfolds(rows: Seq<FolderView>, root: int, x: int)
    requires
        is_tree(rows),
        0 <= root < rows.len(),
        0 <= x < rows.len(),
    ensures
        below(rows, root, x) <==> x == root || (rows[x].parent_id is Some && below(
            rows,
            root,
            parent_place(rows, x),
        )),
{
    lemma_trail_unfolds(rows, x);
    let whole = trail(rows, x);
    if rows[x].parent_id is Some {
        lemma_parent_place(rows, x);
        let up = parent_place(rows, x);
        let head = trail(rows, up);
        if below(rows, root, x) && x != root {
            let m = choose|m: int|
                0 <= m < whole.len() && (#[trigger] whole[m]).id == rows[root].id;
            if m == whole.len() - 1 {
                if x < root {
                    assert(rows[x].id != rows[root].id);
                } else {
                    assert(rows[root].id != rows[x].id);
                }
            }
            assert(head[m] == whole[m]);
        }
        if below(rows, root, up) {
            let m = choose|m: int| 0 <= m < head.len() && (#[trigger] head[m]).id == rows[root].id;
            assert(whole[m] == head[m]);
        }
    } else {
        if below(rows, root, x) && x != root {
            let m = choose|m: int|
                0 <= m < whole.len() && (#[trigger] whole[m]).id == rows[root].id;
            if x < root {
                assert(rows[x].id != rows[root].id);
            } else {
                assert(rows[root].id != rows[x].id);
            }
        }
    }
    if x == root {
        assert(whole[whole.len() - 1].id == rows[root].id);
    }
}

/// In a tree, the place of the root or of a folder that is there tells
/// which it is.
pub proof fn lemma_places_tell_folders_apart(
    rows: Seq<FolderView>,
    a: Option<u128>,
    b: Option<u128>,
)
    requires
        is_tree(rows),
        a is Some ==> has_folder(rows, a->0),
        b is Some ==> has_folder(rows, b->0),
        place_of(rows, a) == place_of(rows, b),
    ensures
        a == b,
{
    if a is Some {
        lemma_position(rows, a->0);
        lemma_path_unfolds(rows, position(rows, a->0));
    }
    if b is Some {
        lemma_position(rows, b->0);
        lemma_path_unfolds(rows, position(rows, b->0));
    }
    if a is Some && b is Some {
        lemma_paths_tell_folders_apart(rows, position(rows, a->0), position(rows, b->0));
    }
}

/// In a tree, every path on the way down to a folder's place is the place
/// of a folder: the first `m` names of the place of the root or of a folder
/// are the path of some row, for every `m` from one up to all.
pub proof fn lemma_place_prefix(rows: Seq<FolderView>, folder: Option<u128>, m: int) -> (j: int)
    requires
        is_tree(rows),
        folder is Some ==> has_folder(rows, folder->0),
        1 <= m <= place_of(rows, folder).len(),
    ensures
        0 <= j < rows.len(),
        path_of(rows, j) == place_of(rows, folder).take(m),
{
    lemma_position(rows, folder->0);
    let i = position(rows, folder->0);
    lemma_trail_prefix(rows, i, m)
}

} // verus!
