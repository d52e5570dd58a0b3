//! What a move on disk does to a disk that mirrors sound rows.
use crate::disk::{
    entry_position, first_entry_at, has_entry, has_prefix, is_dir, lemma_entry_position,
    lemma_first_entry, moved_entry, moved_path, parent_of, rename, EntryView,
};
use crate::mirror::{lemma_kinds_of_entry, lemma_nothing_below, mirrors, paths_distinct, rows_sound};
use crate::tables::TablesView;
use crate::saga::EventView;
use vstd::prelude::*;

verus! {

/// Nothing on disk is at or below `path`.
pub open spec fn clear_of(d: Seq<EntryView>, path: Seq<Seq<char>>) -> bool {
    forall|m: int| 0 <= m < d.len() ==> !has_prefix((#[trigger] d[m]).path, path)
}

/// Two paths of the same directory: as long as each other, and the same
/// but for the last name.
pub open spec fn side_by_side(a: Seq<Seq<char>>, b: Seq<Seq<char>>) -> bool {
    a.len() == b.len() && a.len() > 0 && parent_of(a) == parent_of(b)
}

/// What is moved from one place to another is at or below the other, and
/// moving it back brings it to where it was.
pub proof fn lemma_there_and_back(p: Seq<Seq<char>>, from: Seq<Seq<char>>, to: Seq<Seq<char>>)
    requires
        has_prefix(p, from),
    ensures
        has_prefix(moved_path(p, from, to), to),
        moved_path(moved_path(p, from, to), to, from) == p,
        moved_path(p, from, to).len() == p.len() - from.len() + to.len(),
{
    let there = moved_path(p, from, to);
    assert(there.take(to.len() as int) =~= to);
    assert(there.skip(to.len() as int) =~= p.skip(from.len() as int));
    assert(from + p.skip(from.len() as int) =~= p) by {
        assert(p.take(from.len() as int) =~= from);
    }
}

/// A move to a place that is clear keeps the paths of the disk apart.
pub proof fn lemma_moved_stay_apart(
    d: Seq<EntryView>,
    from: Seq<Seq<char>>,
    to: Seq<Seq<char>>,
    k: int,
    l: int,
)
    requires
        paths_distinct(d),
        clear_of(d, to),
        0 <= k < l < d.len(),
    ensures
        moved_path(d[k].path, from, to) != moved_path(d[l].path, from, to),
{
    let a = d[k].path;
    let b = d[l].path;
    assert(a != b);
    if has_prefix(a, from) {
        lemma_there_and_back(a, from, to);
    }
    if has_prefix(b, from) {
        lemma_there_and_back(b, from, to);
    }
    if has_prefix(a, from) && has_prefix(b, from) {
        if moved_path(a, from, to) == moved_path(b, from, to) {
            assert(moved_path(moved_path(a, from, to), to, from) == moved_path(
                moved_path(b, from, to),
                to,
                from,
            ));
        }
    }
}

/// A move can be undone: where an entry was moved to a place side by side
/// with its own that was clear, moving it back succeeds and gives the disk
/// as it was.
pub proof fn lemma_move_undone(d: Seq<EntryView>, from: Seq<Seq<char>>, to: Seq<Seq<char>>)
    requires
        paths_distinct(d),
        side_by_side(from, to),
        from != to,
        clear_of(d, to),
        rename(d, from, to).1 is Done,
    ensures
        rename(rename(d, from, to).0, to, from) == (d, EventView::Done),
{
    let there = rename(d, from, to).0;
    assert(there == d.map_values(|e: EntryView| moved_entry(e, from, to)));
    assert(there.len() == d.len());
    assert forall|m: int| 0 <= m < d.len() implies (#[trigger] there[m]) == moved_entry(
        d[m],
        from,
        to,
    ) by {}
    // the moved entry is at `to`
    lemma_first_entry(d, from);
    let at = entry_position(d, from);
    assert(from.take(from.len() as int) =~= from);
    assert(has_prefix(d[at].path, from));
    lemma_there_and_back(from, from, to);
    assert(from.skip(from.len() as int) =~= Seq::<Seq<char>>::empty());
    assert(there[at].path =~= to);
    assert(has_entry(there, to));
    // nothing is left at `from`
    assert(!has_entry(there, from)) by {
        if has_entry(there, from) {
            let m = choose|m: int| 0 <= m < there.len() && (#[trigger] there[m]).path == from;
            if has_prefix(d[m].path, from) {
                lemma_there_and_back(d[m].path, from, to);
                assert(from.take(to.len() as int) =~= from);
            } else {
                assert(d[m].path.take(from.len() as int) =~= d[m].path);
            }
        }
    }
    // the directory that holds both is still there
    let above = parent_of(from);
    assert(is_dir(there, above)) by {
        if above.len() > 0 {
            lemma_first_entry(d, above);
            let up = entry_position(d, above);
            assert(!has_prefix(d[up].path, from));
            assert(there[up] == d[up]);
            assert(first_entry_at(there, above, up)) by {
                assert forall|j: int| 0 <= j < up implies (#[trigger] there[j]).path != above by {
                    if has_prefix(d[j].path, from) {
                        lemma_there_and_back(d[j].path, from, to);
                    } else {
                        assert(d[j].path != above);
                    }
                }
            }
            lemma_entry_position(there, above, up);
        }
    }
    assert(!has_prefix(from, to)) by {
        if has_prefix(from, to) {
            assert(from.take(to.len() as int) =~= from);
        }
    }
    let back = there.map_values(|e: EntryView| moved_entry(e, to, from));
    assert(rename(there, to, from) == (back, EventView::Done));
    assert(back =~= d) by {
        assert forall|m: int| 0 <= m < d.len() implies back[m] == d[m] by {
            assert(back[m] == moved_entry(there[m], to, from));
            if has_prefix(d[m].path, from) {
                lemma_there_and_back(d[m].path, from, to);
            } else {
                assert(!has_prefix(d[m].path, to));
            }
        }
    }
}

/// Where the disk mirrors sound rows, a place where nothing is, is clear:
/// nothing is below it either.
pub proof fn lemma_free_place_is_clear(t: TablesView, d: Seq<EntryView>, path: Seq<Seq<char>>)
    requires
        rows_sound(t),
        mirrors(t, d),
        path.len() > 0,
        !has_entry(d, path),
    ensures
        clear_of(d, path),
{
    lemma_kinds_of_entry(d, path);
    assert forall|m: int| 0 <= m < d.len() implies !has_prefix((#[trigger] d[m]).path, path) by {
        lemma_nothing_below(t, d, path, m);
        if d[m].path.len() == path.len() && has_prefix(d[m].path, path) {
            assert(d[m].path.take(path.len() as int) =~= d[m].path);
        }
    }
}

/// Where the disk mirrors sound rows, a move that has succeeded can be
/// undone: moving back what was moved to a place side by side with its own
/// succeeds and gives the disk as it was.
pub proof fn lemma_undo_restores(
    t: TablesView,
    d: Seq<EntryView>,
    from: Seq<Seq<char>>,
    to: Seq<Seq<char>>,
)
    requires
        rows_sound(t),
        mirrors(t, d),
        side_by_side(from, to),
        rename(d, from, to).1 is Done,
    ensures
        rename(rename(d, from, to).0, to, from) == (d, EventView::Done),
{
    if from != to {
        lemma_free_place_is_clear(t, d, to);
        lemma_move_undone(d, from, to);
    }
}

} // verus!
