//! What is left of a sequence when some of its elements are taken out.
use vstd::prelude::*;

verus! {

/// `places` tells where in `whole` the elements of `part` come from: one
/// place for each, in rising order, so that `part` is `whole` with the
/// elements at all other places left out.
pub open spec fn picks<A>(whole: Seq<A>, part: Seq<A>, places: Seq<int>) -> bool {
    &&& places.len() == part.len()
    &&& forall|a: int| 0 <= a < places.len() ==> 0 <= #[trigger] places[a] < whole.len()
    &&& forall|a: int| 0 <= a < places.len() ==> part[a] == whole[#[trigger] places[a]]
    &&& forall|a: int, b: int|
        0 <= a < b < places.len() ==> #[trigger] places[a] < #[trigger] places[b]
}

/// The elements that a filter keeps are the elements that pass it, in the
/// order in which they stood: there are places, in rising order, such that
/// the kept sequence holds exactly the elements at those places, and those
/// are all the places whose element passes.
pub proof fn lemma_filter_picks<A>(whole: Seq<A>, pred: spec_fn(A) -> bool) -> (places: Seq<int>)
    ensures
        picks(whole, whole.filter(pred), places),
        forall|a: int| 0 <= a < places.len() ==> pred(whole[#[trigger] places[a]]),
        forall|i: int|
            0 <= i < whole.len() && pred(#[trigger] whole[i]) ==> exists|a: int|
                0 <= a < places.len() && #[trigger] places[a] == i,
    decreases whole.len(),
{
    reveal(Seq::filter);
    if whole.len() == 0 {
        Seq::empty()
    } else {
        let head = whole.drop_last();
        let last = whole.len() - 1;
        let before = lemma_filter_picks(head, pred);
        let places = if pred(whole.last()) {
            before.push(last)
        } else {
            before
        };
        let part = whole.filter(pred);
        assert forall|a: int| 0 <= a < places.len() implies 0 <= #[trigger] places[a] < whole.len()
            && part[a] == whole[places[a]] && pred(whole[places[a]]) by {
            if a < before.len() {
                assert(places[a] == before[a]);
                assert(head[before[a]] == whole[before[a]]);
            }
        }
        assert forall|a: int, b: int| 0 <= a < b < places.len() implies #[trigger] places[a]
            < #[trigger] places[b] by {
            if b < before.len() {
                assert(before[a] < before[b]);
            } else {
                assert(places[a] == before[a]);
            }
        }
        assert forall|i: int| 0 <= i < whole.len() && pred(#[trigger] whole[i]) implies exists|
            a: int,
        |
            0 <= a < places.len() && #[trigger] places[a] == i by {
            if i < last {
                assert(head[i] == whole[i]);
                let a = choose|a: int| 0 <= a < before.len() && #[trigger] before[a] == i;
                assert(places[a] == i);
            } else {
                assert(places[places.len() - 1] == i);
            }
        }
        places
    }
}

/// A filter that every element passes keeps them all.
pub proof fn lemma_filter_keeps_all<A>(whole: Seq<A>, pred: spec_fn(A) -> bool)
    requires
        forall|i: int| 0 <= i < whole.len() ==> pred(#[trigger] whole[i]),
    ensures
        whole.filter(pred) == whole,
    decreases whole.len(),
{
    reveal(Seq::filter);
    if whole.len() > 0 {
        let head = whole.drop_last();
        assert forall|i: int| 0 <= i < head.len() implies pred(#[trigger] head[i]) by {
            assert(head[i] == whole[i]);
        }
        lemma_filter_keeps_all(head, pred);
        assert(head.push(whole.last()) =~= whole);
    }
}

/// A filter that every element passes but one takes that one out.
pub proof fn lemma_filter_drops_one<A>(whole: Seq<A>, pred: spec_fn(A) -> bool, k: int)
    requires
        0 <= k < whole.len(),
        !pred(whole[k]),
        forall|i: int| 0 <= i < whole.len() && i != k ==> pred(#[trigger] whole[i]),
    ensures
        whole.filter(pred) == whole.remove(k),
    decreases whole.len(),
{
    reveal(Seq::filter);
    let head = whole.drop_last();
    if k == whole.len() - 1 {
        assert forall|i: int| 0 <= i < head.len() implies pred(#[trigger] head[i]) by {
            assert(head[i] == whole[i]);
        }
        lemma_filter_keeps_all(head, pred);
        assert(whole.remove(k) =~= head);
    } else {
        assert forall|i: int| 0 <= i < head.len() && i != k implies pred(#[trigger] head[i]) by {
            assert(head[i] == whole[i]);
        }
        assert(head[k] == whole[k]);
        lemma_filter_drops_one(head, pred, k);
        assert(head.remove(k).push(whole.last()) =~= whole.remove(k));
    }
}

} // verus!
