//! Stable sorting.

use vstd::prelude::*;

verus! {

/// The views of several things.
pub open spec fn seq_view<T: View>(items: Seq<T>) -> Seq<T::V> {
    Seq::new(items.len(), |i: int| items[i]@)
}

/// A sorted run with one thing more, which moves forward past all that it goes
/// before.
pub open spec fn placed<A>(sorted: Seq<A>, item: A, goes_before: spec_fn(A, A) -> bool) -> Seq<A>
    decreases sorted.len(),
{
    if sorted.len() > 0 && goes_before(item, sorted.last()) {
        placed(sorted.drop_last(), item, goes_before).push(sorted.last())
    } else {
        sorted.push(item)
    }
}

/// Some things in order; those of which neither goes before the other stay in the
/// order that they had.
pub open spec fn stably_sorted<A>(items: Seq<A>, goes_before: spec_fn(A, A) -> bool) -> Seq<A>
    decreases items.len(),
{
    if items.len() == 0 {
        Seq::empty()
    } else {
        placed(stably_sorted(items.drop_last(), goes_before), items.last(), goes_before)
    }
}

/// Whether nothing in a run goes before anything that stands earlier.
pub open spec fn in_order<A>(items: Seq<A>, goes_before: spec_fn(A, A) -> bool) -> bool {
    forall|i: int, j: int|
        0 <= i < j < items.len() ==> !goes_before(#[trigger] items[j], #[trigger] items[i])
}

/// Whether one thing going before another is a strict weak order.
pub open spec fn is_order<A>(goes_before: spec_fn(A, A) -> bool) -> bool {
    &&& forall|a: A| !#[trigger] goes_before(a, a)
    &&& forall|a: A, b: A, c: A|
        #![trigger goes_before(a, b), goes_before(b, c)]
        goes_before(a, b) && goes_before(b, c) ==> goes_before(a, c)
    &&& forall|a: A, b: A, c: A|
        #![trigger goes_before(a, b), goes_before(a, c)]
        goes_before(a, b) ==> goes_before(a, c) || goes_before(c, b)
}

/// Placing a thing adds it and nothing else.
pub proof fn lemma_placed_multiset<A>(
    sorted: Seq<A>,
    item: A,
    goes_before: spec_fn(A, A) -> bool,
)
    ensures
        placed(sorted, item, goes_before).len() == sorted.len() + 1,
        placed(sorted, item, goes_before).to_multiset() == sorted.to_multiset().insert(item),
    decreases sorted.len(),
{
    broadcast use vstd::seq_lib::group_to_multiset_ensures;

    if sorted.len() > 0 && goes_before(item, sorted.last()) {
        lemma_placed_multiset(sorted.drop_last(), item, goes_before);
        assert(sorted =~= sorted.drop_last().push(sorted.last()));
        assert(sorted.to_multiset() == sorted.drop_last().to_multiset().insert(sorted.last()));
        assert(placed(sorted, item, goes_before).to_multiset() =~= sorted.to_multiset().insert(
            item,
        ));
    }
}

/// Sorting keeps the things that there were.
pub proof fn lemma_sorted_multiset<A>(items: Seq<A>, goes_before: spec_fn(A, A) -> bool)
    ensures
        stably_sorted(items, goes_before).len() == items.len(),
        stably_sorted(items, goes_before).to_multiset() == items.to_multiset(),
    decreases items.len(),
{
    broadcast use vstd::seq_lib::group_to_multiset_ensures;

    if items.len() > 0 {
        lemma_sorted_multiset(items.drop_last(), goes_before);
        lemma_placed_multiset(
            stably_sorted(items.drop_last(), goes_before),
            items.last(),
            goes_before,
        );
        assert(items =~= items.drop_last().push(items.last()));
    } else {
        assert(items =~= Seq::empty());
    }
}

/// Where everything of a run is as a predicate says, so it is with a placed thing
/// that is so too.
proof fn lemma_placed_all<A>(
    sorted: Seq<A>,
    item: A,
    goes_before: spec_fn(A, A) -> bool,
    holds: spec_fn(A) -> bool,
)
    requires
        forall|i: int| 0 <= i < sorted.len() ==> holds(#[trigger] sorted[i]),
        holds(item),
    ensures
        forall|i: int|
            0 <= i < placed(sorted, item, goes_before).len() ==> holds(
                #[trigger] placed(sorted, item, goes_before)[i],
            ),
    decreases sorted.len(),
{
    if sorted.len() > 0 && goes_before(item, sorted.last()) {
        let front = placed(sorted.drop_last(), item, goes_before);
        lemma_placed_all(sorted.drop_last(), item, goes_before, holds);
        assert forall|i: int| 0 <= i < placed(sorted, item, goes_before).len() implies holds(
            #[trigger] placed(sorted, item, goes_before)[i],
        ) by {
            if i < front.len() {
                assert(holds(front[i]));
            } else {
                assert(holds(sorted[sorted.len() - 1]));
            }
        }
    }
}

/// A thing placed in a run that is in order leaves it in order.
proof fn lemma_placed_in_order<A>(sorted: Seq<A>, item: A, goes_before: spec_fn(A, A) -> bool)
    requires
        is_order(goes_before),
        in_order(sorted, goes_before),
    ensures
        in_order(placed(sorted, item, goes_before), goes_before),
    decreases sorted.len(),
{
    if sorted.len() > 0 && goes_before(item, sorted.last()) {
        let shorter = sorted.drop_last();
        let front = placed(shorter, item, goes_before);
        let last = sorted.last();
        lemma_placed_in_order(shorter, item, goes_before);
        let holds = |a: A| !goes_before(last, a);
        assert(holds(item)) by {
            if goes_before(last, item) {
                assert(goes_before(item, last));
            }
        }
        lemma_placed_all(shorter, item, goes_before, holds);
        assert forall|i: int, j: int|
            0 <= i < j < placed(sorted, item, goes_before).len() implies !goes_before(
            #[trigger] placed(sorted, item, goes_before)[j],
            #[trigger] placed(sorted, item, goes_before)[i],
        ) by {
            if j == front.len() {
                assert(holds(front[i]));
            }
        }
    } else {
        let result = sorted.push(item);
        assert forall|i: int, j: int| 0 <= i < j < result.len() implies !goes_before(
            #[trigger] result[j],
            #[trigger] result[i],
        ) by {
            if j == sorted.len() && goes_before(item, sorted[i]) && i < sorted.len() - 1 {
                assert(goes_before(item, sorted.last()) || goes_before(sorted.last(), sorted[i]));
            }
        }
    }
}

/// What is sorted by an order is in order.
pub proof fn lemma_sorted_in_order<A>(items: Seq<A>, goes_before: spec_fn(A, A) -> bool)
    requires
        is_order(goes_before),
    ensures
        in_order(stably_sorted(items, goes_before), goes_before),
    decreases items.len(),
{
    if items.len() > 0 {
        lemma_sorted_in_order(items.drop_last(), goes_before);
        lemma_placed_in_order(
            stably_sorted(items.drop_last(), goes_before),
            items.last(),
            goes_before,
        );
    }
}

/// Among the things of a run that are alike, a placed one comes last.
proof fn lemma_placed_stable<A>(
    sorted: Seq<A>,
    item: A,
    goes_before: spec_fn(A, A) -> bool,
    alike: spec_fn(A) -> bool,
)
    requires
        forall|a: A| alike(a) && alike(item) ==> !#[trigger] goes_before(item, a),
    ensures
        placed(sorted, item, goes_before).filter(alike) == if alike(item) {
            sorted.filter(alike).push(item)
        } else {
            sorted.filter(alike)
        },
    decreases sorted.len(),
{
    reveal(Seq::filter);
    let result = placed(sorted, item, goes_before);
    if sorted.len() > 0 && goes_before(item, sorted.last()) {
        lemma_placed_stable(sorted.drop_last(), item, goes_before, alike);
        assert(result.drop_last() =~= placed(sorted.drop_last(), item, goes_before));
    } else {
        assert(result.drop_last() =~= sorted);
    }
}

/// Sorting keeps the order of things of which none goes before another.
pub proof fn lemma_sorted_stable<A>(
    items: Seq<A>,
    goes_before: spec_fn(A, A) -> bool,
    alike: spec_fn(A) -> bool,
)
    requires
        forall|a: A, b: A| alike(a) && alike(b) ==> !#[trigger] goes_before(a, b),
    ensures
        stably_sorted(items, goes_before).filter(alike) == items.filter(alike),
    decreases items.len(),
{
    reveal(Seq::filter);
    if items.len() > 0 {
        lemma_sorted_stable(items.drop_last(), goes_before, alike);
        lemma_placed_stable(
            stably_sorted(items.drop_last(), goes_before),
            items.last(),
            goes_before,
            alike,
        );
    } else {
        assert(stably_sorted(items, goes_before) =~= items);
    }
}

/// Keeping some things of a run in which nothing occurs twice leaves nothing twice.
proof fn lemma_filter_no_duplicates<A>(items: Seq<A>, keep: spec_fn(A) -> bool)
    requires
        items.no_duplicates(),
    ensures
        items.filter(keep).no_duplicates(),
    decreases items.len(),
{
    reveal(Seq::filter);
    if items.len() > 0 {
        let front = items.drop_last();
        lemma_filter_no_duplicates(front, keep);
        let kept = front.filter(keep);
        assert(!kept.contains(items.last())) by {
            if kept.contains(items.last()) {
                front.lemma_filter_contains_rev(keep, items.last());
            }
        }
        assert(forall|i: int| 0 <= i < kept.len() ==> kept.contains(#[trigger] kept[i]));
    }
}

/// What is kept is exactly what there was to be kept, and nothing of it twice where
/// nothing occurred twice.
pub proof fn lemma_kept<A>(items: Seq<A>, keep: spec_fn(A) -> bool)
    ensures
        forall|item: A| #[trigger]
            items.filter(keep).contains(item) <==> items.contains(item) && keep(item),
        items.no_duplicates() ==> items.filter(keep).no_duplicates(),
{
    let kept = items.filter(keep);
    assert forall|item: A| #[trigger] kept.contains(item) <==> items.contains(item) && keep(
        item,
    ) by {
        if kept.contains(item) {
            items.lemma_filter_contains_rev(keep, item);
            let i = kept.index_of(item);
            items.lemma_filter_pred(keep, i);
        }
        if items.contains(item) && keep(item) {
            let i = items.index_of(item);
            items.lemma_filter_contains(keep, i);
        }
    }
    if items.no_duplicates() {
        lemma_filter_no_duplicates(items, keep);
    }
}

/// What is sorted is exactly what there was, and nothing of it twice where nothing
/// occurred twice.
pub proof fn lemma_sorted_same<A>(items: Seq<A>, goes_before: spec_fn(A, A) -> bool)
    ensures
        forall|item: A| #[trigger]
            stably_sorted(items, goes_before).contains(item) <==> items.contains(item),
        items.no_duplicates() ==> stably_sorted(items, goes_before).no_duplicates(),
{
    broadcast use vstd::seq_lib::group_to_multiset_ensures;

    let sorted = stably_sorted(items, goes_before);
    lemma_sorted_multiset(items, goes_before);
    assert forall|item: A| #[trigger] sorted.contains(item) <==> items.contains(item) by {
        assert(sorted.contains(item) <==> sorted.to_multiset().count(item) > 0);
        assert(items.contains(item) <==> items.to_multiset().count(item) > 0);
    }
    if items.no_duplicates() {
        items.lemma_multiset_has_no_duplicates();
        sorted.lemma_multiset_has_no_duplicates_conv();
    }
}

/// Placing a thing among those that come before the rest of a run.
proof fn lemma_placed_at<A>(
    sorted: Seq<A>,
    item: A,
    goes_before: spec_fn(A, A) -> bool,
    at: int,
)
    requires
        0 <= at <= sorted.len(),
        forall|i: int| at <= i < sorted.len() ==> goes_before(item, #[trigger] sorted[i]),
        at > 0 ==> !goes_before(item, sorted[at - 1]),
    ensures
        placed(sorted, item, goes_before) == sorted.insert(at, item),
    decreases sorted.len(),
{
    if at < sorted.len() {
        lemma_placed_at(sorted.drop_last(), item, goes_before, at);
        assert(sorted.drop_last().insert(at, item).push(sorted.last()) =~= sorted.insert(at, item));
    } else {
        assert(sorted.push(item) =~= sorted.insert(at, item));
    }
}

/// Sorts some things; those of which neither goes before the other stay in the order
/// that they had.
pub(crate) fn stable_sort<T: View, F: Fn(&T, &T) -> bool>(
    items: Vec<T>,
    goes_before: F,
    Ghost(order): Ghost<spec_fn(T::V, T::V) -> bool>,
) -> (sorted: Vec<T>)
    requires
        forall|a: &T, b: &T| #[trigger] goes_before.requires((a, b)),
        forall|a: &T, b: &T, yes: bool| #[trigger]
            goes_before.ensures((a, b), yes) ==> yes == order(a@, b@),
    ensures
        seq_view(sorted@) == stably_sorted(seq_view(items@), order),
{
    let ghost given = items@;
    let ghost all = seq_view(given);
    let mut sorted: Vec<T> = Vec::new();
    assert(seq_view(sorted@) =~= stably_sorted(all.take(0), order));
    for item in it: items
        invariant
            forall|a: &T, b: &T| #[trigger] goes_before.requires((a, b)),
            forall|a: &T, b: &T, yes: bool| #[trigger]
                goes_before.ensures((a, b), yes) ==> yes == order(a@, b@),
            it.seq() == given,
            all == seq_view(given),
            sorted@.len() == it.index(),
            seq_view(sorted@) == stably_sorted(all.take(sorted@.len() as int), order),
    {
        let ghost run = seq_view(sorted@);
        let ghost n = sorted@.len() as int;
        let mut at: usize = sorted.len();
        while at > 0 && goes_before(&item, &sorted[at - 1])
            invariant
                at <= sorted@.len(),
                run == seq_view(sorted@),
                forall|a: &T, b: &T| #[trigger] goes_before.requires((a, b)),
                forall|a: &T, b: &T, yes: bool| #[trigger]
                    goes_before.ensures((a, b), yes) ==> yes == order(a@, b@),
                forall|i: int| at <= i < run.len() ==> order(item@, #[trigger] run[i]),
            ensures
                at <= sorted@.len(),
                at > 0 ==> !order(item@, run[at - 1]),
                forall|i: int| at <= i < run.len() ==> order(item@, #[trigger] run[i]),
            decreases at,
        {
            at = at - 1;
        }
        proof {
            lemma_placed_at(run, item@, order, at as int);
            assert(all.take(n + 1).drop_last() =~= all.take(n));
            assert(all.take(n + 1).last() == item@);
        }
        sorted.insert(at, item);
        assert(seq_view(sorted@) =~= run.insert(at as int, item@));
    }
    assert(all.take(sorted@.len() as int) =~= all);
    sorted
}

} // verus!
