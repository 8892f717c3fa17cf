//! Lists that are picked out of other lists.

use vstd::prelude::*;

verus! {

/// The items of a list that are to be kept, in their order, each turned into another.
pub open spec fn picked<A, B>(
    items: Seq<A>,
    keep: spec_fn(A) -> bool,
    turn: spec_fn(A) -> B,
) -> Seq<B> {
    items.filter(keep).map_values(turn)
}

/// The last item of a list comes last among the picked ones, if it is to be kept.
pub(crate) proof fn lemma_picked_last<A, B>(
    items: Seq<A>,
    keep: spec_fn(A) -> bool,
    turn: spec_fn(A) -> B,
)
    ensures
        items.len() == 0 ==> picked(items, keep, turn) == Seq::<B>::empty(),
        items.len() > 0 ==> picked(items, keep, turn) == if keep(items.last()) {
            picked(items.drop_last(), keep, turn).push(turn(items.last()))
        } else {
            picked(items.drop_last(), keep, turn)
        },
{
    reveal(Seq::filter);
    if items.len() == 0 {
        assert(picked(items, keep, turn) =~= Seq::<B>::empty());
    } else {
        assert(picked(items, keep, turn) =~= if keep(items.last()) {
            picked(items.drop_last(), keep, turn).push(turn(items.last()))
        } else {
            picked(items.drop_last(), keep, turn)
        });
    }
}

/// Each of the picked items stands for one of the list that is to be kept.
pub(crate) proof fn lemma_picked_from<A, B>(
    items: Seq<A>,
    keep: spec_fn(A) -> bool,
    turn: spec_fn(A) -> B,
    n: int,
) -> (k: int)
    requires
        0 <= n < picked(items, keep, turn).len(),
    ensures
        0 <= k < items.len(),
        keep(items[k]),
        picked(items, keep, turn)[n] == turn(items[k]),
    decreases items.len(),
{
    lemma_picked_last(items, keep, turn);
    let shorter = items.drop_last();
    if n == picked(shorter, keep, turn).len() {
        items.len() - 1
    } else {
        lemma_picked_from(shorter, keep, turn, n)
    }
}

/// Each item that is to be kept stands among the picked ones, after those that were picked from
/// what comes before it.
pub(crate) proof fn lemma_place_of_picked<A, B>(
    items: Seq<A>,
    keep: spec_fn(A) -> bool,
    turn: spec_fn(A) -> B,
    k: int,
) -> (n: int)
    requires
        0 <= k < items.len(),
        keep(items[k]),
    ensures
        n == picked(items.take(k), keep, turn).len(),
        n < picked(items, keep, turn).len(),
        picked(items, keep, turn)[n] == turn(items[k]),
    decreases items.len(),
{
    lemma_picked_last(items, keep, turn);
    let shorter = items.drop_last();
    if k == items.len() - 1 {
        assert(items.take(k) =~= shorter);
        picked(shorter, keep, turn).len() as int
    } else {
        assert(items.take(k) =~= shorter.take(k));
        lemma_place_of_picked(shorter, keep, turn, k)
    }
}

/// The picked items are those that are to be kept, all of them, each once and in order, and each
/// turned into another. The result are their places in the list.
pub proof fn law_picked_items<A, B>(
    items: Seq<A>,
    keep: spec_fn(A) -> bool,
    turn: spec_fn(A) -> B,
) -> (places: Seq<int>)
    ensures
        places.len() == picked(items, keep, turn).len(),
        forall|n: int|
            0 <= n < places.len() ==> {
                &&& 0 <= #[trigger] places[n] < items.len()
                &&& keep(items[places[n]])
                &&& picked(items, keep, turn)[n] == turn(items[places[n]])
            },
        forall|m: int, n: int|
            0 <= m < n < places.len() ==> (#[trigger] places[m]) < (#[trigger] places[n]),
        forall|i: int|
            0 <= i < items.len() && keep(#[trigger] items[i]) ==> places.contains(i),
    decreases items.len(),
{
    lemma_picked_last(items, keep, turn);
    if items.len() == 0 {
        Seq::empty()
    } else {
        let shorter = items.drop_last();
        let last = items.len() - 1;
        let before = law_picked_items(shorter, keep, turn);
        let places = if keep(items.last()) {
            before.push(last)
        } else {
            before
        };
        assert forall|n: int| 0 <= n < places.len() implies {
            &&& 0 <= #[trigger] places[n] < items.len()
            &&& keep(items[places[n]])
            &&& picked(items, keep, turn)[n] == turn(items[places[n]])
        } by {
            if n < before.len() {
                assert(places[n] == before[n]);
                assert(items[before[n]] == shorter[before[n]]);
            }
        }
        assert forall|i: int| 0 <= i < items.len() && keep(#[trigger] items[i]) implies places.contains(
            i,
        ) by {
            if i < last {
                assert(shorter[i] == items[i]);
                assert(before.contains(i));
                let n = choose|n: int| 0 <= n < before.len() && before[n] == i;
                assert(places[n] == i);
            } else {
                assert(places[before.len() as int] == i);
            }
        }
        places
    }
}

} // verus!
