//! What holds of a search over time, whatever is done with it.

use vstd::prelude::*;
use crate::search::new_search;
use crate::state::Info;
use crate::state::SearchView;

verus! {

/// What can be done with a search.
pub enum Act {
    /// Settings or messages are changed.
    Setting,
    /// A walk goes on.
    Walking,
    /// Images are grouped.
    Sorting { finished: bool },
    /// The search comes to its end, or is stopped. `asked` tells whether somebody could ask it to
    /// stop.
    Searching { finished: bool, asked: bool },
}

/// Whether no count of what was met is lower than before.
pub open spec fn counts_grow(before: Info, after: Info) -> bool {
    &&& before.number_of_checked_files <= after.number_of_checked_files
    &&& before.number_of_checked_folders <= after.number_of_checked_folders
    &&& before.number_of_ignored_files <= after.number_of_ignored_files
    &&& before.number_of_ignored_things <= after.number_of_ignored_things
    &&& before.size_of_checked_images <= after.size_of_checked_images
}

/// Whether what is done with a search can lead from `before` to `after`.
pub open spec fn step(before: SearchView, act: Act, after: SearchView) -> bool {
    &&& counts_grow(before.information, after.information)
    &&& before.images_to_check.is_prefix_of(after.images_to_check)
    &&& match act {
        Act::Setting => {
            &&& after.information == before.information
            &&& after.images_to_check == before.images_to_check
            &&& after.image_hashes == before.image_hashes
            &&& after.similar_vectors == before.similar_vectors
            &&& after.stopped_search == before.stopped_search
        },
        Act::Walking => {
            &&& after.image_hashes == before.image_hashes
            &&& after.similar_vectors == before.similar_vectors
            &&& after.stopped_search == before.stopped_search
        },
        Act::Sorting { finished } => {
            &&& after.information == before.information
            &&& after.images_to_check == before.images_to_check
            &&& !finished ==> after.similar_vectors == before.similar_vectors
            &&& after.stopped_search == before.stopped_search
        },
        Act::Searching { finished, asked } => {
            &&& after.information == before.information
            &&& after.images_to_check == before.images_to_check
            &&& !finished ==> after.similar_vectors == before.similar_vectors && asked
            &&& after.stopped_search == (before.stopped_search || !finished)
        },
    }
}

/// Whether a new search can come to be in each of the states in turn, by what is done with it.
pub open spec fn is_history(states: Seq<SearchView>, acts: Seq<Act>) -> bool {
    &&& states.len() == acts.len() + 1
    &&& states[0] == new_search()
    &&& forall|i: int|
        0 <= i < acts.len() ==> step(states[i], #[trigger] acts[i], states[i + 1])
}

/// Whether something that was done came to its end.
pub open spec fn finishes(act: Act) -> bool {
    match act {
        Act::Sorting { finished } => finished,
        Act::Searching { finished, .. } => finished,
        _ => false,
    }
}

/// The counts of what a search has met only ever grow, and no image that is to be checked is
/// forgotten.
pub proof fn law_counts_only_grow(states: Seq<SearchView>, acts: Seq<Act>, i: int, j: int)
    requires
        is_history(states, acts),
        0 <= i <= j < states.len(),
    ensures
        counts_grow(states[i].information, states[j].information),
        states[i].images_to_check.is_prefix_of(states[j].images_to_check),
    decreases j - i,
{
    if i < j {
        law_counts_only_grow(states, acts, i, j - 1);
        assert(step(states[j - 1], acts[j - 1], states[j]));
        let first = states[i].images_to_check;
        let second = states[j - 1].images_to_check;
        let third = states[j].images_to_check;
        assert forall|k: int| 0 <= k < first.len() implies first[k] == third[k] by {
            assert(first[k] == second.subrange(0, first.len() as int)[k]);
            assert(second[k] == third.subrange(0, second.len() as int)[k]);
        }
    }
}

/// Before the images have been grouped for the first time, no groups are shown.
pub proof fn law_no_groups_before_a_finished_search(
    states: Seq<SearchView>,
    acts: Seq<Act>,
    n: int,
)
    requires
        is_history(states, acts),
        0 <= n < states.len(),
        forall|i: int| 0 <= i < n ==> !finishes(#[trigger] acts[i]),
    ensures
        states[n].similar_vectors.len() == 0,
    decreases n,
{
    if n > 0 {
        law_no_groups_before_a_finished_search(states, acts, n - 1);
        assert(step(states[n - 1], acts[n - 1], states[n]));
        assert(!finishes(acts[n - 1]));
    }
}

/// A search that nobody could ever ask to stop is never marked as stopped.
pub proof fn law_search_without_receiver_is_never_stopped(
    states: Seq<SearchView>,
    acts: Seq<Act>,
    n: int,
)
    requires
        is_history(states, acts),
        0 <= n < states.len(),
        forall|i: int|
            0 <= i < n ==> !((#[trigger] acts[i]) matches Act::Searching { asked: true, .. }),
    ensures
        !states[n].stopped_search,
    decreases n,
{
    if n > 0 {
        law_search_without_receiver_is_never_stopped(states, acts, n - 1);
        assert(step(states[n - 1], acts[n - 1], states[n]));
    }
}

/// Once a search is marked as stopped it stays so.
pub proof fn law_stopped_searches_stay_stopped(
    states: Seq<SearchView>,
    acts: Seq<Act>,
    i: int,
    j: int,
)
    requires
        is_history(states, acts),
        0 <= i <= j < states.len(),
        states[i].stopped_search,
    ensures
        states[j].stopped_search,
    decreases j - i,
{
    if i < j {
        law_stopped_searches_stay_stopped(states, acts, i, j - 1);
        assert(step(states[j - 1], acts[j - 1], states[j]));
    }
}

} // verus!
