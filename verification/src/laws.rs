//! What holds of the groups, whatever the order of the visits and of the search results.

use vstd::prelude::*;
use crate::distance::hamming_distance;
use crate::distance::law_distance_identity;
use crate::distance::law_distance_symmetry;
use crate::entry::marked;
use crate::entry::with_level;
use crate::entry::EntryView;
use crate::grouping::claimed_entries;
use crate::grouping::claims;
use crate::grouping::hashes_of;
use crate::grouping::lemma_hashes_of_push;
use crate::run::is_grouping;
use crate::run::lemma_run_behind;
use crate::run::populated;
use crate::run::visited;
use crate::run::GroupingView;
use crate::run::Run;
use crate::similarity::level_of;
use crate::similarity::tolerance_of;
use crate::similarity::Similarity;
use crate::state::is_shown_group;

verus! {

impl Run {
    /// The hashes whose images the group of visit `i` shows.
    pub open spec fn members(self, i: int) -> Set<u64> {
        if self.active(i) {
            hashes_of(self.claimed(i)).insert(self.order[i])
        } else {
            Set::empty()
        }
    }

    /// Whether the images of a hash are shown in some group.
    pub open spec fn shown(self, hash: u64) -> bool {
        exists|i: int|
            0 <= i < self.order.len() && #[trigger] self.shows(i) && self.members(i).contains(hash)
    }
}

proof fn lemma_claims(found: Seq<(u64, u64)>, available: Set<u64>)
    ensures
        hashes_of(claims(found, available)) == hashes_of(found).intersect(available),
        forall|i: int|
            0 <= i < claims(found, available).len() ==> found.contains(
                #[trigger] claims(found, available)[i],
            ),
    decreases found.len(),
{
    if found.len() == 0 {
        assert(hashes_of(claims(found, available)) =~= hashes_of(found).intersect(available));
    } else {
        let shorter = found.drop_last();
        let pair = found.last();
        lemma_claims(shorter, available);
        assert(shorter.push(pair) =~= found);
        lemma_hashes_of_push(shorter, pair);
        lemma_hashes_of_push(claims(shorter, available), pair);
        assert(hashes_of(claims(found, available)) =~= hashes_of(found).intersect(available));
        assert forall|i: int| 0 <= i < claims(found, available).len() implies found.contains(
            #[trigger] claims(found, available)[i],
        ) by {
            if i < claims(shorter, available).len() {
                assert(shorter.contains(claims(shorter, available)[i]));
                let k = choose|k: int|
                    0 <= k < shorter.len() && shorter[k] == claims(shorter, available)[i];
                assert(found[k] == claims(found, available)[i]);
            } else {
                assert(found[found.len() - 1] == pair);
            }
        }
    }
}

/// Hashes only ever get taken.
pub(crate) proof fn lemma_left_shrinks(run: Run, i: int, j: int)
    requires
        0 <= i <= j,
    ensures
        run.left(j).subset_of(run.left(i)),
        run.left(j).subset_of(run.table.dom()),
    decreases j,
{
    if i < j {
        lemma_left_shrinks(run, i, j - 1);
    } else if j > 0 {
        lemma_left_shrinks(run, 0, j - 1);
    }
}

/// What a visit takes was there before it and is gone after it.
proof fn lemma_members(run: Run, i: int)
    requires
        0 <= i,
    ensures
        run.members(i).subset_of(run.left(i)),
        run.members(i).disjoint(run.left(i + 1)),
        run.left(i) == run.left(i + 1).union(run.members(i)),
{
    if run.active(i) {
        lemma_claims(run.answers[i], run.left(i).remove(run.order[i]));
    }
    assert(run.left(i) =~= run.left(i + 1).union(run.members(i)));
}

/// How many entries a claim adds.
proof fn lemma_claimed_entries_len(run: Run, claimed: Seq<(u64, u64)>)
    requires
        populated(run.table),
        hashes_of(claimed).subset_of(run.table.dom()),
    ensures
        claimed_entries(run.table, claimed).len() >= claimed.len(),
    decreases claimed.len(),
{
    if claimed.len() > 0 {
        let shorter = claimed.drop_last();
        assert(shorter.push(claimed.last()) =~= claimed);
        lemma_hashes_of_push(shorter, claimed.last());
        assert(hashes_of(claimed).contains(claimed.last().1));
        assert(run.table.contains_key(claimed.last().1));
        lemma_claimed_entries_len(run, shorter);
    }
}

/// A visit that takes another hash gives a group.
proof fn lemma_claim_shows(run: Run, i: int)
    requires
        populated(run.table),
        0 <= i,
        run.active(i),
        run.claimed(i).len() > 0,
    ensures
        run.shows(i),
{
    lemma_left_shrinks(run, 0, i);
    lemma_claims(run.answers[i], run.left(i).remove(run.order[i]));
    assert(hashes_of(run.claimed(i)).subset_of(run.table.dom()));
    lemma_claimed_entries_len(run, run.claimed(i));
    assert(run.table.contains_key(run.order[i]));
}

/// A hash that was taken before its own visit is shown.
proof fn lemma_taken_early(run: Run, hash: u64, i: int)
    requires
        populated(run.table),
        0 <= i <= run.order.len(),
        run.table.contains_key(hash),
        !run.left(i).contains(hash),
        forall|j: int| 0 <= j < i ==> run.order[j] != hash,
    ensures
        run.shown(hash),
    decreases i,
{
    if i > 0 {
        if run.left(i - 1).contains(hash) {
            lemma_members(run, i - 1);
            assert(run.members(i - 1).contains(hash));
            assert(hashes_of(run.claimed(i - 1)).contains(hash));
            lemma_claim_shows(run, i - 1);
            assert(run.shows(i - 1));
        } else {
            lemma_taken_early(run, hash, i - 1);
        }
    }
}

proof fn lemma_groups(run: Run, n: int)
    requires
        0 <= n,
    ensures
        forall|i: int| 0 <= i < n && #[trigger] run.shows(i) ==> run.groups(n).contains(run.group(i)),
        forall|group: Seq<EntryView>| #[trigger]
            run.groups(n).contains(group) ==> exists|i: int|
                0 <= i < n && #[trigger] run.shows(i) && run.group(i) == group,
    decreases n,
{
    if n > 0 {
        lemma_groups(run, n - 1);
        let before = run.groups(n - 1);
        assert forall|i: int| 0 <= i < n && #[trigger] run.shows(i) implies run.groups(n).contains(
            run.group(i),
        ) by {
            if i < n - 1 {
                assert(before.contains(run.group(i)));
                let k = choose|k: int| 0 <= k < before.len() && before[k] == run.group(i);
                assert(run.groups(n)[k] == run.group(i));
            } else {
                assert(run.groups(n)[before.len() as int] == run.group(i));
            }
        }
        assert forall|group: Seq<EntryView>| #[trigger] run.groups(n).contains(group) implies exists|
            i: int,
        |
            0 <= i < n && #[trigger] run.shows(i) && run.group(i) == group by {
            let k = choose|k: int| 0 <= k < run.groups(n).len() && run.groups(n)[k] == group;
            if k < before.len() {
                assert(before[k] == group);
                assert(before.contains(group));
                let i = choose|i: int|
                    0 <= i < n - 1 && #[trigger] run.shows(i) && run.group(i) == group;
                assert(run.shows(i));
            } else {
                assert(run.shows(n - 1));
            }
        }
    }
}

/// A run goes from visit to visit: before the first, every hash is left and there are no groups,
/// and each visit takes the next hash of the order, with what the search for it found.
pub proof fn law_runs_go_from_visit_to_visit(run: Run, i: int)
    requires
        0 <= i,
    ensures
        run.progress(0) == (GroupingView { left: run.table.dom(), groups: Seq::empty() }),
        run.progress(i + 1) == visited(
            run.progress(i),
            run.table,
            run.order[i],
            run.answers[i],
        ),
{
}

/// The shown groups are those of the visits that give a group of more than one image.
pub proof fn law_result_is_what_visits_show(run: Run, group: Seq<EntryView>)
    ensures
        run.result().contains(group) <==> exists|i: int|
            0 <= i < run.order.len() && #[trigger] run.shows(i) && run.group(i) == group,
{
    lemma_groups(run, run.order.len() as int);
}

/// No image is shown alone.
pub proof fn law_groups_have_company(run: Run, group: Seq<EntryView>)
    requires
        run.result().contains(group),
    ensures
        group.len() > 1,
{
    lemma_groups(run, run.order.len() as int);
}

/// No hash, and so no image, belongs to the groups of two visits.
pub proof fn law_groups_are_disjoint(run: Run, i: int, j: int)
    requires
        0 <= i < j,
    ensures
        run.members(i).disjoint(run.members(j)),
{
    lemma_members(run, i);
    lemma_members(run, j);
    lemma_left_shrinks(run, i + 1, j);
}

/// The visits leave no hash out: each belongs to one of them.
pub proof fn law_every_hash_is_visited(run: Run, hash: u64)
    requires
        run.valid(),
        run.table.contains_key(hash),
    ensures
        exists|i: int| 0 <= i < run.order.len() && #[trigger] run.members(i).contains(hash),
{
    assert(run.order.to_set().contains(hash));
    let i = choose|i: int| 0 <= i < run.order.len() && run.order[i] == hash;
    if run.active(i) {
        assert(run.members(i).contains(hash));
    } else {
        lemma_member_before(run, hash, i);
    }
}

proof fn lemma_member_before(run: Run, hash: u64, i: int)
    requires
        0 <= i,
        run.table.contains_key(hash),
        !run.left(i).contains(hash),
    ensures
        exists|j: int| 0 <= j < i && #[trigger] run.members(j).contains(hash),
    decreases i,
{
    if i > 0 {
        lemma_members(run, i - 1);
        if run.left(i - 1).contains(hash) {
            assert(run.members(i - 1).contains(hash));
        } else {
            lemma_member_before(run, hash, i - 1);
        }
    }
}

/// A group is complete: it takes every hash within the tolerance that was still to be had.
pub proof fn law_groups_are_complete(run: Run, i: int)
    requires
        run.valid(),
        0 <= i < run.order.len(),
        run.active(i),
    ensures
        forall|hash: u64| #[trigger]
            run.members(i).contains(hash) <==> run.left(i).contains(hash) && hamming_distance(
                run.order[i],
                hash,
            ) <= run.tolerance,
{
    let base = run.order[i];
    lemma_left_shrinks(run, 0, i);
    lemma_claims(run.answers[i], run.left(i).remove(base));
    law_distance_identity(base, base);
    assert forall|hash: u64| #[trigger] run.members(i).contains(hash) <==> run.left(i).contains(
        hash,
    ) && hamming_distance(base, hash) <= run.tolerance by {
        if run.members(i).contains(hash) && hash != base {
            let k = choose|k: int|
                0 <= k < run.claimed(i).len() && (#[trigger] run.claimed(i)[k]).1 == hash;
            lemma_claimed_distance(run, i, k);
        }
    }
}

/// Images with the same hash are always shown.
pub proof fn law_copies_are_shown(run: Run, hash: u64)
    requires
        run.valid(),
        populated(run.table),
        run.table.contains_key(hash),
        run.table[hash].len() > 1,
    ensures
        run.shown(hash),
{
    assert(run.order.to_set().contains(hash));
    let i = choose|i: int| 0 <= i < run.order.len() && run.order[i] == hash;
    if run.active(i) {
        assert(run.shows(i));
    } else {
        lemma_taken_early(run, hash, i);
    }
}

proof fn lemma_close_pair(run: Run, a: u64, b: u64, i: int)
    requires
        run.valid(),
        populated(run.table),
        run.table.contains_key(a),
        run.table.contains_key(b),
        a != b,
        hamming_distance(a, b) <= run.tolerance,
        0 <= i < run.order.len(),
        run.order[i] == a,
        forall|j: int| 0 <= j < i ==> run.order[j] != b,
    ensures
        run.shown(a) || run.shown(b),
{
    if !run.active(i) {
        lemma_taken_early(run, a, i);
    } else if !run.left(i).contains(b) {
        lemma_taken_early(run, b, i);
    } else {
        lemma_claims(run.answers[i], run.left(i).remove(a));
        assert(hashes_of(run.claimed(i)).contains(b));
        lemma_claim_shows(run, i);
        assert(run.shows(i));
    }
}

/// Of two images that are alike, at least one is shown. (The other may be missing if the images
/// that it resembles are all in other groups.)
pub proof fn law_alike_images_are_noticed(run: Run, a: u64, b: u64)
    requires
        run.valid(),
        populated(run.table),
        run.table.contains_key(a),
        run.table.contains_key(b),
        a != b,
        hamming_distance(a, b) <= run.tolerance,
    ensures
        run.shown(a) || run.shown(b),
{
    assert(run.order.to_set().contains(a));
    assert(run.order.to_set().contains(b));
    let i = choose|i: int| 0 <= i < run.order.len() && run.order[i] == a;
    let j = choose|j: int| 0 <= j < run.order.len() && run.order[j] == b;
    if i < j {
        lemma_close_pair(run, a, b, i);
    } else {
        law_distance_symmetry(a, b);
        lemma_close_pair(run, b, a, j);
    }
}

proof fn lemma_claimed_entries_contains(
    table: Map<u64, Seq<EntryView>>,
    claimed: Seq<(u64, u64)>,
    entry: EntryView,
)
    ensures
        claimed_entries(table, claimed).contains(entry) <==> exists|i: int|
            0 <= i < claimed.len() && marked(
                table[(#[trigger] claimed[i]).1],
                level_of(claimed[i].0 as int),
            ).contains(entry),
    decreases claimed.len(),
{
    if claimed.len() > 0 {
        let shorter = claimed.drop_last();
        let last = claimed.last();
        lemma_claimed_entries_contains(table, shorter, entry);
        let front = claimed_entries(table, shorter);
        let back = marked(table[last.1], level_of(last.0 as int));
        lemma_concat_contains(front, back, entry);
        if front.contains(entry) {
            let i = choose|i: int|
                0 <= i < shorter.len() && marked(
                    table[(#[trigger] shorter[i]).1],
                    level_of(shorter[i].0 as int),
                ).contains(entry);
            assert(claimed[i] == shorter[i]);
        }
        if back.contains(entry) {
            assert(claimed[claimed.len() - 1] == last);
        }
        if exists|i: int|
            0 <= i < claimed.len() && marked(
                table[(#[trigger] claimed[i]).1],
                level_of(claimed[i].0 as int),
            ).contains(entry) {
            let i = choose|i: int|
                0 <= i < claimed.len() && marked(
                    table[(#[trigger] claimed[i]).1],
                    level_of(claimed[i].0 as int),
                ).contains(entry);
            if i < shorter.len() {
                assert(shorter[i] == claimed[i]);
            }
        }
    }
}

proof fn lemma_concat_contains<A>(front: Seq<A>, back: Seq<A>, item: A)
    ensures
        (front + back).contains(item) <==> front.contains(item) || back.contains(item),
{
    if front.contains(item) {
        let i = choose|i: int| 0 <= i < front.len() && front[i] == item;
        assert((front + back)[i] == item);
    }
    if back.contains(item) {
        let i = choose|i: int| 0 <= i < back.len() && back[i] == item;
        assert((front + back)[front.len() + i] == item);
    }
    if (front + back).contains(item) {
        let i = choose|i: int| 0 <= i < (front + back).len() && (front + back)[i] == item;
        if i < front.len() {
            assert(front[i] == item);
        } else {
            assert(back[i - front.len()] == item);
        }
    }
}

/// The distances that a claim carries are the distances from the hash of the visit.
proof fn lemma_claimed_distance(run: Run, i: int, k: int)
    requires
        run.valid(),
        0 <= i < run.order.len(),
        run.active(i),
        0 <= k < run.claimed(i).len(),
    ensures
        run.claimed(i)[k].0 == hamming_distance(run.order[i], run.claimed(i)[k].1),
        run.claimed(i)[k].0 <= run.tolerance,
        run.claimed(i)[k].1 != run.order[i],
{
    let available = run.left(i).remove(run.order[i]);
    lemma_claims(run.answers[i], available);
    let pair = run.claimed(i)[k];
    assert(run.answers[i].contains(pair));
    let m = choose|m: int| 0 <= m < run.answers[i].len() && run.answers[i][m] == pair;
    assert(run.answers[i][m] == pair);
    assert(hashes_of(run.claimed(i)).contains(pair.1));
}

/// Every shown entry is an image of the table, changed in nothing but its similarity, which is
/// the one that the distance of its hash from the first image's hash stands for; and that
/// distance is within the tolerance. Conversely, all the images of a hash that belongs to a group
/// are shown in it.
pub proof fn law_group_entries(run: Run, i: int, entry: EntryView)
    requires
        run.valid(),
        0 <= i < run.order.len(),
        run.active(i),
    ensures
        run.group(i).contains(entry) <==> exists|hash: u64, n: int|
            run.members(i).contains(hash) && 0 <= n < run.table[hash].len() && entry == with_level(
                #[trigger] run.table[hash][n],
                level_of(hamming_distance(run.order[i], hash) as int),
            ),
        forall|hash: u64| #[trigger]
            run.members(i).contains(hash) ==> run.table.contains_key(hash) && hamming_distance(
                run.order[i],
                hash,
            ) <= run.tolerance,
{
    let base = run.order[i];
    let claimed = run.claimed(i);
    let front = marked(run.table[base], Similarity::VeryHigh);
    let back = claimed_entries(run.table, claimed);
    law_distance_identity(base, base);
    lemma_left_shrinks(run, 0, i);
    lemma_members(run, i);
    lemma_concat_contains(front, back, entry);
    lemma_claimed_entries_contains(run.table, claimed, entry);
    assert forall|hash: u64| #[trigger] run.members(i).contains(hash) implies run.table.contains_key(
        hash,
    ) && hamming_distance(base, hash) <= run.tolerance by {
        if hash != base {
            let k = choose|k: int| 0 <= k < claimed.len() && (#[trigger] claimed[k]).1 == hash;
            lemma_claimed_distance(run, i, k);
        }
    }
    if front.contains(entry) {
        let n = choose|n: int| 0 <= n < front.len() && front[n] == entry;
        assert(entry == with_level(
            run.table[base][n],
            level_of(hamming_distance(run.order[i], base) as int),
        ));
        assert(run.members(i).contains(base));
    }
    if back.contains(entry) {
        let k = choose|k: int|
            0 <= k < claimed.len() && marked(
                run.table[(#[trigger] claimed[k]).1],
                level_of(claimed[k].0 as int),
            ).contains(entry);
        let hash = claimed[k].1;
        lemma_claimed_distance(run, i, k);
        let part = marked(run.table[hash], level_of(claimed[k].0 as int));
        let n = choose|n: int| 0 <= n < part.len() && part[n] == entry;
        assert(entry == with_level(
            run.table[hash][n],
            level_of(hamming_distance(run.order[i], hash) as int),
        ));
        assert(run.members(i).contains(hash));
    }
    if exists|hash: u64, n: int|
        run.members(i).contains(hash) && 0 <= n < run.table[hash].len() && entry == with_level(
            #[trigger] run.table[hash][n],
            level_of(hamming_distance(run.order[i], hash) as int),
        ) {
        let (hash, n) = choose|hash: u64, n: int|
            run.members(i).contains(hash) && 0 <= n < run.table[hash].len() && entry == with_level(
                #[trigger] run.table[hash][n],
                level_of(hamming_distance(run.order[i], hash) as int),
            );
        if hash == base {
            assert(front[n] == entry);
        } else {
            let k = choose|k: int| 0 <= k < claimed.len() && (#[trigger] claimed[k]).1 == hash;
            lemma_claimed_distance(run, i, k);
            let part = marked(run.table[hash], level_of(claimed[k].0 as int));
            assert(part[n] == entry);
            assert(marked(run.table[claimed[k].1], level_of(claimed[k].0 as int)).contains(entry));
        }
    }
}

/// With no tolerance, the groups are exactly the images that share a hash, whatever the order of
/// the visits: each visit shows the images of its own hash, if there is more than one.
pub proof fn law_very_high_shows_copies_only(run: Run, i: int)
    requires
        run.valid(),
        run.tolerance == 0,
        0 <= i < run.order.len(),
    ensures
        run.active(i),
        run.group(i) == marked(run.table[run.order[i]], Similarity::VeryHigh),
        run.shows(i) <==> run.table[run.order[i]].len() > 1,
{
    let hash = run.order[i];
    assert(run.order.contains(hash));
    assert(run.order.to_set().contains(hash));
    if !run.active(i) {
        lemma_no_claims(run, i);
    }
    lemma_claims_nothing(run, i);
    assert(run.group(i) =~= marked(run.table[hash], Similarity::VeryHigh));
}

proof fn lemma_claims_nothing(run: Run, i: int)
    requires
        run.valid(),
        run.tolerance == 0,
        0 <= i < run.order.len(),
        run.active(i),
    ensures
        run.claimed(i) == Seq::<(u64, u64)>::empty(),
{
    if run.claimed(i).len() > 0 {
        lemma_claimed_distance(run, i, 0);
        law_distance_identity(run.order[i], run.claimed(i)[0].1);
    }
    assert(run.claimed(i) =~= Seq::empty());
}

proof fn lemma_no_claims(run: Run, i: int)
    requires
        run.valid(),
        run.tolerance == 0,
        0 <= i <= run.order.len(),
    ensures
        forall|hash: u64| #[trigger]
            run.left(i).contains(hash) <==> run.table.contains_key(hash) && forall|j: int|
                0 <= j < i ==> run.order[j] != hash,
    decreases i,
{
    if i > 0 {
        lemma_no_claims(run, i - 1);
        assert(run.order.contains(run.order[i - 1]));
        assert(run.order.to_set().contains(run.order[i - 1]));
        assert(run.active(i - 1));
        lemma_claims_nothing(run, i - 1);
    }
}

/// Whether all the images of a hash are shown together in one group, rated.
pub open spec fn shown_together(
    groups: Seq<Seq<EntryView>>,
    table: Map<u64, Seq<EntryView>>,
    hash: u64,
) -> bool {
    exists|i: int, level: Similarity|
        0 <= i < groups.len() && level != Similarity::Unrated && #[trigger] group_has(
            groups[i],
            table[hash],
            level,
        )
}

/// Whether a group shows all the given images with the given similarity.
pub open spec fn group_has(
    group: Seq<EntryView>,
    entries: Seq<EntryView>,
    level: Similarity,
) -> bool {
    forall|n: int|
        0 <= n < entries.len() ==> group.contains(with_level(#[trigger] entries[n], level))
}

proof fn lemma_shown_together(run: Run, hash: u64)
    requires
        run.valid(),
        run.tolerance <= 4,
        run.shown(hash),
    ensures
        shown_together(run.result(), run.table, hash),
{
    let i = choose|i: int|
        0 <= i < run.order.len() && #[trigger] run.shows(i) && run.members(i).contains(hash);
    let group = run.group(i);
    law_result_is_what_visits_show(run, group);
    assert(run.result().contains(group));
    let k = choose|k: int| 0 <= k < run.result().len() && run.result()[k] == group;
    let level = level_of(hamming_distance(run.order[i], hash) as int);
    assert forall|n: int| 0 <= n < run.table[hash].len() implies group.contains(
        with_level(#[trigger] run.table[hash][n], level),
    ) by {
        law_group_entries(run, i, with_level(run.table[hash][n], level));
    }
    law_group_entries(run, i, group[0]);
    assert(run.members(i).contains(hash));
    assert(hamming_distance(run.order[i], hash) <= 4);
    assert(group_has(run.result()[k], run.table[hash], level));
}

/// Whichever way images are grouped, those with the same hash are shown, together.
pub proof fn law_grouping_shows_copies(
    groups: Seq<Seq<EntryView>>,
    table: Map<u64, Seq<EntryView>>,
    similarity: Similarity,
    hash: u64,
)
    requires
        is_grouping(groups, table, similarity),
        populated(table),
        table.contains_key(hash),
        table[hash].len() > 1,
    ensures
        shown_together(groups, table, hash),
{
    let run = lemma_run_behind(groups, table, similarity);
    law_copies_are_shown(run, hash);
    lemma_shown_together(run, hash);
}

/// Whichever way images are grouped, of two hashes that are as near as the similarity asks for,
/// the images of at least one are shown.
pub proof fn law_grouping_notices_likeness(
    groups: Seq<Seq<EntryView>>,
    table: Map<u64, Seq<EntryView>>,
    similarity: Similarity,
    a: u64,
    b: u64,
)
    requires
        is_grouping(groups, table, similarity),
        populated(table),
        table.contains_key(a),
        table.contains_key(b),
        a != b,
        hamming_distance(a, b) <= tolerance_of(similarity),
    ensures
        shown_together(groups, table, a) || shown_together(groups, table, b),
{
    let run = lemma_run_behind(groups, table, similarity);
    law_alike_images_are_noticed(run, a, b);
    if run.shown(a) {
        lemma_shown_together(run, a);
    } else {
        lemma_shown_together(run, b);
    }
}

/// Whether an entry shows an image of the table that is near the given hash, rated by how near.
pub open spec fn shows_near(
    entry: EntryView,
    table: Map<u64, Seq<EntryView>>,
    base: u64,
    similarity: Similarity,
) -> bool {
    exists|hash: u64, n: int|
        table.contains_key(hash) && 0 <= n < table[hash].len() && hamming_distance(base, hash)
            <= tolerance_of(similarity) && entry == with_level(
            #[trigger] table[hash][n],
            level_of(hamming_distance(base, hash) as int),
        )
}

/// Whichever way images are grouped, each group has at least two entries, and all of them show
/// images of the table that are near the hash of the first of them, rated by how near.
pub proof fn law_grouping_is_sound(
    groups: Seq<Seq<EntryView>>,
    table: Map<u64, Seq<EntryView>>,
    similarity: Similarity,
    i: int,
)
    requires
        is_grouping(groups, table, similarity),
        populated(table),
        0 <= i < groups.len(),
    ensures
        groups[i].len() > 1,
        exists|base: u64| #[trigger]
            table.contains_key(base) && groups[i][0] == with_level(
                table[base][0],
                Similarity::VeryHigh,
            ) && forall|j: int|
                0 <= j < groups[i].len() ==> shows_near(
                    #[trigger] groups[i][j],
                    table,
                    base,
                    similarity,
                ),
{
    let run = lemma_run_behind(groups, table, similarity);
    assert(run.result().contains(groups[i]));
    law_groups_have_company(run, groups[i]);
    law_result_is_what_visits_show(run, groups[i]);
    let k = choose|k: int|
        0 <= k < run.order.len() && #[trigger] run.shows(k) && run.group(k) == groups[i];
    let base = run.order[k];
    assert(run.order.contains(base));
    assert(run.order.to_set().contains(base));
    assert(table.contains_key(base));
    assert(groups[i][0] == marked(table[base], Similarity::VeryHigh)[0]);
    assert forall|j: int| 0 <= j < groups[i].len() implies shows_near(
        #[trigger] groups[i][j],
        table,
        base,
        similarity,
    ) by {
        let entry = groups[i][j];
        assert(run.group(k).contains(entry));
        law_group_entries(run, k, entry);
        let (hash, n) = choose|hash: u64, n: int|
            run.members(k).contains(hash) && 0 <= n < run.table[hash].len() && entry == with_level(
                #[trigger] run.table[hash][n],
                level_of(hamming_distance(run.order[k], hash) as int),
            );
        assert(table.contains_key(hash));
        assert(entry == with_level(
            table[hash][n],
            level_of(hamming_distance(base, hash) as int),
        ));
    }
}

/// Whichever way images are grouped, each group can be shown: it has at least two entries, all of
/// them rated, the first as `VeryHigh`.
pub proof fn law_groupings_can_be_shown(
    groups: Seq<Seq<EntryView>>,
    table: Map<u64, Seq<EntryView>>,
    similarity: Similarity,
    i: int,
)
    requires
        is_grouping(groups, table, similarity),
        populated(table),
        0 <= i < groups.len(),
    ensures
        is_shown_group(groups[i]),
{
    law_grouping_is_sound(groups, table, similarity, i);
    let base = choose|base: u64| #[trigger]
        table.contains_key(base) && groups[i][0] == with_level(
            table[base][0],
            Similarity::VeryHigh,
        ) && forall|j: int|
            0 <= j < groups[i].len() ==> shows_near(
                #[trigger] groups[i][j],
                table,
                base,
                similarity,
            );
    assert forall|j: int| 0 <= j < groups[i].len() implies (#[trigger] groups[i][j]).similarity
        != Similarity::Unrated by {
        assert(shows_near(groups[i][j], table, base, similarity));
    }
}

/// Whichever way images are grouped, every hash of the table that is as near to the hash of a
/// group's first entry as the similarity asks for has its images shown, in this group or in another.
pub proof fn law_neighbours_of_a_group_are_shown(
    groups: Seq<Seq<EntryView>>,
    table: Map<u64, Seq<EntryView>>,
    similarity: Similarity,
    g: int,
)
    requires
        is_grouping(groups, table, similarity),
        populated(table),
        0 <= g < groups.len(),
    ensures
        exists|base: u64| #[trigger]
            table.contains_key(base) && groups[g][0] == with_level(
                table[base][0],
                Similarity::VeryHigh,
            ) && forall|hash: u64| #[trigger]
                table.contains_key(hash) && hamming_distance(base, hash) <= tolerance_of(similarity)
                    ==> shown_together(groups, table, hash),
{
    let run = lemma_run_behind(groups, table, similarity);
    assert(run.result().contains(groups[g]));
    law_result_is_what_visits_show(run, groups[g]);
    let k = choose|k: int|
        0 <= k < run.order.len() && #[trigger] run.shows(k) && run.group(k) == groups[g];
    let base = run.order[k];
    assert(run.order.to_set().contains(base));
    assert(groups[g][0] == marked(table[base], Similarity::VeryHigh)[0]);
    law_groups_are_complete(run, k);
    assert forall|hash: u64| #[trigger]
        table.contains_key(hash) && hamming_distance(base, hash) <= tolerance_of(
            similarity,
        ) implies shown_together(groups, table, hash) by {
        if run.left(k).contains(hash) {
            assert(run.members(k).contains(hash));
        } else {
            lemma_member_before(run, hash, k);
            let i = choose|i: int| 0 <= i < k && #[trigger] run.members(i).contains(hash);
            if run.order[i] == hash {
                law_groups_are_complete(run, i);
                law_distance_symmetry(base, hash);
                lemma_left_shrinks(run, i, k);
                assert(run.members(i).contains(base));
                lemma_members(run, i);
                lemma_left_shrinks(run, i + 1, k);
            } else {
                assert(hashes_of(run.claimed(i)).contains(hash));
                lemma_claim_shows(run, i);
            }
        }
        assert(run.shown(hash));
        lemma_shown_together(run, hash);
    }
}

/// Whether no two images of the table have the same path.
pub open spec fn distinct_paths(table: Map<u64, Seq<EntryView>>) -> bool {
    forall|a: u64, m: int, b: u64, n: int|
        table.contains_key(a) && 0 <= m < table[a].len() && table.contains_key(b) && 0 <= n
            < table[b].len() && (a != b || m != n) ==> (#[trigger] table[a][m]).path.bytes != (
        #[trigger] table[b][n]).path.bytes
}

/// Whether no two entries have the same path.
spec fn unique_paths(entries: Seq<EntryView>) -> bool {
    forall|i: int, j: int|
        0 <= i < j < entries.len() ==> (#[trigger] entries[i]).path.bytes != (#[trigger] entries[j]).path.bytes
}

/// Whether a path is that of an image with one of the given hashes.
spec fn path_among(path: Seq<u8>, table: Map<u64, Seq<EntryView>>, hashes: Set<u64>) -> bool {
    exists|hash: u64, n: int|
        hashes.contains(hash) && table.contains_key(hash) && 0 <= n < table[hash].len() && (
        #[trigger] table[hash][n]).path.bytes == path
}

/// Whether all the entries show images with the given hashes.
spec fn drawn_from(
    entries: Seq<EntryView>,
    table: Map<u64, Seq<EntryView>>,
    hashes: Set<u64>,
) -> bool {
    forall|i: int|
        0 <= i < entries.len() ==> path_among((#[trigger] entries[i]).path.bytes, table, hashes)
}

proof fn lemma_disjoint_paths(
    table: Map<u64, Seq<EntryView>>,
    p: Seq<u8>,
    a: Set<u64>,
    q: Seq<u8>,
    b: Set<u64>,
)
    requires
        distinct_paths(table),
        path_among(p, table, a),
        path_among(q, table, b),
        a.disjoint(b),
    ensures
        p != q,
{
    let (h, m) = choose|h: u64, m: int|
        a.contains(h) && table.contains_key(h) && 0 <= m < table[h].len() && (
        #[trigger] table[h][m]).path.bytes == p;
    let (k, n) = choose|k: u64, n: int|
        b.contains(k) && table.contains_key(k) && 0 <= n < table[k].len() && (
        #[trigger] table[k][n]).path.bytes == q;
    assert(table[h][m].path.bytes != table[k][n].path.bytes);
}

proof fn lemma_path_among_more(
    table: Map<u64, Seq<EntryView>>,
    path: Seq<u8>,
    a: Set<u64>,
    b: Set<u64>,
)
    requires
        path_among(path, table, a),
        a.subset_of(b),
    ensures
        path_among(path, table, b),
{
    let (h, m) = choose|h: u64, m: int|
        a.contains(h) && table.contains_key(h) && 0 <= m < table[h].len() && (
        #[trigger] table[h][m]).path.bytes == path;
    assert(b.contains(h) && table[h][m].path.bytes == path);
}

proof fn lemma_join(
    table: Map<u64, Seq<EntryView>>,
    front: Seq<EntryView>,
    a: Set<u64>,
    back: Seq<EntryView>,
    b: Set<u64>,
)
    requires
        distinct_paths(table),
        unique_paths(front),
        unique_paths(back),
        drawn_from(front, table, a),
        drawn_from(back, table, b),
        a.disjoint(b),
    ensures
        unique_paths(front + back),
        drawn_from(front + back, table, a.union(b)),
{
    let all = front + back;
    assert forall|i: int| 0 <= i < all.len() implies path_among(
        (#[trigger] all[i]).path.bytes,
        table,
        a.union(b),
    ) by {
        if i < front.len() {
            assert(all[i] == front[i]);
            lemma_path_among_more(table, front[i].path.bytes, a, a.union(b));
        } else {
            assert(all[i] == back[i - front.len()]);
            lemma_path_among_more(table, back[i - front.len()].path.bytes, b, a.union(b));
        }
    }
    assert forall|i: int, j: int| 0 <= i < j < all.len() implies (#[trigger] all[i]).path.bytes != (
    #[trigger] all[j]).path.bytes by {
        if j < front.len() {
            assert(front[i].path.bytes != front[j].path.bytes);
        } else if i >= front.len() {
            assert(back[i - front.len()].path.bytes != back[j - front.len()].path.bytes);
        } else {
            assert(path_among(front[i].path.bytes, table, a));
            assert(path_among(back[j - front.len()].path.bytes, table, b));
            lemma_disjoint_paths(table, front[i].path.bytes, a, back[j - front.len()].path.bytes, b);
        }
    }
}

proof fn lemma_marked_paths(table: Map<u64, Seq<EntryView>>, hash: u64, level: Similarity)
    requires
        distinct_paths(table),
        table.contains_key(hash),
    ensures
        unique_paths(marked(table[hash], level)),
        drawn_from(marked(table[hash], level), table, Set::empty().insert(hash)),
{
    let entries = marked(table[hash], level);
    assert forall|i: int| 0 <= i < entries.len() implies path_among(
        (#[trigger] entries[i]).path.bytes,
        table,
        Set::empty().insert(hash),
    ) by {
        assert(table[hash][i].path.bytes == entries[i].path.bytes);
    }
    assert forall|i: int, j: int| 0 <= i < j < entries.len() implies (#[trigger] entries[i]).path.bytes
        != (#[trigger] entries[j]).path.bytes by {
        assert(table[hash][i].path.bytes != table[hash][j].path.bytes);
    }
}

proof fn lemma_claimed_paths(
    table: Map<u64, Seq<EntryView>>,
    found: Seq<(u64, u64)>,
    available: Set<u64>,
)
    requires
        distinct_paths(table),
        available.subset_of(table.dom()),
    ensures
        unique_paths(claimed_entries(table, claims(found, available))),
        drawn_from(
            claimed_entries(table, claims(found, available)),
            table,
            hashes_of(claims(found, available)),
        ),
    decreases found.len(),
{
    if found.len() > 0 {
        let shorter = found.drop_last();
        let before = claims(shorter, available);
        let pair = found.last();
        lemma_claimed_paths(table, shorter, available);
        if available.contains(pair.1) && !hashes_of(before).contains(pair.1) {
            lemma_marked_paths(table, pair.1, level_of(pair.0 as int));
            lemma_join(
                table,
                claimed_entries(table, before),
                hashes_of(before),
                marked(table[pair.1], level_of(pair.0 as int)),
                Set::empty().insert(pair.1),
            );
            lemma_hashes_of_push(before, pair);
            assert(before.push(pair).drop_last() =~= before);
            assert(hashes_of(before).union(Set::empty().insert(pair.1)) =~= hashes_of(
                before.push(pair),
            ));
        }
    }
}

proof fn lemma_group_paths(run: Run, i: int)
    requires
        distinct_paths(run.table),
        0 <= i,
        run.active(i),
    ensures
        unique_paths(run.group(i)),
        drawn_from(run.group(i), run.table, run.members(i)),
{
    let base = run.order[i];
    let available = run.left(i).remove(base);
    lemma_left_shrinks(run, 0, i);
    lemma_marked_paths(run.table, base, Similarity::VeryHigh);
    lemma_claimed_paths(run.table, run.answers[i], available);
    lemma_claims(run.answers[i], available);
    lemma_join(
        run.table,
        marked(run.table[base], Similarity::VeryHigh),
        Set::empty().insert(base),
        claimed_entries(run.table, run.claimed(i)),
        hashes_of(run.claimed(i)),
    );
    assert(Set::empty().insert(base).union(hashes_of(run.claimed(i))) =~= run.members(i));
}

proof fn lemma_groups_paths(run: Run, n: int)
    requires
        distinct_paths(run.table),
        0 <= n,
    ensures
        forall|g: int|
            0 <= g < run.groups(n).len() ==> unique_paths(#[trigger] run.groups(n)[g])
                && drawn_from(
                run.groups(n)[g],
                run.table,
                run.table.dom().difference(run.left(n)),
            ),
        forall|g: int, i: int, h: int, j: int|
            0 <= g < h < run.groups(n).len() && 0 <= i < run.groups(n)[g].len() && 0 <= j
                < run.groups(n)[h].len() ==> (#[trigger] run.groups(n)[g][i]).path.bytes != (
            #[trigger] run.groups(n)[h][j]).path.bytes,
    decreases n,
{
    if n > 0 {
        lemma_groups_paths(run, n - 1);
        lemma_members(run, n - 1);
        lemma_left_shrinks(run, 0, n - 1);
        let before = run.groups(n - 1);
        let after = run.groups(n);
        let dom = run.table.dom();
        let taken = dom.difference(run.left(n - 1));
        if run.shows(n - 1) {
            lemma_group_paths(run, n - 1);
        }
        assert forall|g: int| 0 <= g < after.len() implies unique_paths(#[trigger] after[g])
            && drawn_from(after[g], run.table, dom.difference(run.left(n))) by {
            let hashes = if g < before.len() {
                assert(after[g] == before[g]);
                taken
            } else {
                run.members(n - 1)
            };
            assert forall|i: int| 0 <= i < after[g].len() implies path_among(
                (#[trigger] after[g][i]).path.bytes,
                run.table,
                dom.difference(run.left(n)),
            ) by {
                assert(hashes.subset_of(dom.difference(run.left(n))));
                lemma_path_among_more(
                    run.table,
                    after[g][i].path.bytes,
                    hashes,
                    dom.difference(run.left(n)),
                );
            }
        }
        assert forall|g: int, i: int, h: int, j: int|
            0 <= g < h < after.len() && 0 <= i < after[g].len() && 0 <= j
                < after[h].len() implies (#[trigger] after[g][i]).path.bytes != (
        #[trigger] after[h][j]).path.bytes by {
            assert(after[g] == before[g]);
            if h < before.len() {
                assert(after[h] == before[h]);
                assert(before[g][i].path.bytes != before[h][j].path.bytes);
            } else {
                assert(drawn_from(before[g], run.table, taken));
                assert(path_among(before[g][i].path.bytes, run.table, taken));
                assert(path_among(after[h][j].path.bytes, run.table, run.members(n - 1)));
                lemma_disjoint_paths(
                    run.table,
                    before[g][i].path.bytes,
                    taken,
                    after[h][j].path.bytes,
                    run.members(n - 1),
                );
            }
        }
    }
}

/// Whichever way images are grouped, no file is shown twice, provided that each was hashed only
/// once.
pub proof fn law_grouping_shows_no_file_twice(
    groups: Seq<Seq<EntryView>>,
    table: Map<u64, Seq<EntryView>>,
    similarity: Similarity,
    g: int,
    i: int,
    h: int,
    j: int,
)
    requires
        is_grouping(groups, table, similarity),
        distinct_paths(table),
        0 <= g < groups.len(),
        0 <= i < groups[g].len(),
        0 <= h < groups.len(),
        0 <= j < groups[h].len(),
        groups[g][i].path.bytes == groups[h][j].path.bytes,
    ensures
        g == h,
        i == j,
{
    let run = lemma_run_behind(groups, table, similarity);
    lemma_groups_paths(run, run.order.len() as int);
    assert(unique_paths(groups[g]));
    if g < h {
        assert(groups[g][i].path.bytes != groups[h][j].path.bytes);
    } else if h < g {
        assert(groups[h][j].path.bytes != groups[g][i].path.bytes);
    } else if i < j {
        assert(groups[g][i].path.bytes != groups[g][j].path.bytes);
    } else if j < i {
        assert(groups[g][j].path.bytes != groups[g][i].path.bytes);
    }
}

} // verus!
