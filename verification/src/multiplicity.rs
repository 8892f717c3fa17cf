//! No image is shown more often than it is there.

use vstd::prelude::*;
use vstd::multiset::Multiset;
use vstd::seq_lib::lemma_multiset_commutative;
use crate::entry::marked;
use crate::entry::EntryView;
use crate::grouping::claimed_entries;
use crate::grouping::claims;
use crate::grouping::hashes_of;
use crate::grouping::lemma_hashes_of_push;
use crate::laws::lemma_left_shrinks;
use crate::run::is_grouping;
use crate::run::lemma_run_behind;
use crate::run::Run;
use crate::similarity::level_of;
use crate::similarity::Similarity;

verus! {

/// The entries, whatever their similarity, each as often as it occurs.
pub open spec fn bag(entries: Seq<EntryView>) -> Multiset<EntryView> {
    marked(entries, Similarity::Unrated).to_multiset()
}

/// The entries of all the groups, whatever their similarity.
pub open spec fn shown_bag(groups: Seq<Seq<EntryView>>) -> Multiset<EntryView>
    decreases groups.len(),
{
    if groups.len() == 0 {
        Multiset::empty()
    } else {
        shown_bag(groups.drop_last()).add(bag(groups.last()))
    }
}

/// The images of the given hashes, whatever their similarity.
pub open spec fn image_bag(table: Map<u64, Seq<EntryView>>, hashes: Seq<u64>) -> Multiset<EntryView>
    decreases hashes.len(),
{
    if hashes.len() == 0 {
        Multiset::empty()
    } else {
        image_bag(table, hashes.drop_last()).add(bag(table[hashes.last()]))
    }
}

/// The images of those of the given hashes that are in a set.
spec fn bag_within(
    table: Map<u64, Seq<EntryView>>,
    hashes: Seq<u64>,
    set: Set<u64>,
) -> Multiset<EntryView>
    decreases hashes.len(),
{
    if hashes.len() == 0 {
        Multiset::empty()
    } else {
        let before = bag_within(table, hashes.drop_last(), set);
        if set.contains(hashes.last()) {
            before.add(bag(table[hashes.last()]))
        } else {
            before
        }
    }
}

proof fn lemma_bag_of_marked(entries: Seq<EntryView>, level: Similarity)
    ensures
        bag(marked(entries, level)) == bag(entries),
{
    assert(marked(marked(entries, level), Similarity::Unrated) =~= marked(
        entries,
        Similarity::Unrated,
    ));
}

proof fn lemma_bag_of_both(front: Seq<EntryView>, back: Seq<EntryView>)
    ensures
        bag(front + back) == bag(front).add(bag(back)),
{
    assert(marked(front + back, Similarity::Unrated) =~= marked(front, Similarity::Unrated)
        + marked(back, Similarity::Unrated));
    lemma_multiset_commutative(
        marked(front, Similarity::Unrated),
        marked(back, Similarity::Unrated),
    );
}

/// A hash outside the list makes no difference.
proof fn lemma_other_hash(
    table: Map<u64, Seq<EntryView>>,
    hashes: Seq<u64>,
    set: Set<u64>,
    hash: u64,
)
    requires
        !hashes.contains(hash),
    ensures
        bag_within(table, hashes, set.remove(hash)) == bag_within(table, hashes, set),
    decreases hashes.len(),
{
    if hashes.len() > 0 {
        let shorter = hashes.drop_last();
        assert forall|i: int| 0 <= i < shorter.len() implies shorter[i] != hash by {
            assert(hashes[i] == shorter[i]);
        }
        lemma_other_hash(table, shorter, set, hash);
        assert(hashes[hashes.len() - 1] != hash);
    }
}

/// Taking a hash out of the set takes its images out of the bag.
proof fn lemma_hash_taken(
    table: Map<u64, Seq<EntryView>>,
    hashes: Seq<u64>,
    set: Set<u64>,
    hash: u64,
)
    requires
        hashes.no_duplicates(),
        hashes.contains(hash),
        set.contains(hash),
    ensures
        bag_within(table, hashes, set) == bag_within(table, hashes, set.remove(hash)).add(
            bag(table[hash]),
        ),
    decreases hashes.len(),
{
    let shorter = hashes.drop_last();
    if hashes.last() == hash {
        assert forall|i: int| 0 <= i < shorter.len() implies shorter[i] != hash by {
            assert(hashes[i] == shorter[i]);
            assert(hashes[hashes.len() - 1] == hash);
        }
        lemma_other_hash(table, shorter, set, hash);
    } else {
        let k = choose|k: int| 0 <= k < hashes.len() && hashes[k] == hash;
        assert(shorter[k] == hash);
        lemma_hash_taken(table, shorter, set, hash);
    }
    assert(bag_within(table, hashes, set) =~= bag_within(table, hashes, set.remove(hash)).add(
        bag(table[hash]),
    ));
}

/// What a claim takes out of the set is what it adds to the group.
proof fn lemma_claims_taken(
    table: Map<u64, Seq<EntryView>>,
    hashes: Seq<u64>,
    found: Seq<(u64, u64)>,
    available: Set<u64>,
)
    requires
        hashes.no_duplicates(),
        available.subset_of(hashes.to_set()),
    ensures
        bag_within(table, hashes, available) == bag_within(
            table,
            hashes,
            available.difference(hashes_of(claims(found, available))),
        ).add(bag(claimed_entries(table, claims(found, available)))),
    decreases found.len(),
{
    let claimed = claims(found, available);
    let left = available.difference(hashes_of(claimed));
    if found.len() == 0 {
        assert(left =~= available);
        assert(marked(claimed_entries(table, claimed), Similarity::Unrated) =~= Seq::empty());
        vstd::seq_lib::to_multiset_len(marked(claimed_entries(table, claimed), Similarity::Unrated));
        assert(bag(claimed_entries(table, claimed)) =~= Multiset::empty());
        assert(bag_within(table, hashes, available) =~= bag_within(table, hashes, left).add(
            Multiset::empty(),
        ));
    } else {
        let before = claims(found.drop_last(), available);
        let pair = found.last();
        lemma_claims_taken(table, hashes, found.drop_last(), available);
        if available.contains(pair.1) && !hashes_of(before).contains(pair.1) {
            let earlier = available.difference(hashes_of(before));
            let more = marked(table[pair.1], level_of(pair.0 as int));
            assert(before.push(pair).drop_last() =~= before);
            lemma_hashes_of_push(before, pair);
            assert(left =~= earlier.remove(pair.1));
            assert(hashes.to_set().contains(pair.1));
            lemma_hash_taken(table, hashes, earlier, pair.1);
            lemma_bag_of_marked(table[pair.1], level_of(pair.0 as int));
            lemma_bag_of_both(claimed_entries(table, before), more);
            assert(bag_within(table, hashes, available) =~= bag_within(table, hashes, left).add(
                bag(claimed_entries(table, claimed)),
            ));
        }
    }
}

/// What a visit takes out of the set is what its group shows.
proof fn lemma_visit_taken(run: Run, hashes: Seq<u64>, i: int)
    requires
        0 <= i,
        run.active(i),
        hashes.no_duplicates(),
        hashes.to_set() == run.table.dom(),
    ensures
        bag_within(run.table, hashes, run.left(i)) == bag_within(
            run.table,
            hashes,
            run.left(i + 1),
        ).add(bag(run.group(i))),
{
    let base = run.order[i];
    let available = run.left(i).remove(base);
    let front = marked(run.table[base], Similarity::VeryHigh);
    lemma_left_shrinks(run, 0, i);
    assert(hashes.to_set().contains(base));
    lemma_hash_taken(run.table, hashes, run.left(i), base);
    lemma_claims_taken(run.table, hashes, run.answers[i], available);
    lemma_bag_of_marked(run.table[base], Similarity::VeryHigh);
    lemma_bag_of_both(front, claimed_entries(run.table, run.claimed(i)));
    assert(bag_within(run.table, hashes, run.left(i)) =~= bag_within(
        run.table,
        hashes,
        run.left(i + 1),
    ).add(bag(run.group(i))));
}

/// What is shown and what is left are together no more than what is there.
proof fn lemma_shown_and_left(run: Run, hashes: Seq<u64>, n: int)
    requires
        0 <= n,
        hashes.no_duplicates(),
        hashes.to_set() == run.table.dom(),
    ensures
        shown_bag(run.groups(n)).add(bag_within(run.table, hashes, run.left(n))).subset_of(
            bag_within(run.table, hashes, run.table.dom()),
        ),
    decreases n,
{
    if n > 0 {
        lemma_shown_and_left(run, hashes, n - 1);
        if run.active(n - 1) {
            lemma_visit_taken(run, hashes, n - 1);
            if run.shows(n - 1) {
                assert(run.groups(n).drop_last() =~= run.groups(n - 1));
            }
        }
    }
}

proof fn lemma_bag_of_all(table: Map<u64, Seq<EntryView>>, hashes: Seq<u64>, set: Set<u64>)
    requires
        forall|i: int| 0 <= i < hashes.len() ==> set.contains(#[trigger] hashes[i]),
    ensures
        bag_within(table, hashes, set) == image_bag(table, hashes),
    decreases hashes.len(),
{
    if hashes.len() > 0 {
        assert forall|i: int| 0 <= i < hashes.drop_last().len() implies set.contains(
            #[trigger] hashes.drop_last()[i],
        ) by {
            assert(hashes[i] == hashes.drop_last()[i]);
        }
        lemma_bag_of_all(table, hashes.drop_last(), set);
        assert(set.contains(hashes[hashes.len() - 1]));
    }
}

/// Whichever way images are grouped, no image is shown more often than it is in the table. The
/// table's hashes may be listed in any order.
pub proof fn law_grouping_shows_no_image_twice(
    groups: Seq<Seq<EntryView>>,
    table: Map<u64, Seq<EntryView>>,
    similarity: Similarity,
    hashes: Seq<u64>,
)
    requires
        is_grouping(groups, table, similarity),
        hashes.no_duplicates(),
        hashes.to_set() == table.dom(),
    ensures
        shown_bag(groups).subset_of(image_bag(table, hashes)),
{
    let run = lemma_run_behind(groups, table, similarity);
    lemma_shown_and_left(run, hashes, run.order.len() as int);
    assert forall|i: int| 0 <= i < hashes.len() implies table.dom().contains(
        #[trigger] hashes[i],
    ) by {
        assert(hashes.to_set().contains(hashes[i]));
    }
    lemma_bag_of_all(table, hashes, table.dom());
}

} // verus!
