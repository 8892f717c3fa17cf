use vstd::prelude::*;
use std::collections::HashMap;
use std::collections::HashSet;
use bk_tree::BKTree;
use vstd::multiset::Multiset;
use crate::distance::hamming_distance;
use crate::distance::law_distance_identity;
use crate::distance::Hamming;
use crate::entry::append_marked;
use crate::entry::entry_views;
use crate::entry::group_views;
use crate::entry::marked;
use crate::entry::table_view;
use crate::entry::EntryView;
use crate::entry::FileEntry;
use crate::hash_tree::find_keys;
use crate::hash_tree::is_search_result;
use crate::hash_tree::tree_keys;
use crate::run::is_answer;
use crate::run::is_visit;
use crate::run::lemma_run_prefix;
use crate::run::visited;
use crate::run::GroupingView;
use crate::run::Run;
use crate::similarity::level_of;
use crate::similarity::similarity_for_distance;
use crate::similarity::Similarity;

verus! {

broadcast use vstd::std_specs::hash::group_hash_axioms;

/// The hashes in a list of pairs of a distance and a hash.
pub open spec fn hashes_of(pairs: Seq<(u64, u64)>) -> Set<u64> {
    Set::new(|hash: u64| exists|i: int| 0 <= i < pairs.len() && (#[trigger] pairs[i]).1 == hash)
}

/// The pairs whose hashes a group takes, in the order in which they were found: those whose hash
/// is still to be had, each hash the first time that it occurs.
pub open spec fn claims(found: Seq<(u64, u64)>, available: Set<u64>) -> Seq<(u64, u64)>
    decreases found.len(),
{
    if found.len() == 0 {
        Seq::empty()
    } else {
        let before = claims(found.drop_last(), available);
        let pair = found.last();
        if available.contains(pair.1) && !hashes_of(before).contains(pair.1) {
            before.push(pair)
        } else {
            before
        }
    }
}

/// The images of the claimed hashes, each with the similarity that its distance stands for.
pub open spec fn claimed_entries(
    table: Map<u64, Seq<EntryView>>,
    claimed: Seq<(u64, u64)>,
) -> Seq<EntryView>
    decreases claimed.len(),
{
    if claimed.len() == 0 {
        Seq::empty()
    } else {
        claimed_entries(table, claimed.drop_last()) + marked(
            table[claimed.last().1],
            level_of(claimed.last().0 as int),
        )
    }
}

/// A group: first the images that have the hash of its base, then those of the claimed hashes.
pub open spec fn gathered(
    table: Map<u64, Seq<EntryView>>,
    base: u64,
    claimed: Seq<(u64, u64)>,
) -> Seq<EntryView> {
    marked(table[base], Similarity::VeryHigh) + claimed_entries(table, claimed)
}

pub(crate) proof fn lemma_hashes_of_push(pairs: Seq<(u64, u64)>, pair: (u64, u64))
    ensures
        hashes_of(pairs.push(pair)) == hashes_of(pairs).insert(pair.1),
{
    let longer = pairs.push(pair);
    assert forall|hash: u64| hashes_of(longer).contains(hash) <==> hashes_of(pairs).insert(
        pair.1,
    ).contains(hash) by {
        if hashes_of(pairs).contains(hash) {
            let i = choose|i: int| 0 <= i < pairs.len() && (#[trigger] pairs[i]).1 == hash;
            assert(longer[i].1 == hash);
        }
        if hash == pair.1 {
            assert(longer[pairs.len() as int].1 == hash);
        }
        if hashes_of(longer).contains(hash) {
            let i = choose|i: int| 0 <= i < longer.len() && (#[trigger] longer[i]).1 == hash;
            if i < pairs.len() {
                assert(pairs[i].1 == hash);
            }
        }
    }
    assert(hashes_of(longer) =~= hashes_of(pairs).insert(pair.1));
}

/// Makes the group of the images that are like those with the given hash.
///
/// `found` are the hashes near the given one, with their distances. The group takes the given
/// hash and each of the found ones that no group has taken yet out of `hashes_to_check`.
pub fn gather_group(
    hash: u64,
    table: &HashMap<u64, Vec<FileEntry>>,
    hashes_to_check: &mut HashSet<u64>,
    found: &Vec<(u64, u64)>,
) -> (group: Vec<FileEntry>)
    requires
        table@.contains_key(hash),
        old(hashes_to_check)@.subset_of(table@.dom()),
        forall|i: int| 0 <= i < found@.len() ==> (#[trigger] found@[i]).0 <= 4,
        forall|i: int|
            0 <= i < found@.len() && (#[trigger] found@[i]).1 == hash ==> found@[i].0 == 0,
    ensures
        entry_views(group@) == gathered(
            table_view(table@),
            hash,
            claims(found@, old(hashes_to_check)@.remove(hash)),
        ),
        final(hashes_to_check)@ == old(hashes_to_check)@.remove(hash).difference(
            hashes_of(claims(found@, old(hashes_to_check)@.remove(hash))),
        ),
{
    let ghost view = table_view(table@);
    hashes_to_check.remove(&hash);
    let ghost available = hashes_to_check@;

    let mut group: Vec<FileEntry> = Vec::new();
    let base = table.get(&hash).unwrap();
    append_marked(&mut group, base, Similarity::VeryHigh);
    proof {
        assert(found@.take(0) =~= Seq::empty());
        assert(claims(found@.take(0), available) =~= Seq::empty());
        assert(hashes_to_check@ =~= available.difference(hashes_of(Seq::empty())));
        assert(entry_views(group@) =~= gathered(view, hash, Seq::empty()));
    }

    let mut i: usize = 0;
    while i < found.len()
        invariant
            i <= found.len(),
            view == table_view(table@),
            !available.contains(hash),
            available.subset_of(table@.dom()),
            forall|i: int| 0 <= i < found@.len() ==> (#[trigger] found@[i]).0 <= 4,
            entry_views(group@) == gathered(view, hash, claims(found@.take(i as int), available)),
            hashes_to_check@ == available.difference(
                hashes_of(claims(found@.take(i as int), available)),
            ),
        decreases found.len() - i,
    {
        let (distance, similar_hash) = found[i];
        let ghost before = claims(found@.take(i as int), available);
        proof {
            assert(found@.take(i + 1).drop_last() =~= found@.take(i as int));
            assert(found@.take(i + 1).last() == found@[i as int]);
        }
        if similar_hash != hash && hashes_to_check.contains(&similar_hash) {
            let entries = table.get(&similar_hash).unwrap();
            let ghost so_far = entry_views(group@);
            append_marked(&mut group, entries, similarity_for_distance(distance));
            hashes_to_check.remove(&similar_hash);
            proof {
                let pair = found@[i as int];
                lemma_hashes_of_push(before, pair);
                assert(before.push(pair).drop_last() =~= before);
                assert(hashes_to_check@ =~= available.difference(hashes_of(before.push(pair))));
                assert(entry_views(group@) =~= gathered(view, hash, before.push(pair)));
            }
        }
        i += 1;
    }
    assert(found@.take(i as int) =~= found@);
    group
}

/// The answer of the search tree is an answer on the hashes that the tree holds.
proof fn lemma_search_result_is_answer(
    found: Seq<(u64, u64)>,
    keys: Multiset<u64>,
    hashes: Set<u64>,
    hash: u64,
    tolerance: u64,
)
    requires
        is_search_result(found, keys, hash, tolerance),
        holds_exactly(keys, hashes),
    ensures
        is_answer(found, hashes, hash, tolerance),
        forall|i: int| 0 <= i < found.len() ==> (#[trigger] found[i]).1 == hash ==> found[i].0 == 0,
{
    broadcast use vstd::seq_lib::group_to_multiset_ensures;

    assert forall|i: int| 0 <= i < found.len() implies {
        &&& hashes.contains((#[trigger] found[i]).1)
        &&& found[i].0 == hamming_distance(hash, found[i].1)
        &&& found[i].0 <= tolerance
    } by {
        assert(found.contains(found[i]));
        assert(found.to_multiset().count((found[i].0, found[i].1)) > 0);
        assert(keys.count(found[i].1) > 0);
    }
    assert forall|near: u64|
        hashes.contains(near) && hamming_distance(hash, near) <= tolerance implies hashes_of(
        found,
    ).contains(near) by {
        let distance = hamming_distance(hash, near) as u64;
        assert(keys.count(near) > 0);
        assert(found.to_multiset().count((distance, near)) > 0);
        assert(found.contains((distance, near)));
        let i = choose|i: int| 0 <= i < found.len() && found[i] == (distance, near);
        assert(found[i].1 == near);
    }
    assert forall|i: int| 0 <= i < found.len() && (#[trigger] found[i]).1 == hash implies found[i].0
        == 0 by {
        law_distance_identity(hash, hash);
    }
}

/// One more visit whose search, if there was one, was answered as it should keeps a run possible.
pub(crate) proof fn lemma_possible_step(earlier: Run, run: Run, i: int)
    requires
        earlier.possible(i),
        i < earlier.order.len(),
        run.table == earlier.table,
        run.tolerance == earlier.tolerance,
        run.order == earlier.order,
        earlier.answers.len() == i,
        run.answers.len() == i + 1,
        run.answers.take(i) =~= earlier.answers,
        run.active(i) ==> is_answer(
            run.answers[i],
            run.table.dom(),
            run.order[i],
            run.tolerance,
        ),
    ensures
        run.possible(i + 1),
{
    assert forall|k: int| 0 <= k < i + 1 && #[trigger] run.active(k) implies is_answer(
        run.answers[k],
        run.table.dom(),
        run.order[k],
        run.tolerance,
    ) by {
        if k < i {
            assert forall|m: int| 0 <= m < i implies earlier.answers[m] == run.answers[m] by {
                assert(run.answers.take(i)[m] == run.answers[m]);
            }
            lemma_run_prefix(earlier, run, k);
            assert(earlier.active(k));
        }
    }
}

/// A single image whose hash has no other near it claims nothing and makes no group.
proof fn lemma_alone(
    before: GroupingView,
    table: Map<u64, Seq<EntryView>>,
    tolerance: u64,
    hash: u64,
    found: Seq<(u64, u64)>,
)
    requires
        before.left.contains(hash),
        is_answer(found, table.dom(), hash, tolerance),
        found.len() == 1,
        table.contains_key(hash),
        table[hash].len() == 1,
    ensures
        visited(before, table, hash, found) == (GroupingView {
            left: before.left.remove(hash),
            ..before
        }),
{
    law_distance_identity(hash, hash);
    assert(hashes_of(found).contains(hash));
    assert(found[0].1 == hash);
    let available = before.left.remove(hash);
    assert(found.drop_last() =~= Seq::empty());
    assert(claims(found.drop_last(), available) =~= Seq::empty());
    assert(claims(found, available) =~= Seq::empty());
    assert(available.difference(hashes_of(claims(found, available))) =~= available);
    assert(gathered(table, hash, claims(found, available)).len() == 1);
}

/// Whether the tree holds each of the given hashes, and no other.
pub open spec fn holds_exactly(keys: Multiset<u64>, hashes: Set<u64>) -> bool {
    forall|hash: u64| #[trigger] keys.count(hash) > 0 <==> hashes.contains(hash)
}

/// What the visits so far have left and given.
pub struct Grouping {
    /// The hashes that no group has taken.
    pub hashes_to_check: HashSet<u64>,
    /// The groups of more than one image.
    pub groups: Vec<Vec<FileEntry>>,
}

impl View for Grouping {
    type V = GroupingView;

    open spec fn view(&self) -> GroupingView {
        GroupingView { left: self.hashes_to_check@, groups: group_views(self.groups@) }
    }
}

impl Grouping {
    /// Before the first visit all the hashes are left, and there are no groups.
    pub fn new(hashes: &Vec<u64>) -> (grouping: Grouping)
        ensures
            grouping@ == (GroupingView { left: hashes@.to_set(), groups: Seq::empty() }),
    {
        let mut hashes_to_check: HashSet<u64> = HashSet::new();
        let mut i: usize = 0;
        while i < hashes.len()
            invariant
                i <= hashes.len(),
                hashes_to_check@ == hashes@.take(i as int).to_set(),
            decreases hashes.len() - i,
        {
            hashes_to_check.insert(hashes[i]);
            proof {
                let shorter = hashes@.take(i as int);
                let longer = hashes@.take(i + 1);
                assert(longer =~= shorter.push(hashes@[i as int]));
                assert forall|hash: u64| #[trigger]
                    shorter.to_set().insert(hashes@[i as int]).contains(
                        hash,
                    ) <==> longer.contains(hash) by {
                    if shorter.contains(hash) {
                        let k = choose|k: int| 0 <= k < shorter.len() && shorter[k] == hash;
                        assert(longer[k] == hash);
                    }
                    assert(longer[i as int] == hashes@[i as int]);
                }
                assert(hashes_to_check@ =~= longer.to_set());
            }
            i += 1;
        }
        assert(hashes@.take(i as int) =~= hashes@);
        let grouping = Grouping { hashes_to_check, groups: Vec::new() };
        assert(grouping@ =~= (GroupingView { left: hashes@.to_set(), groups: Seq::empty() }));
        grouping
    }
}

/// Visits a hash, unless the grouping has to stop; the result tells whether it goes on.
pub(crate) fn visit_hash(
    table: &HashMap<u64, Vec<FileEntry>>,
    tree: &BKTree<u64, Hamming>,
    tolerance: u64,
    hash: u64,
    grouping: &mut Grouping,
    stop: bool,
) -> (going_on: bool)
    requires
        tolerance <= 4,
        holds_exactly(tree_keys(*tree), table@.dom()),
        table@.contains_key(hash),
        old(grouping)@.left.subset_of(table@.dom()),
    ensures
        going_on == !stop,
        stop ==> final(grouping)@ == old(grouping)@,
        !stop ==> is_visit(
            old(grouping)@,
            final(grouping)@,
            table_view(table@),
            tolerance,
            hash,
        ),
{
    let ghost before = grouping@;
    let ghost view = table_view(table@);
    if stop {
        return false;
    }
    if !grouping.hashes_to_check.contains(&hash) {
        assert(visited(before, view, hash, Seq::empty()) == before);
        return true;
    }
    let vector_with_found_similar_hashes = find_keys(tree, hash, tolerance);
    let ghost found = vector_with_found_similar_hashes@;
    proof {
        assert(view.dom() =~= table@.dom());
        lemma_search_result_is_answer(found, tree_keys(*tree), table@.dom(), hash, tolerance);
    }
    let vec_file_entry = table.get(&hash).unwrap();
    if vector_with_found_similar_hashes.len() == 1 && vec_file_entry.len() == 1 {
        // This one picture has no similar pictures.
        grouping.hashes_to_check.remove(&hash);
        proof {
            lemma_alone(before, view, tolerance, hash, found);
            assert(grouping@ =~= visited(before, view, hash, found));
        }
        return true;
    }
    let vector_of_similar_images = gather_group(
        hash,
        table,
        &mut grouping.hashes_to_check,
        &vector_with_found_similar_hashes,
    );
    if vector_of_similar_images.len() > 1 {
        grouping.groups.push(vector_of_similar_images);
    }
    assert(grouping@ =~= visited(before, view, hash, found));
    true
}

} // verus!
