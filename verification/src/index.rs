use vstd::prelude::*;
use bk_tree::BKTree;
use crossbeam_channel::Receiver;
use std::collections::HashMap;
use crate::distance::Hamming;
use crate::entry::entry_views;
use crate::entry::group_views;
use crate::entry::table_view;
use crate::entry::EntryView;
use crate::entry::FileEntry;
use crate::grouping::holds_exactly;
use crate::grouping::lemma_possible_step;
use crate::grouping::visit_hash;
use crate::grouping::Grouping;
use crate::hash_tree::add_key;
use crate::hash_tree::new_tree;
use crate::hash_tree::tree_keys;
use crate::run::is_answer;
use crate::run::is_visit;
use crate::run::lemma_run_prefix;
use crate::run::populated;
use crate::run::visited;
use crate::run::Run;
use crate::stop::law_a_stop_takes_a_message;
use crate::stop::look_answers;
use crate::stop::stop_before;

verus! {

broadcast use vstd::std_specs::hash::group_hash_axioms;

/// Images by their hashes, with a tree for searching the hashes near a given one.
pub struct ImageIndex {
    bktree: BKTree<u64, Hamming>,
    image_hashes: HashMap<u64, Vec<FileEntry>>,
}

impl View for ImageIndex {
    type V = Map<u64, Seq<EntryView>>;

    closed spec fn view(&self) -> Map<u64, Seq<EntryView>> {
        table_view(self.image_hashes@)
    }
}

/// The images by their hashes, after one more image was added: it comes last among those that
/// have its hash.
pub open spec fn with_image(
    table: Map<u64, Seq<EntryView>>,
    entry: EntryView,
    hash: u64,
) -> Map<u64, Seq<EntryView>> {
    let others = if table.contains_key(hash) {
        table[hash]
    } else {
        Seq::empty()
    };
    table.insert(hash, others.push(entry))
}

impl ImageIndex {
    /// The tree holds exactly the hashes of the images, and every hash has an image.
    pub closed spec fn well_formed(self) -> bool {
        &&& holds_exactly(tree_keys(self.bktree), self.image_hashes@.dom())
        &&& populated(self@)
    }

    /// An index without images.
    pub fn new() -> (index: ImageIndex)
        ensures
            index.well_formed(),
            index@ == Map::<u64, Seq<EntryView>>::empty(),
    {
        let index = ImageIndex { bktree: new_tree(), image_hashes: HashMap::new() };
        assert(index@ =~= Map::<u64, Seq<EntryView>>::empty());
        index
    }

    /// Adds an image.
    pub fn add_image(&mut self, entry: FileEntry, hash: u64)
        requires
            old(self).well_formed(),
        ensures
            final(self).well_formed(),
            final(self)@ == with_image(old(self)@, entry@, hash),
    {
        let ghost before = self.image_hashes@;
        add_key(&mut self.bktree, hash);
        let entries = self.image_hashes.entry(hash).or_insert(Vec::new());
        let ghost others = entries@;
        entries.push(entry);
        proof {
            assert(self.image_hashes@ == before.insert(hash, self.image_hashes@[hash]));
            assert(self.image_hashes@[hash]@ == others.push(entry));
            assert(entry_views(others.push(entry)) =~= entry_views(others).push(entry@));
            assert(entry_views(Seq::<FileEntry>::empty()) =~= Seq::<EntryView>::empty());
            assert(self@ =~= with_image(old(self)@, entry@, hash));
        }
    }

    /// The number of different hashes.
    pub fn len(&self) -> (len: usize)
        ensures
            len == self@.dom().len(),
    {
        assert(self@.dom() =~= self.image_hashes@.dom());
        self.image_hashes.len()
    }

    /// The hashes of the images, each once. Their order is that of a hash map: it differs from
    /// one process to the next.
    pub fn hashes(&self) -> (order: Vec<u64>)
        ensures
            order@.no_duplicates(),
            order@.to_set() == self@.dom(),
    {
        let mut order: Vec<u64> = Vec::new();
        for hash in keys: self.image_hashes.keys()
            invariant
                order@.len() == keys.index(),
                keys.seq().unref().to_set() == self.image_hashes@.dom(),
                order@ == keys.seq().unref().take(keys.index()),
                keys.index() == keys.seq().len() ==> order@ == keys.seq().unref(),
        {
            order.push(*hash);
        }
        proof {
            assert(self@.dom() =~= self.image_hashes@.dom());
        }
        order
    }

    /// Visits a hash, unless the grouping has to stop; the result tells whether it goes on.
    pub fn visit(&self, tolerance: u64, hash: u64, grouping: &mut Grouping, stop: bool) -> (going_on:
        bool)
        requires
            self.well_formed(),
            tolerance <= 4,
            self@.contains_key(hash),
            old(grouping)@.left.subset_of(self@.dom()),
        ensures
            going_on == !stop,
            stop ==> final(grouping)@ == old(grouping)@,
            !stop ==> is_visit(old(grouping)@, final(grouping)@, self@, tolerance, hash),
    {
        assert(self@.dom() =~= self.image_hashes@.dom());
        visit_hash(&self.image_hashes, &self.bktree, tolerance, hash, grouping, stop)
    }

    /// Puts the images into groups, visiting their hashes in the given order. Before each visit a
    /// message that asks to stop is looked for.
    ///
    /// The result is `None` if a visit stopped the grouping.
    pub fn group(
        &self,
        tolerance: u64,
        order: &Vec<u64>,
        stop_receiver: Option<&Receiver<()>>,
    ) -> (groups: Option<Vec<Vec<FileEntry>>>)
        requires
            self.well_formed(),
            tolerance <= 4,
            order@.no_duplicates(),
            order@.to_set() == self@.dom(),
        ensures
            groups matches Some(shown) ==> exists|run: Run| #[trigger]
                run.valid() && run.table == self@ && run.tolerance == tolerance && run.order
                    == order@ && group_views(shown@) == run.result(),
            populated(self@),
            stop_receiver is None || order@.len() == 0 ==> groups is Some,
            groups is Some ==> forall|i: usize|
                i < order@.len() ==> #[trigger] call_ensures(stop_before, (stop_receiver, i), false),
            groups is None ==> exists|i: usize|
                i < order@.len() && #[trigger] call_ensures(stop_before, (stop_receiver, i), true),
    {
        let ghost mut run = Run { table: self@, tolerance, order: order@, answers: Seq::empty() };
        let mut grouping = Grouping::new(order);
        assert(grouping@ =~= run.progress(0));
        let mut i: usize = 0;
        while i < order.len()
            invariant
                i <= order.len(),
                self.well_formed(),
                tolerance <= 4,
                order@.no_duplicates(),
                order@.to_set() == self@.dom(),
                run.table == self@,
                run.tolerance == tolerance,
                run.order == order@,
                run.answers.len() == i,
                run.possible(i as int),
                grouping@ == run.progress(i as int),
                grouping@.left.subset_of(self@.dom()),
                forall|k: usize|
                    k < i ==> #[trigger] call_ensures(stop_before, (stop_receiver, k), false),
            decreases order.len() - i,
        {
            let stop = stop_before(stop_receiver, i);
            let hash = order[i];
            let ghost before = grouping@;
            let ghost earlier = run;
            proof {
                assert(order@.contains(order@[i as int]));
                assert(order@.to_set().contains(hash));
            }
            if !self.visit(tolerance, hash, &mut grouping, stop) {
                return None;
            }
            proof {
                let found = choose|found: Seq<(u64, u64)>|
                    (before.left.contains(hash) ==> is_answer(found, self@.dom(), hash, tolerance))
                        && grouping@ == #[trigger] visited(before, self@, hash, found);
                run = Run { answers: run.answers.push(found), ..run };
                lemma_run_prefix(earlier, run, i as int);
                lemma_possible_step(earlier, run, i as int);
                assert(grouping@ =~= run.progress(i + 1));
            }
            i += 1;
        }
        assert(run.valid());
        Some(grouping.groups)
    }
}

/// A grouping looks into the channel before each visit. It is given up only if one of the looks took
/// a message, and comes to its end only if none of them did; then the result is one that a run
/// through all the hashes gives.
pub proof fn law_groupings_are_given_up_only_on_a_message(
    index: &ImageIndex,
    tolerance: u64,
    order: &Vec<u64>,
    stop_receiver: Option<&Receiver<()>>,
    groups: Option<Vec<Vec<FileEntry>>>,
)
    requires
        call_ensures(ImageIndex::group, (index, tolerance, order, stop_receiver), groups),
    ensures
        stop_receiver is None ==> groups is Some,
        stop_receiver matches Some(receiver) ==> {
            &&& groups is None ==> look_answers(*receiver, true)
            &&& groups is Some && order@.len() > 0 ==> look_answers(*receiver, false)
            &&& !look_answers(*receiver, true) ==> groups is Some
        },
        groups is Some ==> forall|i: usize|
            i < order@.len() ==> #[trigger] call_ensures(stop_before, (stop_receiver, i), false),
        groups is None ==> exists|i: usize|
            i < order@.len() && #[trigger] call_ensures(stop_before, (stop_receiver, i), true),
        groups matches Some(shown) ==> exists|run: Run| #[trigger]
            run.valid() && run.table == index@ && run.tolerance == tolerance && run.order == order@
                && group_views(shown@) == run.result(),
{
    if groups is None {
        let i = choose|i: usize|
            i < order@.len() && #[trigger] call_ensures(stop_before, (stop_receiver, i), true);
        law_a_stop_takes_a_message(stop_receiver, true);
    } else if order@.len() > 0 {
        assert(call_ensures(stop_before, (stop_receiver, 0usize), false));
        law_a_stop_takes_a_message(stop_receiver, false);
    }
}

} // verus!
