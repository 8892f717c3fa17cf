use vstd::prelude::*;
use crate::distance::hamming_distance;
use crate::entry::EntryView;
use crate::grouping::claims;
use crate::grouping::gathered;
use crate::grouping::hashes_of;
use crate::similarity::tolerance_of;
use crate::similarity::Similarity;

verus! {

/// Whether `found` may be what a search for the hashes near `hash` gives: all the hashes within
/// the tolerance, with their distances, and nothing else. The order is open, and a hash may occur
/// more than once.
pub open spec fn is_answer(
    found: Seq<(u64, u64)>,
    hashes: Set<u64>,
    hash: u64,
    tolerance: u64,
) -> bool {
    &&& forall|i: int|
        0 <= i < found.len() ==> {
            &&& hashes.contains((#[trigger] found[i]).1)
            &&& found[i].0 == hamming_distance(hash, found[i].1)
            &&& found[i].0 <= tolerance
        }
    &&& forall|near: u64|
        hashes.contains(near) && hamming_distance(hash, near) <= tolerance ==> hashes_of(
            found,
        ).contains(near)
}

/// Every hash of the table has an image.
pub open spec fn populated(table: Map<u64, Seq<EntryView>>) -> bool {
    forall|hash: u64| #[trigger] table.contains_key(hash) ==> table[hash].len() > 0
}

/// What the visits so far have left and given.
#[verifier::ext_equal]
pub struct GroupingView {
    /// The hashes that no group has taken.
    pub left: Set<u64>,
    /// The groups of more than one image.
    pub groups: Seq<Seq<EntryView>>,
}

/// What is left and given after one more visit, if the search for the hashes near the visited one
/// found the given ones.
pub open spec fn visited(
    before: GroupingView,
    table: Map<u64, Seq<EntryView>>,
    hash: u64,
    found: Seq<(u64, u64)>,
) -> GroupingView {
    if before.left.contains(hash) {
        let available = before.left.remove(hash);
        let claimed = claims(found, available);
        let group = gathered(table, hash, claimed);
        GroupingView {
            left: available.difference(hashes_of(claimed)),
            groups: if group.len() > 1 {
                before.groups.push(group)
            } else {
                before.groups
            },
        }
    } else {
        before
    }
}

/// Whether one more visit can lead from `before` to `after`.
pub open spec fn is_visit(
    before: GroupingView,
    after: GroupingView,
    table: Map<u64, Seq<EntryView>>,
    tolerance: u64,
    hash: u64,
) -> bool {
    exists|found: Seq<(u64, u64)>|
        (before.left.contains(hash) ==> is_answer(found, table.dom(), hash, tolerance)) && after
            == #[trigger] visited(before, table, hash, found)
}

/// One way in which images can be put into groups: the images by their hashes, the tolerance, the
/// order in which the hashes are visited, and what the search for the hashes near each of them
/// answered. The first two fix the last two only in part.
pub struct Run {
    pub table: Map<u64, Seq<EntryView>>,
    pub tolerance: u64,
    pub order: Seq<u64>,
    pub answers: Seq<Seq<(u64, u64)>>,
}

impl Run {
    /// The hashes that no group has taken before the visit with number `i`.
    pub open spec fn left(self, i: int) -> Set<u64>
        decreases i,
    {
        if i <= 0 {
            self.table.dom()
        } else {
            let before = self.left(i - 1);
            let hash = self.order[i - 1];
            if before.contains(hash) {
                before.remove(hash).difference(
                    hashes_of(claims(self.answers[i - 1], before.remove(hash))),
                )
            } else {
                before
            }
        }
    }

    /// Whether the visit with number `i` starts a group: its hash has not been taken before.
    pub open spec fn active(self, i: int) -> bool {
        self.left(i).contains(self.order[i])
    }

    /// The hashes that the visit with number `i` takes beside its own, with their distances.
    pub open spec fn claimed(self, i: int) -> Seq<(u64, u64)> {
        claims(self.answers[i], self.left(i).remove(self.order[i]))
    }

    /// The group that the visit with number `i` starts.
    pub open spec fn group(self, i: int) -> Seq<EntryView> {
        gathered(self.table, self.order[i], self.claimed(i))
    }

    /// Whether the visit with number `i` gives a group of more than one image.
    pub open spec fn shows(self, i: int) -> bool {
        self.active(i) && self.group(i).len() > 1
    }

    /// The groups that the first `i` visits give.
    pub open spec fn groups(self, i: int) -> Seq<Seq<EntryView>>
        decreases i,
    {
        if i <= 0 {
            Seq::empty()
        } else if self.shows(i - 1) {
            self.groups(i - 1).push(self.group(i - 1))
        } else {
            self.groups(i - 1)
        }
    }

    /// What the first `i` visits have left and given.
    pub open spec fn progress(self, i: int) -> GroupingView {
        GroupingView { left: self.left(i), groups: self.groups(i) }
    }

    /// The groups that all the visits give.
    pub open spec fn result(self) -> Seq<Seq<EntryView>> {
        self.groups(self.order.len() as int)
    }

    /// The first `n` visits can come about: they go to different hashes of the table, and each
    /// search was answered as it should.
    pub open spec fn possible(self, n: int) -> bool {
        &&& self.order.no_duplicates()
        &&& self.order.to_set() == self.table.dom()
        &&& 0 <= n <= self.order.len()
        &&& n <= self.answers.len()
        &&& forall|i: int|
            0 <= i < n && #[trigger] self.active(i) ==> is_answer(
                self.answers[i],
                self.table.dom(),
                self.order[i],
                self.tolerance,
            )
    }

    /// The run can come about and visits every hash.
    pub open spec fn valid(self) -> bool {
        self.possible(self.order.len() as int)
    }
}

/// Whether `groups` is a way to group the images of a table under the given similarity.
pub open spec fn is_grouping(
    groups: Seq<Seq<EntryView>>,
    table: Map<u64, Seq<EntryView>>,
    similarity: Similarity,
) -> bool {
    exists|run: Run| #[trigger]
        run.valid() && run.table == table && run.tolerance == tolerance_of(similarity) && groups
            == run.result()
}

/// The run behind a grouping.
pub(crate) proof fn lemma_run_behind(
    groups: Seq<Seq<EntryView>>,
    table: Map<u64, Seq<EntryView>>,
    similarity: Similarity,
) -> (run: Run)
    requires
        is_grouping(groups, table, similarity),
    ensures
        run.valid(),
        run.table == table,
        run.tolerance == tolerance_of(similarity),
        groups == run.result(),
{
    choose|run: Run| #[trigger]
        run.valid() && run.table == table && run.tolerance == tolerance_of(similarity) && groups
            == run.result()
}

/// What the first `n` visits do depends only on the first `n` answers.
pub(crate) proof fn lemma_run_prefix(a: Run, b: Run, n: int)
    requires
        a.table == b.table,
        a.order == b.order,
        forall|i: int| 0 <= i < n ==> a.answers[i] == b.answers[i],
    ensures
        a.left(n) == b.left(n),
        a.groups(n) == b.groups(n),
    decreases n,
{
    if n > 0 {
        lemma_run_prefix(a, b, n - 1);
        assert(a.answers[n - 1] == b.answers[n - 1]);
        assert(a.claimed(n - 1) == b.claimed(n - 1));
    }
}

} // verus!
