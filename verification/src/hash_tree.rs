use vstd::prelude::*;
use bk_tree::BKTree;
use vstd::multiset::Multiset;
use crate::distance::hamming_distance;
use crate::distance::Hamming;

verus! {

/// A tree for searching the keys near a given one, as `bk_tree` has it.
#[verifier::external_type_specification]
#[verifier::external_body]
#[verifier::reject_recursive_types(K)]
#[verifier::reject_recursive_types(M)]
pub struct ExBKTree<K, M>(BKTree<K, M>);

/// The hashes that a tree holds, each as often as a search can meet it.
pub uninterp spec fn tree_keys(tree: BKTree<u64, Hamming>) -> Multiset<u64>;

/// Whether `found` lists what a tree with the given keys has within the tolerance of a key: each
/// with its distance, as often as the tree holds it, in any order.
pub open spec fn is_search_result(
    found: Seq<(u64, u64)>,
    keys: Multiset<u64>,
    key: u64,
    tolerance: u64,
) -> bool {
    forall|distance: u64, near: u64| #[trigger]
        found.to_multiset().count((distance, near)) == if distance == hamming_distance(key, near)
            && distance <= tolerance {
            keys.count(near)
        } else {
            0
        }
}

/// Calls `BKTree::new`.
///
/// Claimed of it: the new tree holds nothing.
#[verifier::external_body]
pub(crate) fn new_tree() -> (tree: BKTree<u64, Hamming>)
    ensures
        tree_keys(tree) == Multiset::<u64>::empty(),
{
    BKTree::new(Hamming)
}

/// Calls `BKTree::add`.
///
/// Claimed of it: the tree then holds the key once more, but never more than twice. A key that
/// the tree has is hung below itself at distance zero, where a later copy takes its place.
#[verifier::external_body]
pub(crate) fn add_key(tree: &mut BKTree<u64, Hamming>, key: u64)
    ensures
        tree_keys(*final(tree)) == if tree_keys(*old(tree)).count(key) < 2 {
            tree_keys(*old(tree)).insert(key)
        } else {
            tree_keys(*old(tree))
        },
{
    tree.add(key)
}

/// Calls `BKTree::find` and collects what it yields.
///
/// Claimed of it: it yields all that the tree holds within the tolerance, with the distances, and
/// nothing else. This rests on the distance being a metric: the tree passes over branches that the
/// triangle inequality rules out. The order is open.
#[verifier::external_body]
pub(crate) fn find_keys(tree: &BKTree<u64, Hamming>, key: u64, tolerance: u64) -> (found: Vec<
    (u64, u64),
>)
    ensures
        is_search_result(found@, tree_keys(*tree), key, tolerance),
{
    tree.find(&key, tolerance).map(|(distance, near)| (distance, *near)).collect()
}

} // verus!
