use vstd::prelude::*;

verus! {

/// How much two images are alike.
#[derive(Clone, Copy, PartialEq, Eq, PartialOrd, Ord, Debug, Structural)]
pub enum Similarity {
    /// Not compared with anything yet.
    Unrated,
    VerySmall,
    Small,
    Medium,
    High,
    VeryHigh,
}

/// The similarity that stands for a distance; beyond the widest tolerance there is none.
pub open spec fn level_of(distance: int) -> Similarity {
    if distance == 0 {
        Similarity::VeryHigh
    } else if distance == 1 {
        Similarity::High
    } else if distance == 2 {
        Similarity::Medium
    } else if distance == 3 {
        Similarity::Small
    } else if distance == 4 {
        Similarity::VerySmall
    } else {
        Similarity::Unrated
    }
}

/// The largest distance that a similarity admits.
pub open spec fn tolerance_of(similarity: Similarity) -> u64
    recommends
        similarity != Similarity::Unrated,
{
    match similarity {
        Similarity::VeryHigh => 0,
        Similarity::High => 1,
        Similarity::Medium => 2,
        Similarity::Small => 3,
        Similarity::VerySmall => 4,
        Similarity::Unrated => 0,
    }
}

/// The similarity that the given distance stands for.
pub fn similarity_for_distance(distance: u64) -> (similarity: Similarity)
    requires
        distance <= 4,
    ensures
        similarity == level_of(distance as int),
        similarity != Similarity::Unrated,
{
    match distance {
        0 => Similarity::VeryHigh,
        1 => Similarity::High,
        2 => Similarity::Medium,
        3 => Similarity::Small,
        _ => Similarity::VerySmall,
    }
}

/// The largest distance at which images still count as alike under the given similarity.
pub fn tolerance_for_similarity(similarity: Similarity) -> (tolerance: u64)
    requires
        similarity != Similarity::Unrated,
    ensures
        tolerance == tolerance_of(similarity),
        tolerance <= 4,
{
    match similarity {
        Similarity::VeryHigh => 0,
        Similarity::High => 1,
        Similarity::Medium => 2,
        Similarity::Small => 3,
        _ => 4,
    }
}

/// The words for a similarity.
pub open spec fn similarity_words(similarity: Similarity) -> Seq<char>
    recommends
        similarity != Similarity::Unrated,
{
    match similarity {
        Similarity::VerySmall => "Very Small"@,
        Similarity::Small => "Small"@,
        Similarity::Medium => "Medium"@,
        Similarity::High => "High"@,
        Similarity::VeryHigh => "Very High"@,
        Similarity::Unrated => Seq::empty(),
    }
}

/// The words with which results show a similarity.
pub fn get_string_from_similarity(similarity: &Similarity) -> (words: &'static str)
    requires
        *similarity != Similarity::Unrated,
    ensures
        words@ == similarity_words(*similarity),
{
    match *similarity {
        Similarity::VerySmall => "Very Small",
        Similarity::Small => "Small",
        Similarity::Medium => "Medium",
        Similarity::High => "High",
        _ => "Very High",
    }
}

/// Asking for a similarity and reading it off a distance agree: a distance lies within the
/// tolerance of a similarity exactly if the level that it stands for is at least as high.
pub proof fn law_tolerance_matches_level(similarity: Similarity, distance: nat)
    requires
        similarity != Similarity::Unrated,
    ensures
        level_of(tolerance_of(similarity) as int) == similarity,
        distance <= tolerance_of(similarity) <==> {
            &&& level_of(distance as int) != Similarity::Unrated
            &&& tolerance_of(level_of(distance as int)) <= tolerance_of(similarity)
        },
{
}

} // verus!
