//! Where the images come from that a search shows.

use vstd::prelude::*;
use crate::distance::hamming_distance;
use crate::entry::with_level;
use crate::entry::EntryView;
use crate::laws::group_has;
use crate::laws::law_grouping_is_sound;
use crate::laws::law_grouping_shows_copies;
use crate::laws::shown_together;
use crate::laws::shows_near;
use crate::lists::lemma_picked_from;
use crate::lists::lemma_place_of_picked;
use crate::picture::hashed_from;
use crate::picture::read_from;
use crate::picture::with_dimensions;
use crate::run::is_grouping;
use crate::run::populated;
use crate::search::filled;
use crate::search::has_hash;
use crate::search::images_with;
use crate::search::law_filling_keeps_every_image;
use crate::similarity::level_of;
use crate::similarity::tolerance_of;
use crate::similarity::Similarity;
use crate::trace::after_events;
use crate::trace::is_wanted;
use crate::trace::law_walk_collects_the_wanted_files;
use crate::trace::lemma_wanted_files_were_met;
use crate::trace::wanted_entries;
use crate::trace::WalkEvent;
use crate::trace::WalkView;
use crate::walk::Found;

verus! {

proof fn lemma_images_with(hashed: Seq<(EntryView, u64)>, hash: u64, n: int) -> (k: int)
    requires
        0 <= n < images_with(hashed, hash).len(),
    ensures
        0 <= k < hashed.len(),
        hashed[k] == (images_with(hashed, hash)[n], hash),
{
    lemma_picked_from(
        hashed,
        |image: (EntryView, u64)| has_hash(image, hash),
        |image: (EntryView, u64)| image.0,
        n,
    )
}

proof fn lemma_place_of(hashed: Seq<(EntryView, u64)>, k: int) -> (n: int)
    requires
        0 <= k < hashed.len(),
    ensures
        n == images_with(hashed.take(k), hashed[k].1).len(),
        n < images_with(hashed, hashed[k].1).len(),
        images_with(hashed, hashed[k].1)[n] == hashed[k].0,
{
    let hash = hashed[k].1;
    lemma_place_of_picked(
        hashed,
        |image: (EntryView, u64)| has_hash(image, hash),
        |image: (EntryView, u64)| image.0,
        k,
    )
}

proof fn lemma_filled_is_populated(hashed: Seq<(EntryView, u64)>)
    ensures
        populated(filled(Map::empty(), hashed)),
{
    assert forall|hash: u64| #[trigger]
        filled(Map::empty(), hashed).contains_key(hash) implies filled(
        Map::empty(),
        hashed,
    )[hash].len() > 0 by {
        law_filling_keeps_every_image(Map::empty(), hashed, hash);
    }
}

/// Whether an entry shows one of the hashed images, which is near the given hash, rated by how
/// near.
pub open spec fn shows_hashed(
    entry: EntryView,
    hashed: Seq<(EntryView, u64)>,
    base: u64,
    similarity: Similarity,
) -> bool {
    exists|k: int|
        0 <= k < hashed.len() && hamming_distance(base, (#[trigger] hashed[k]).1) <= tolerance_of(
            similarity,
        ) && entry == with_level(
            hashed[k].0,
            level_of(hamming_distance(base, hashed[k].1) as int),
        )
}

/// A group shows nothing but images that were hashed: the first is shown as `VeryHigh`, and the
/// hashes of all of them are as near to its hash as the similarity asks for.
pub proof fn law_groups_show_hashed_images(
    groups: Seq<Seq<EntryView>>,
    hashed: Seq<(EntryView, u64)>,
    similarity: Similarity,
    g: int,
)
    requires
        is_grouping(groups, filled(Map::empty(), hashed), similarity),
        0 <= g < groups.len(),
    ensures
        groups[g].len() > 1,
        exists|first: int|
            0 <= first < hashed.len() && groups[g][0] == with_level(
                (#[trigger] hashed[first]).0,
                Similarity::VeryHigh,
            ) && forall|j: int|
                0 <= j < groups[g].len() ==> shows_hashed(
                    #[trigger] groups[g][j],
                    hashed,
                    hashed[first].1,
                    similarity,
                ),
{
    let table = filled(Map::empty(), hashed);
    lemma_filled_is_populated(hashed);
    law_grouping_is_sound(groups, table, similarity, g);
    let base = choose|base: u64| #[trigger]
        table.contains_key(base) && groups[g][0] == with_level(
            table[base][0],
            Similarity::VeryHigh,
        ) && forall|j: int|
            0 <= j < groups[g].len() ==> shows_near(
                #[trigger] groups[g][j],
                table,
                base,
                similarity,
            );
    law_filling_keeps_every_image(Map::empty(), hashed, base);
    assert(table[base] =~= images_with(hashed, base));
    let first = lemma_images_with(hashed, base, 0);
    assert forall|j: int| 0 <= j < groups[g].len() implies shows_hashed(
        #[trigger] groups[g][j],
        hashed,
        base,
        similarity,
    ) by {
        assert(shows_near(groups[g][j], table, base, similarity));
        let (hash, n) = choose|hash: u64, n: int|
            table.contains_key(hash) && 0 <= n < table[hash].len() && hamming_distance(base, hash)
                <= tolerance_of(similarity) && groups[g][j] == with_level(
                #[trigger] table[hash][n],
                level_of(hamming_distance(base, hash) as int),
            );
        law_filling_keeps_every_image(Map::empty(), hashed, hash);
        assert(table[hash] =~= images_with(hashed, hash));
        let k = lemma_images_with(hashed, hash, n);
        assert(hashed[k] == (table[hash][n], hash));
    }
    assert(hashed[first].1 == base);
}

/// Images that share a hash are shown, in one group.
pub proof fn law_images_that_share_a_hash_are_shown(
    groups: Seq<Seq<EntryView>>,
    hashed: Seq<(EntryView, u64)>,
    similarity: Similarity,
    a: int,
    b: int,
)
    requires
        is_grouping(groups, filled(Map::empty(), hashed), similarity),
        0 <= a < b < hashed.len(),
        hashed[a].1 == hashed[b].1,
    ensures
        exists|g: int, level: Similarity|
            0 <= g < groups.len() && level != Similarity::Unrated && #[trigger] groups[g].contains(
                with_level(hashed[a].0, level),
            ) && groups[g].contains(with_level(hashed[b].0, level)),
{
    let table = filled(Map::empty(), hashed);
    let hash = hashed[a].1;
    lemma_filled_is_populated(hashed);
    law_filling_keeps_every_image(Map::empty(), hashed, hash);
    let m = lemma_place_of(hashed, a);
    let n = lemma_place_of(hashed, b);
    assert(hashed.take(b).take(a) =~= hashed.take(a));
    assert(m < n) by {
        lemma_place_of(hashed.take(b), a);
    }
    assert(table[hash] =~= images_with(hashed, hash));
    law_grouping_shows_copies(groups, table, similarity, hash);
    assert(shown_together(groups, table, hash));
    let (g, level) = choose|g: int, level: Similarity|
        0 <= g < groups.len() && level != Similarity::Unrated
            && #[trigger] group_has(groups[g], table[hash], level);
    assert(groups[g].contains(with_level(table[hash][m], level)));
    assert(groups[g].contains(with_level(table[hash][n], level)));
}

/// A search whose images come from one walk shows only files that the walk met: files with the
/// name of an image, of at least the minimal size, that are not excluded.
pub proof fn law_shown_files_were_met(
    walk: WalkView,
    events: Seq<WalkEvent>,
    hashed: Seq<(EntryView, u64)>,
    groups: Seq<Seq<EntryView>>,
    similarity: Similarity,
    g: int,
    j: int,
)
    requires
        walk.search.images_to_check.len() == 0,
        hashed_from(hashed, after_events(walk, events).search.images_to_check),
        is_grouping(groups, filled(Map::empty(), hashed), similarity),
        0 <= g < groups.len(),
        0 <= j < groups[g].len(),
    ensures
        exists|k: int|
            0 <= k < events.len() && (#[trigger] events[k] matches WalkEvent::Met(
                _,
                Found::File(file),
            ) && is_wanted(file, walk.search.minimal_file_size) && groups[g][j].path == file.path@
                && groups[g][j].size == file.size),
{
    let images = after_events(walk, events).search.images_to_check;
    law_groups_show_hashed_images(groups, hashed, similarity, g);
    let first = choose|first: int|
        0 <= first < hashed.len() && groups[g][0] == with_level(
            (#[trigger] hashed[first]).0,
            Similarity::VeryHigh,
        ) && forall|j: int|
            0 <= j < groups[g].len() ==> shows_hashed(
                #[trigger] groups[g][j],
                hashed,
                hashed[first].1,
                similarity,
            );
    assert(shows_hashed(groups[g][j], hashed, hashed[first].1, similarity));
    let n = choose|n: int|
        0 <= n < hashed.len() && hamming_distance(hashed[first].1, (#[trigger] hashed[n]).1)
            <= tolerance_of(similarity) && groups[g][j] == with_level(
            hashed[n].0,
            level_of(hamming_distance(hashed[first].1, hashed[n].1) as int),
        );
    assert(read_from(hashed[n].0, images));
    let (i, width, height) = choose|i: int, width: u32, height: u32|
        0 <= i < images.len() && hashed[n].0 == #[trigger] with_dimensions(
            images[i],
            width,
            height,
        );
    law_walk_collects_the_wanted_files(walk, events);
    assert(images =~= wanted_entries(events, walk.search.minimal_file_size));
    let k = lemma_wanted_files_were_met(events, walk.search.minimal_file_size, i);
    assert(events[k] matches WalkEvent::Met(_, Found::File(file)) && groups[g][j].path
        == file.path@);
}

} // verus!
