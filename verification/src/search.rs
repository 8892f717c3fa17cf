use vstd::prelude::*;
use crossbeam_channel::Receiver;
use crate::entry::entry_views;
use crate::entry::group_views;
use crate::entry::path_views;
use crate::entry::EntryView;
use crate::entry::FileEntry;
use crate::history::step;
use crate::history::Act;
use crate::index::with_image;
use crate::index::ImageIndex;
use crate::laws::law_groupings_can_be_shown;
use crate::lists::law_picked_items;
use crate::lists::lemma_picked_last;
use crate::lists::picked;
use crate::picture::hashed_views;
use crate::run::populated;
use crate::run::is_grouping;
use crate::similarity::tolerance_for_similarity;
use crate::similarity::Similarity;
use crate::state::consistent;
use crate::state::is_shown_group;
use crate::state::no_counts;
use crate::state::with_error;
use crate::state::with_folders;
use crate::state::with_ignored_file;
use crate::state::with_ignored_thing;
use crate::state::with_queued_image;
use crate::state::with_warning;
use crate::state::Directories;
use crate::state::ExcludedItems;
use crate::state::Info;
use crate::state::Messages;
use crate::state::SearchView;
use crate::stop::stop_before;
use crate::text::text_views;

verus! {

/// A search for similar images.
pub struct SimilarImages {
    information: Info,
    text_messages: Messages,
    directories: Directories,
    excluded_items: ExcludedItems,
    index: ImageIndex,
    similar_vectors: Vec<Vec<FileEntry>>,
    recursive_search: bool,
    minimal_file_size: u64,
    stopped_search: bool,
    similarity: Similarity,
    images_to_check: Vec<FileEntry>,
}

impl View for SimilarImages {
    type V = SearchView;

    closed spec fn view(&self) -> SearchView {
        SearchView {
            information: self.information,
            warnings: text_views(self.text_messages.warnings@),
            errors: text_views(self.text_messages.errors@),
            included_directories: path_views(self.directories.included_directories@),
            excluded_directories: path_views(self.directories.excluded_directories@),
            excluded_items: text_views(self.excluded_items.items@),
            image_hashes: self.index@,
            similar_vectors: group_views(self.similar_vectors@),
            recursive_search: self.recursive_search,
            minimal_file_size: self.minimal_file_size,
            stopped_search: self.stopped_search,
            similarity: self.similarity,
            images_to_check: entry_views(self.images_to_check@),
        }
    }
}

/// A search that has been told nothing and has found nothing.
pub open spec fn new_search() -> SearchView {
    SearchView {
        information: no_counts(),
        warnings: Seq::empty(),
        errors: Seq::empty(),
        included_directories: Seq::empty(),
        excluded_directories: Seq::empty(),
        excluded_items: Seq::empty(),
        image_hashes: Map::empty(),
        similar_vectors: Seq::empty(),
        recursive_search: true,
        minimal_file_size: 16384,
        stopped_search: false,
        similarity: Similarity::High,
        images_to_check: Seq::empty(),
    }
}

/// The search with other folders and messages.
pub open spec fn with_directories(
    search: SearchView,
    directories: Directories,
    text_messages: Messages,
) -> SearchView {
    SearchView {
        included_directories: path_views(directories.included_directories@),
        excluded_directories: path_views(directories.excluded_directories@),
        warnings: text_views(text_messages.warnings@),
        errors: text_views(text_messages.errors@),
        ..search
    }
}

/// The images by their hashes, after the given images were added one by one.
pub open spec fn filled(
    table: Map<u64, Seq<EntryView>>,
    hashed: Seq<(EntryView, u64)>,
) -> Map<u64, Seq<EntryView>>
    decreases hashed.len(),
{
    if hashed.len() == 0 {
        table
    } else {
        with_image(filled(table, hashed.drop_last()), hashed.last().0, hashed.last().1)
    }
}

impl SimilarImages {
    /// The index of the images is sound, and the counts and ratings are consistent.
    pub open spec fn well_formed(self) -> bool {
        &&& self.index_is_sound()
        &&& consistent(self@)
    }

    /// The index of the images is sound.
    pub closed spec fn index_is_sound(self) -> bool {
        self.index.well_formed()
    }

    /// A search with the default settings. It looks into subfolders, and passes over files below
    /// 16 KiB, which should be enough to keep images out that are too small.
    pub fn new() -> (search: Self)
        ensures
            search.well_formed(),
            search@ == new_search(),
    {
        let search = SimilarImages {
            information: Info::new(),
            text_messages: Messages::new(),
            directories: Directories::new(),
            excluded_items: ExcludedItems::new(),
            index: ImageIndex::new(),
            similar_vectors: Vec::new(),
            recursive_search: true,
            minimal_file_size: 1024 * 16,
            stopped_search: false,
            similarity: Similarity::High,
            images_to_check: Vec::new(),
        };
        assert(search@ =~= new_search());
        search
    }

    /// Whether the search was stopped before its end.
    pub fn get_stopped_search(&self) -> (stopped: bool)
        ensures
            stopped == self@.stopped_search,
    {
        self.stopped_search
    }

    /// The messages for the user.
    pub fn get_text_messages(&self) -> (messages: &Messages)
        ensures
            text_views(messages.warnings@) == self@.warnings,
            text_views(messages.errors@) == self@.errors,
    {
        &self.text_messages
    }

    /// The groups of similar images that the search has found.
    pub fn get_similar_images(&self) -> (groups: &Vec<Vec<FileEntry>>)
        ensures
            group_views(groups@) == self@.similar_vectors,
    {
        &self.similar_vectors
    }

    /// The images that are to be read and hashed.
    pub fn get_images_to_check(&self) -> (images: &Vec<FileEntry>)
        ensures
            entry_views(images@) == self@.images_to_check,
    {
        &self.images_to_check
    }

    /// The counts of what the search has met.
    pub fn get_information(&self) -> (information: &Info)
        ensures
            *information == self@.information,
    {
        &self.information
    }

    /// Whether to look into subfolders.
    pub fn set_recursive_search(&mut self, recursive_search: bool)
        requires
            old(self).well_formed(),
        ensures
            final(self).well_formed(),
            final(self)@ == (SearchView { recursive_search, ..old(self)@ }),
            step(old(self)@, Act::Setting, final(self)@),
    {
        self.recursive_search = recursive_search;
    }

    /// The size below which files are passed over; at least one byte.
    pub fn set_minimal_file_size(&mut self, minimal_file_size: u64)
        requires
            old(self).well_formed(),
        ensures
            final(self).well_formed(),
            final(self)@ == (SearchView {
                minimal_file_size: if minimal_file_size == 0 {
                    1
                } else {
                    minimal_file_size
                },
                ..old(self)@
            }),
            step(old(self)@, Act::Setting, final(self)@),
    {
        self.minimal_file_size = match minimal_file_size {
            0 => 1,
            t => t,
        };
    }

    /// How similar images have to be.
    pub fn set_similarity(&mut self, similarity: Similarity)
        requires
            old(self).well_formed(),
        ensures
            final(self).well_formed(),
            final(self)@ == (SearchView { similarity, ..old(self)@ }),
            step(old(self)@, Act::Setting, final(self)@),
    {
        self.similarity = similarity;
    }

    pub(crate) fn push_warning(&mut self, warning: String)
        requires
            old(self).well_formed(),
        ensures
            final(self).well_formed(),
            final(self)@ == with_warning(old(self)@, warning@),
    {
        self.text_messages.warnings.push(warning);
        assert(self@ =~= with_warning(old(self)@, warning@));
    }

    pub(crate) fn push_error(&mut self, error: String)
        requires
            old(self).well_formed(),
        ensures
            final(self).well_formed(),
            final(self)@ == with_error(old(self)@, error@),
    {
        self.text_messages.errors.push(error);
        assert(self@ =~= with_error(old(self)@, error@));
    }

    pub(crate) fn count_folders(&mut self, number: usize)
        requires
            old(self).well_formed(),
            old(self)@.information.number_of_checked_folders + number <= usize::MAX,
        ensures
            final(self).well_formed(),
            final(self)@ == with_folders(old(self)@, number as int),
    {
        self.information.number_of_checked_folders += number;
    }

    pub(crate) fn count_ignored_file(&mut self)
        requires
            old(self).well_formed(),
            old(self)@.information.number_of_ignored_files < usize::MAX,
        ensures
            final(self).well_formed(),
            final(self)@ == with_ignored_file(old(self)@),
    {
        self.information.number_of_ignored_files += 1;
    }

    pub(crate) fn count_ignored_thing(&mut self)
        requires
            old(self).well_formed(),
            old(self)@.information.number_of_ignored_things < usize::MAX,
        ensures
            final(self).well_formed(),
            final(self)@ == with_ignored_thing(old(self)@),
    {
        self.information.number_of_ignored_things += 1;
    }

    pub(crate) fn queue_image(&mut self, entry: FileEntry)
        requires
            old(self).well_formed(),
            old(self)@.information.number_of_checked_files < usize::MAX,
            old(self)@.information.size_of_checked_images + entry.size <= u64::MAX,
            entry.size >= 1,
            entry@.dimensions == Seq::<char>::empty(),
            entry.similarity == Similarity::Unrated,
        ensures
            final(self).well_formed(),
            final(self)@ == with_queued_image(old(self)@, entry@),
    {
        self.information.size_of_checked_images += entry.size;
        self.information.number_of_checked_files += 1;
        self.images_to_check.push(entry);
        proof {
            assert(self@ =~= with_queued_image(old(self)@, entry@));
            assert(self@.images_to_check.drop_last() =~= old(self)@.images_to_check);
        }
    }

    /// The folders to search in and those to keep out of, after a list of folders to search in
    /// was checked; and the messages that the check left.
    pub fn set_included_directory(&mut self, directories: Directories, text_messages: Messages)
        requires
            old(self).well_formed(),
        ensures
            final(self).well_formed(),
            final(self)@ == with_directories(old(self)@, directories, text_messages),
            step(old(self)@, Act::Setting, final(self)@),
    {
        self.directories = directories;
        self.text_messages = text_messages;
    }

    /// The folders to search in and those to keep out of, after a list of folders to keep out of
    /// was checked; and the messages that the check left.
    pub fn set_excluded_directory(&mut self, directories: Directories, text_messages: Messages)
        requires
            old(self).well_formed(),
        ensures
            final(self).well_formed(),
            final(self)@ == with_directories(old(self)@, directories, text_messages),
            step(old(self)@, Act::Setting, final(self)@),
    {
        self.directories = directories;
        self.text_messages = text_messages;
    }

    /// The patterns of the items to keep out of, after a list of them was checked; and the
    /// messages that the check left.
    pub fn set_excluded_items(&mut self, excluded_items: ExcludedItems, text_messages: Messages)
        requires
            old(self).well_formed(),
        ensures
            final(self).well_formed(),
            final(self)@ == (SearchView {
                excluded_items: text_views(excluded_items.items@),
                warnings: text_views(text_messages.warnings@),
                errors: text_views(text_messages.errors@),
                ..old(self)@
            }),
            step(old(self)@, Act::Setting, final(self)@),
    {
        self.excluded_items = excluded_items;
        self.text_messages = text_messages;
    }

    /// The folders to search in and those to keep out of.
    pub fn get_directories(&self) -> (directories: &Directories)
        ensures
            path_views(directories.included_directories@) == self@.included_directories,
            path_views(directories.excluded_directories@) == self@.excluded_directories,
    {
        &self.directories
    }

    /// The patterns of the items to keep out of.
    pub fn get_excluded_items(&self) -> (excluded_items: &ExcludedItems)
        ensures
            text_views(excluded_items.items@) == self@.excluded_items,
    {
        &self.excluded_items
    }

    /// Whether the search looks into subfolders.
    pub fn get_recursive_search(&self) -> (recursive_search: bool)
        ensures
            recursive_search == self@.recursive_search,
    {
        self.recursive_search
    }

    /// How similar images have to be.
    pub fn get_similarity(&self) -> (similarity: Similarity)
        ensures
            similarity == self@.similarity,
    {
        self.similarity
    }

    /// The size below which files are passed over.
    pub fn get_minimal_file_size(&self) -> (minimal_file_size: u64)
        ensures
            minimal_file_size == self@.minimal_file_size,
    {
        self.minimal_file_size
    }

    /// The number of different hashes among the images that were grouped.
    pub fn number_of_different_images(&self) -> (number: usize)
        ensures
            number == self@.image_hashes.dom().len(),
    {
        self.index.len()
    }

    /// Ends a search: groups the images that were hashed, or, where the walk through the folders
    /// was stopped and there are none, notes that the search was stopped. The result tells whether
    /// the search came to its end. Without a receiver nothing stops a walk.
    pub fn find_similar_images(
        &mut self,
        hashed: Option<&Vec<(FileEntry, u64)>>,
        stop_receiver: Option<&Receiver<()>>,
    ) -> (finished: bool)
        requires
            old(self).well_formed(),
            hashed is Some ==> old(self)@.similarity != Similarity::Unrated,
            hashed is None ==> stop_receiver is Some,
        ensures
            final(self).well_formed(),
            match hashed {
                None => {
                    &&& !finished
                    &&& final(self)@ == (SearchView { stopped_search: true, ..old(self)@ })
                },
                Some(hashed) => {
                    let table = filled(old(self)@.image_hashes, hashed_views(hashed@));
                    &&& final(self)@ == (SearchView {
                        image_hashes: table,
                        similar_vectors: final(self)@.similar_vectors,
                        stopped_search: old(self)@.stopped_search || !finished,
                        ..old(self)@
                    })
                    &&& finished ==> is_grouping(
                        final(self)@.similar_vectors,
                        table,
                        old(self)@.similarity,
                    )
                    &&& !finished ==> final(self)@.similar_vectors == old(self)@.similar_vectors
                    &&& stop_receiver is None || table.dom().len() == 0 ==> finished
                    &&& finished ==> forall|i: usize|
                        i < table.dom().len() ==> #[trigger] call_ensures(
                            stop_before,
                            (stop_receiver, i),
                            false,
                        )
                    &&& !finished ==> exists|i: usize|
                        i < table.dom().len() && #[trigger] call_ensures(
                            stop_before,
                            (stop_receiver, i),
                            true,
                        )
                },
            },
            step(
                old(self)@,
                Act::Searching { finished, asked: stop_receiver is Some },
                final(self)@,
            ),
    {
        let finished = match hashed {
            None => false,
            Some(hashed) => self.sort_images(hashed, stop_receiver),
        };
        self.end_search(finished);
        finished
    }

    /// Notes whether the search came to its end. If not, it was asked to stop.
    pub fn end_search(&mut self, finished: bool)
        requires
            old(self).well_formed(),
        ensures
            final(self).well_formed(),
            final(self)@ == (SearchView {
                stopped_search: old(self)@.stopped_search || !finished,
                ..old(self)@
            }),
            step(old(self)@, Act::Searching { finished, asked: !finished }, final(self)@),
    {
        if !finished {
            self.stopped_search = true;
        }
    }

    /// Groups the hashed images by their similarity.
    ///
    /// The images are added to those of earlier calls. The result is `false` if the search was
    /// asked to stop; then the groups stay as they were.
    pub fn sort_images(
        &mut self,
        hashed: &Vec<(FileEntry, u64)>,
        stop_receiver: Option<&Receiver<()>>,
    ) -> (finished: bool)
        requires
            old(self).well_formed(),
            old(self)@.similarity != Similarity::Unrated,
        ensures
            final(self).well_formed(),
            final(self)@ == (SearchView {
                image_hashes: filled(old(self)@.image_hashes, hashed_views(hashed@)),
                similar_vectors: final(self)@.similar_vectors,
                ..old(self)@
            }),
            finished ==> is_grouping(
                final(self)@.similar_vectors,
                final(self)@.image_hashes,
                old(self)@.similarity,
            ),
            !finished ==> final(self)@.similar_vectors == old(self)@.similar_vectors,
            stop_receiver is None || final(self)@.image_hashes.dom().len() == 0 ==> finished,
            finished ==> forall|i: usize|
                i < final(self)@.image_hashes.dom().len() ==> #[trigger] call_ensures(
                    stop_before,
                    (stop_receiver, i),
                    false,
                ),
            !finished ==> exists|i: usize|
                i < final(self)@.image_hashes.dom().len() && #[trigger] call_ensures(
                    stop_before,
                    (stop_receiver, i),
                    true,
                ),
            step(old(self)@, Act::Sorting { finished }, final(self)@),
    {
        self.add_images(hashed);
        let tolerance = tolerance_for_similarity(self.similarity);
        let order = self.index.hashes();
        proof {
            order@.unique_seq_to_set();
        }
        let groups = self.index.group(tolerance, &order, stop_receiver);
        self.take_groups(groups)
    }

    /// Adds hashed images to those of earlier calls.
    pub fn add_images(&mut self, hashed: &Vec<(FileEntry, u64)>)
        requires
            old(self).well_formed(),
        ensures
            final(self).well_formed(),
            final(self)@ == (SearchView {
                image_hashes: filled(old(self)@.image_hashes, hashed_views(hashed@)),
                ..old(self)@
            }),
            step(old(self)@, Act::Sorting { finished: false }, final(self)@),
    {
        let ghost images = hashed_views(hashed@);
        assert(images.take(0) =~= Seq::empty());
        let mut i: usize = 0;
        while i < hashed.len()
            invariant
                i <= hashed.len(),
                images == hashed_views(hashed@),
                self.well_formed(),
                self@ == (SearchView {
                    image_hashes: filled(old(self)@.image_hashes, images.take(i as int)),
                    ..old(self)@
                }),
            decreases hashed.len() - i,
        {
            let ghost before = self@;
            self.index.add_image(hashed[i].0.clone(), hashed[i].1);
            proof {
                assert(images.take(i + 1).drop_last() =~= images.take(i as int));
                assert(images.take(i + 1).last() == images[i as int]);
                assert(self@ =~= (SearchView {
                    image_hashes: filled(old(self)@.image_hashes, images.take(i + 1)),
                    ..old(self)@
                }));
                assert(self@ == (SearchView { image_hashes: self@.image_hashes, ..before }));
                assert(populated(self@.image_hashes));
            }
            i += 1;
        }
        assert(images.take(i as int) =~= images);
    }

    /// Takes over the groups that a grouping of the images gave, if it was not stopped. The result
    /// tells whether it gave any.
    pub(crate) fn take_groups(&mut self, groups: Option<Vec<Vec<FileEntry>>>) -> (finished: bool)
        requires
            old(self).well_formed(),
            groups matches Some(shown) ==> is_grouping(
                group_views(shown@),
                old(self)@.image_hashes,
                old(self)@.similarity,
            ),
        ensures
            final(self).well_formed(),
            finished == groups is Some,
            final(self)@ == (SearchView {
                similar_vectors: match groups {
                    Some(shown) => group_views(shown@),
                    None => old(self)@.similar_vectors,
                },
                ..old(self)@
            }),
            step(old(self)@, Act::Sorting { finished }, final(self)@),
    {
        match groups {
            None => false,
            Some(new_vector) => {
                proof {
                    assert forall|i: int|
                        0 <= i < group_views(new_vector@).len() implies is_shown_group(
                        #[trigger] group_views(new_vector@)[i],
                    ) by {
                        law_groupings_can_be_shown(
                            group_views(new_vector@),
                            self@.image_hashes,
                            self@.similarity,
                            i,
                        );
                    }
                }
                self.similar_vectors = new_vector;
                true
            },
        }
    }
}

/// Whether a hashed image has the given hash.
pub open spec fn has_hash(image: (EntryView, u64), hash: u64) -> bool {
    image.1 == hash
}

/// The images with the given hash, in the order in which they were hashed.
pub open spec fn images_with(hashed: Seq<(EntryView, u64)>, hash: u64) -> Seq<EntryView> {
    picked(
        hashed,
        |image: (EntryView, u64)| has_hash(image, hash),
        |image: (EntryView, u64)| image.0,
    )
}

/// Adding images loses none and keeps their order: under each hash stand the images that were
/// there before, and after them all the added ones with that hash; and no hash is there without
/// an image.
pub proof fn law_filling_keeps_every_image(
    table: Map<u64, Seq<EntryView>>,
    hashed: Seq<(EntryView, u64)>,
    hash: u64,
)
    ensures
        filled(table, hashed).contains_key(hash) <==> table.contains_key(hash) || images_with(
            hashed,
            hash,
        ).len() > 0,
        filled(table, hashed).contains_key(hash) ==> filled(table, hashed)[hash] == (
        if table.contains_key(hash) {
            table[hash]
        } else {
            Seq::empty()
        }) + images_with(hashed, hash),
    decreases hashed.len(),
{
    lemma_picked_last(
        hashed,
        |image: (EntryView, u64)| has_hash(image, hash),
        |image: (EntryView, u64)| image.0,
    );
    if hashed.len() == 0 {
        if table.contains_key(hash) {
            assert(table[hash] + images_with(hashed, hash) =~= table[hash]);
        }
    } else {
        law_filling_keeps_every_image(table, hashed.drop_last(), hash);
        if filled(table, hashed).contains_key(hash) {
            assert(filled(table, hashed)[hash] =~= (if table.contains_key(hash) {
                table[hash]
            } else {
                Seq::empty()
            }) + images_with(hashed, hash));
        }
    }
}

/// Added images stand under their hashes after those that were there before, all of them, each once
/// and in order, and nothing else is added. The result are the places of the images with the given
/// hash among the added ones.
pub proof fn law_added_images_stand_under_their_hashes(
    table: Map<u64, Seq<EntryView>>,
    hashed: Seq<(EntryView, u64)>,
    hash: u64,
) -> (places: Seq<int>)
    ensures
        ({
            let after = filled(table, hashed);
            let before = if table.contains_key(hash) {
                table[hash]
            } else {
                Seq::empty()
            };
            &&& after.contains_key(hash) <==> table.contains_key(hash) || places.len() > 0
            &&& after.contains_key(hash) ==> after[hash].len() == before.len() + places.len()
            &&& after.contains_key(hash) ==> forall|i: int|
                0 <= i < before.len() ==> #[trigger] after[hash][i] == before[i]
            &&& after.contains_key(hash) ==> forall|n: int|
                0 <= n < places.len() ==> after[hash][before.len() + n] == hashed[
                #[trigger] places[n]].0
        }),
        forall|n: int|
            0 <= n < places.len() ==> 0 <= #[trigger] places[n] < hashed.len() && hashed[places[n]].1
                == hash,
        forall|m: int, n: int|
            0 <= m < n < places.len() ==> (#[trigger] places[m]) < (#[trigger] places[n]),
        forall|k: int|
            0 <= k < hashed.len() && (#[trigger] hashed[k]).1 == hash ==> places.contains(k),
{
    law_filling_keeps_every_image(table, hashed, hash);
    law_picked_items(
        hashed,
        |image: (EntryView, u64)| has_hash(image, hash),
        |image: (EntryView, u64)| image.0,
    )
}

impl Default for SimilarImages {
    fn default() -> (search: Self)
        ensures
            search.well_formed(),
            search@ == new_search(),
    {
        SimilarImages::new()
    }
}

} // verus!
