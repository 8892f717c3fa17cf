use vstd::prelude::*;
use crate::entry::path_views;
use crate::entry::EntryView;
use crate::entry::FilePath;
use crate::entry::PathView;
use crate::run::populated;
use crate::similarity::Similarity;
use crate::text::text_views;

verus! {

/// Counts of what a search has met.
pub struct Info {
    pub number_of_checked_files: usize,
    pub number_of_checked_folders: usize,
    pub number_of_ignored_files: usize,
    pub number_of_ignored_things: usize,
    pub size_of_checked_images: u64,
    pub lost_space: u64,
    pub number_of_removed_files: usize,
    pub number_of_failed_to_remove_files: usize,
    pub gained_space: u64,
}

/// Counts that are all zero.
pub open spec fn no_counts() -> Info {
    Info {
        number_of_checked_files: 0,
        number_of_checked_folders: 0,
        number_of_ignored_files: 0,
        number_of_ignored_things: 0,
        size_of_checked_images: 0,
        lost_space: 0,
        number_of_removed_files: 0,
        number_of_failed_to_remove_files: 0,
        gained_space: 0,
    }
}

impl Info {
    /// Counts that are all zero.
    pub fn new() -> (info: Self)
        ensures
            info == no_counts(),
    {
        Info {
            number_of_checked_files: 0,
            number_of_checked_folders: 0,
            number_of_ignored_files: 0,
            number_of_ignored_things: 0,
            size_of_checked_images: 0,
            lost_space: 0,
            number_of_removed_files: 0,
            number_of_failed_to_remove_files: 0,
            gained_space: 0,
        }
    }
}

impl Default for Info {
    fn default() -> (info: Self)
        ensures
            info == no_counts(),
    {
        Info::new()
    }
}

/// Messages for the user.
pub struct Messages {
    pub warnings: Vec<String>,
    pub errors: Vec<String>,
}

impl Messages {
    /// No messages.
    pub fn new() -> (messages: Self)
        ensures
            text_views(messages.warnings@) == Seq::<Seq<char>>::empty(),
            text_views(messages.errors@) == Seq::<Seq<char>>::empty(),
    {
        Messages { warnings: Vec::new(), errors: Vec::new() }
    }
}

/// The folders to search in and those to keep out of.
pub struct Directories {
    pub included_directories: Vec<FilePath>,
    pub excluded_directories: Vec<FilePath>,
}

impl Directories {
    /// No folders.
    pub fn new() -> (directories: Self)
        ensures
            path_views(directories.included_directories@) == Seq::<PathView>::empty(),
            path_views(directories.excluded_directories@) == Seq::<PathView>::empty(),
    {
        Directories { included_directories: Vec::new(), excluded_directories: Vec::new() }
    }
}

/// Patterns of the items to keep out of.
pub struct ExcludedItems {
    pub items: Vec<String>,
}

impl ExcludedItems {
    /// No patterns.
    pub fn new() -> (items: Self)
        ensures
            text_views(items.items@) == Seq::<Seq<char>>::empty(),
    {
        ExcludedItems { items: Vec::new() }
    }
}

/// What a search has been told and what it has found so far.
#[verifier::ext_equal]
pub struct SearchView {
    pub information: Info,
    pub warnings: Seq<Seq<char>>,
    pub errors: Seq<Seq<char>>,
    pub included_directories: Seq<PathView>,
    pub excluded_directories: Seq<PathView>,
    pub excluded_items: Seq<Seq<char>>,
    pub image_hashes: Map<u64, Seq<EntryView>>,
    pub similar_vectors: Seq<Seq<EntryView>>,
    pub recursive_search: bool,
    pub minimal_file_size: u64,
    pub stopped_search: bool,
    pub similarity: Similarity,
    pub images_to_check: Seq<EntryView>,
}

/// The sizes of the entries, added up.
pub open spec fn total_size(entries: Seq<EntryView>) -> nat
    decreases entries.len(),
{
    if entries.len() == 0 {
        0
    } else {
        total_size(entries.drop_last()) + entries.last().size as nat
    }
}

/// The total size of no entries is zero, and one more entry adds its size.
pub proof fn law_total_sizes_add_up(entries: Seq<EntryView>, entry: EntryView)
    ensures
        total_size(Seq::empty()) == 0,
        total_size(entries.push(entry)) == total_size(entries) + entry.size,
{
    assert(entries.push(entry).drop_last() =~= entries);
}

/// What holds of a search at any time: the counts of the images to check are right, and none of
/// those images is empty or has been read or rated; every hash has an image; every group that is
/// shown has at least two entries, all of them rated, the first as `VeryHigh`; and, as a search
/// removes nothing, it counts no removals.
pub open spec fn consistent(search: SearchView) -> bool {
    &&& search.minimal_file_size >= 1
    &&& search.information.number_of_checked_files == search.images_to_check.len()
    &&& search.information.size_of_checked_images == total_size(search.images_to_check)
    &&& search.information.lost_space == 0
    &&& search.information.number_of_removed_files == 0
    &&& search.information.number_of_failed_to_remove_files == 0
    &&& search.information.gained_space == 0
    &&& forall|i: int|
        0 <= i < search.images_to_check.len() ==> {
            &&& (#[trigger] search.images_to_check[i]).size >= 1
            &&& search.images_to_check[i].dimensions == Seq::<char>::empty()
            &&& search.images_to_check[i].similarity == Similarity::Unrated
        }
    &&& populated(search.image_hashes)
    &&& forall|i: int|
        0 <= i < search.similar_vectors.len() ==> is_shown_group(
            #[trigger] search.similar_vectors[i],
        )
}

/// Whether a group can be shown: it has at least two entries, all of them rated, the first as
/// `VeryHigh`.
pub open spec fn is_shown_group(group: Seq<EntryView>) -> bool {
    &&& group.len() >= 2
    &&& group[0].similarity == Similarity::VeryHigh
    &&& forall|j: int|
        0 <= j < group.len() ==> (#[trigger] group[j]).similarity != Similarity::Unrated
}

/// The search with one more warning.
pub open spec fn with_warning(search: SearchView, warning: Seq<char>) -> SearchView {
    SearchView { warnings: search.warnings.push(warning), ..search }
}

/// The search with one more error.
pub open spec fn with_error(search: SearchView, error: Seq<char>) -> SearchView {
    SearchView { errors: search.errors.push(error), ..search }
}

/// The search with more folders counted.
pub open spec fn with_folders(search: SearchView, number: int) -> SearchView {
    SearchView {
        information: Info {
            number_of_checked_folders: (search.information.number_of_checked_folders
                + number) as usize,
            ..search.information
        },
        ..search
    }
}

/// The search with one more ignored file counted.
pub open spec fn with_ignored_file(search: SearchView) -> SearchView {
    SearchView {
        information: Info {
            number_of_ignored_files: (search.information.number_of_ignored_files + 1) as usize,
            ..search.information
        },
        ..search
    }
}

/// The search with one more ignored thing counted.
pub open spec fn with_ignored_thing(search: SearchView) -> SearchView {
    SearchView {
        information: Info {
            number_of_ignored_things: (search.information.number_of_ignored_things + 1) as usize,
            ..search.information
        },
        ..search
    }
}

/// The search with one more image to check, counted with its size.
pub open spec fn with_queued_image(search: SearchView, entry: EntryView) -> SearchView {
    SearchView {
        information: Info {
            number_of_checked_files: (search.information.number_of_checked_files + 1) as usize,
            size_of_checked_images: (search.information.size_of_checked_images + entry.size) as u64,
            ..search.information
        },
        images_to_check: search.images_to_check.push(entry),
        ..search
    }
}

} // verus!
