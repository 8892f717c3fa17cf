//! What a whole walk does.

use vstd::prelude::*;
use crate::entry::path_views;
use crate::entry::EntryView;
use crate::entry::PathView;
use crate::lists::lemma_picked_from;
use crate::lists::lemma_picked_last;
use crate::lists::picked;
use crate::search::with_directories;
use crate::state::with_folders;
use crate::state::with_warning;
use crate::state::Directories;
use crate::state::Messages;
use crate::state::SearchView;
use crate::text::lowered;
use crate::walk::after_entry;
use crate::walk::counts_fit;
use crate::walk::folders_after;
use crate::walk::ends_in;
use crate::walk::fresh_entry;
use crate::walk::is_image_name;
use crate::walk::law_image_names;
use crate::walk::Found;
use crate::walk::FoundFile;
use crate::walk::Modified;

verus! {

/// A search and the folders that its walk still has to check.
#[verifier::ext_equal]
pub struct WalkView {
    pub search: SearchView,
    pub folders: Seq<PathView>,
}

/// Something that happens on a walk.
pub enum WalkEvent {
    /// The walk advanced: the folder was taken out of it, to be opened.
    Taken(PathView),
    /// The folder could not be opened.
    NotOpened(PathView),
    /// Something was met in the folder.
    Met(PathView, Found),
}

/// The start of a walk at the folders to search in.
pub open spec fn walk_start(
    search: SearchView,
    directories: Directories,
    text_messages: Messages,
) -> WalkView {
    WalkView {
        search: with_folders(
            with_directories(search, directories, text_messages),
            directories.included_directories@.len() as int,
        ),
        folders: path_views(directories.included_directories@),
    }
}

/// Whether something can happen on a walk: only the folder that was met last can be taken, and
/// what is met has to fit the counts.
pub open spec fn can_happen(walk: WalkView, event: WalkEvent) -> bool {
    match event {
        WalkEvent::Taken(folder) => walk.folders.len() > 0 && folder == walk.folders.last(),
        WalkEvent::NotOpened(_) => true,
        WalkEvent::Met(_, found) => counts_fit(walk.search, found),
    }
}

/// The walk after something happened on it.
pub open spec fn after_event(walk: WalkView, event: WalkEvent) -> WalkView {
    match event {
        WalkEvent::Taken(_) => WalkView { folders: walk.folders.drop_last(), ..walk },
        WalkEvent::NotOpened(folder) => WalkView {
            search: with_warning(walk.search, "Cannot open dir "@ + folder.shown),
            ..walk
        },
        WalkEvent::Met(folder, found) => WalkView {
            search: after_entry(walk.search, folder, found),
            folders: folders_after(walk.folders, walk.search.recursive_search, found),
        },
    }
}

/// The walk after all this happened on it.
pub open spec fn after_events(walk: WalkView, events: Seq<WalkEvent>) -> WalkView
    decreases events.len(),
{
    if events.len() == 0 {
        walk
    } else {
        after_event(after_events(walk, events.drop_last()), events.last())
    }
}

/// Whether all this can happen on a walk, one after the other.
pub open spec fn is_walk(walk: WalkView, events: Seq<WalkEvent>) -> bool
    decreases events.len(),
{
    events.len() > 0 ==> {
        &&& is_walk(walk, events.drop_last())
        &&& can_happen(after_events(walk, events.drop_last()), events.last())
    }
}

/// The folders that were taken out of a walk, in order.
pub open spec fn taken_folders(events: Seq<WalkEvent>) -> Seq<PathView> {
    picked(events, |event: WalkEvent| event is Taken, |event: WalkEvent| event->Taken_0)
}

/// Whether a folder was met that is to be checked too: the search is recursive, and the folder is
/// excluded in neither way.
pub open spec fn enters(event: WalkEvent, recursive_search: bool) -> bool {
    match event {
        WalkEvent::Met(_, Found::Folder(folder)) => {
            &&& recursive_search
            &&& !folder.excluded_directory
            &&& !folder.excluded_item
        },
        _ => false,
    }
}

/// The path of the folder that was met.
pub open spec fn met_folder(event: WalkEvent) -> PathView {
    event->Met_1->Folder_0.path@
}

/// The folders that were met and are to be checked too, once per meeting.
pub open spec fn entered_folders(events: Seq<WalkEvent>, recursive_search: bool) -> Seq<PathView> {
    picked(
        events,
        |event: WalkEvent| enters(event, recursive_search),
        |event: WalkEvent| met_folder(event),
    )
}

/// Whether a file is to be checked: it has the name of an image, is large enough and not
/// excluded, and it can be told when it was modified.
pub open spec fn is_wanted(file: FoundFile, minimal_file_size: u64) -> bool {
    &&& file.name matches Some(name)
    &&& ends_in(lowered(name@), 'j', 'p', 'g') || ends_in(lowered(name@), 'p', 'n', 'g') || ends_in(
        lowered(name@),
        'b',
        'm',
        'p',
    )
    &&& file.size >= minimal_file_size
    &&& !file.excluded
    &&& file.modified != Modified::Unavailable
}

/// The entry of a file that is to be checked.
pub open spec fn entry_of(file: FoundFile) -> EntryView {
    fresh_entry(
        file.path@,
        file.size,
        match file.modified {
            Modified::Seconds(seconds) => seconds,
            _ => 0,
        },
    )
}

/// Whether a file was met that is to be checked.
pub open spec fn meets_wanted(event: WalkEvent, minimal_file_size: u64) -> bool {
    event matches WalkEvent::Met(_, Found::File(file)) && is_wanted(file, minimal_file_size)
}

/// The file that was met.
pub open spec fn met_file(event: WalkEvent) -> FoundFile {
    event->Met_1->File_0
}

/// The entries of the files that were met and are to be checked, once per meeting, in order.
pub open spec fn wanted_entries(events: Seq<WalkEvent>, minimal_file_size: u64) -> Seq<EntryView> {
    picked(
        events,
        |event: WalkEvent| meets_wanted(event, minimal_file_size),
        |event: WalkEvent| entry_of(met_file(event)),
    )
}

/// Whether a file was met that has a name but is no image, or too small.
pub open spec fn meets_ignored(event: WalkEvent, minimal_file_size: u64) -> bool {
    &&& event matches WalkEvent::Met(_, Found::File(file))
    &&& file.name matches Some(name)
    &&& file.size < minimal_file_size || !(ends_in(lowered(name@), 'j', 'p', 'g') || ends_in(
        lowered(name@),
        'p',
        'n',
        'g',
    ) || ends_in(lowered(name@), 'b', 'm', 'p'))
}

/// How many folders were met.
pub open spec fn number_of_folders(events: Seq<WalkEvent>) -> nat {
    events.filter(
        |event: WalkEvent| event matches WalkEvent::Met(_, Found::Folder(_)),
    ).len()
}

/// How many files were met that have a name but are no images, or too small.
pub open spec fn number_of_ignored(events: Seq<WalkEvent>, minimal_file_size: u64) -> nat {
    events.filter(|event: WalkEvent| meets_ignored(event, minimal_file_size)).len()
}

/// How many things were met that are neither folders nor files.
pub open spec fn number_of_others(events: Seq<WalkEvent>) -> nat {
    events.filter(|event: WalkEvent| event matches WalkEvent::Met(_, Found::Other)).len()
}

/// Whether the file that was met has the name of an image.
proof fn lemma_name_of_met_file(event: WalkEvent)
    ensures
        event matches WalkEvent::Met(_, Found::File(file)) ==> (file.name matches Some(name) ==> (
        is_image_name(lowered(name@)) <==> ends_in(lowered(name@), 'j', 'p', 'g') || ends_in(
            lowered(name@),
            'p',
            'n',
            'g',
        ) || ends_in(lowered(name@), 'b', 'm', 'p'))),
{
    if let WalkEvent::Met(_, Found::File(file)) = event {
        if let Some(name) = file.name {
            law_image_names(lowered(name@));
        }
    }
}

/// The settings of a search stay as they are on a walk.
proof fn lemma_settings_stay(walk: WalkView, events: Seq<WalkEvent>)
    ensures
        after_events(walk, events).search.recursive_search == walk.search.recursive_search,
        after_events(walk, events).search.minimal_file_size == walk.search.minimal_file_size,
    decreases events.len(),
{
    if events.len() > 0 {
        lemma_settings_stay(walk, events.drop_last());
    }
}

/// The folders that a walk takes and those that it has left are together those that it began with
/// and, if the search is recursive, each folder that it met and that is excluded in neither way,
/// once per meeting.
pub proof fn law_walk_takes_the_right_folders(walk: WalkView, events: Seq<WalkEvent>)
    requires
        is_walk(walk, events),
    ensures
        taken_folders(events).to_multiset().add(after_events(walk, events).folders.to_multiset())
            == walk.folders.to_multiset().add(
            entered_folders(events, walk.search.recursive_search).to_multiset(),
        ),
    decreases events.len(),
{
    broadcast use vstd::seq_lib::group_to_multiset_ensures;

    let recursive_search = walk.search.recursive_search;
    lemma_picked_last(
        events,
        |event: WalkEvent| event is Taken,
        |event: WalkEvent| event->Taken_0,
    );
    lemma_picked_last(
        events,
        |event: WalkEvent| enters(event, recursive_search),
        |event: WalkEvent| met_folder(event),
    );
    let taken = taken_folders(events);
    let entered = entered_folders(events, recursive_search);
    if events.len() == 0 {
        assert(taken.to_multiset() == entered.to_multiset());
    } else {
        let shorter = events.drop_last();
        let event = events.last();
        let before = after_events(walk, shorter);
        law_walk_takes_the_right_folders(walk, shorter);
        lemma_settings_stay(walk, shorter);
        let after = after_event(before, event);
        if event is Taken {
            let folder = before.folders.last();
            assert(taken.to_multiset() == taken_folders(shorter).to_multiset().insert(folder));
            assert(before.folders =~= after.folders.push(folder));
            assert(before.folders.to_multiset() == after.folders.to_multiset().insert(folder));
        } else if enters(event, recursive_search) {
            let folder = met_folder(event);
            let earlier = entered_folders(shorter, recursive_search);
            assert(entered.to_multiset() == earlier.to_multiset().insert(folder));
            assert(after.folders.to_multiset() == before.folders.to_multiset().insert(folder));
            assert(taken.to_multiset().add(after.folders.to_multiset())
                =~= taken.to_multiset().add(before.folders.to_multiset()).insert(folder));
            assert(walk.folders.to_multiset().add(entered.to_multiset())
                =~= walk.folders.to_multiset().add(earlier.to_multiset()).insert(folder));
        }
    }
    let folders = after_events(walk, events).folders;
    assert(taken.to_multiset().add(folders.to_multiset()) =~= walk.folders.to_multiset().add(
        entered.to_multiset(),
    ));
}

/// A walk puts on the list of images to check exactly the files that it meets with the name of an
/// image, of at least the minimal size, that are not excluded, and of which it can be told when
/// they were modified: each once per meeting, in order, after those that were there before.
pub proof fn law_walk_collects_the_wanted_files(walk: WalkView, events: Seq<WalkEvent>)
    ensures
        after_events(walk, events).search.images_to_check == walk.search.images_to_check
            + wanted_entries(events, walk.search.minimal_file_size),
    decreases events.len(),
{
    let size = walk.search.minimal_file_size;
    lemma_picked_last(
        events,
        |event: WalkEvent| meets_wanted(event, size),
        |event: WalkEvent| entry_of(met_file(event)),
    );
    if events.len() > 0 {
        law_walk_collects_the_wanted_files(walk, events.drop_last());
        lemma_settings_stay(walk, events.drop_last());
        lemma_name_of_met_file(events.last());
    }
    assert(after_events(walk, events).search.images_to_check =~= walk.search.images_to_check
        + wanted_entries(events, size));
}

/// A walk counts each folder that it meets, each file with a name that is no image or too small,
/// and each thing that is neither a folder nor a file.
pub proof fn law_walk_counts_what_it_meets(walk: WalkView, events: Seq<WalkEvent>)
    requires
        is_walk(walk, events),
    ensures
        after_events(walk, events).search.information.number_of_checked_folders
            == walk.search.information.number_of_checked_folders + number_of_folders(events),
        after_events(walk, events).search.information.number_of_ignored_files
            == walk.search.information.number_of_ignored_files + number_of_ignored(
            events,
            walk.search.minimal_file_size,
        ),
        after_events(walk, events).search.information.number_of_ignored_things
            == walk.search.information.number_of_ignored_things + number_of_others(events),
    decreases events.len(),
{
    reveal(Seq::filter);
    if events.len() > 0 {
        law_walk_counts_what_it_meets(walk, events.drop_last());
        lemma_settings_stay(walk, events.drop_last());
        lemma_name_of_met_file(events.last());
    }
}

/// A walk from its start to its end takes the folders to search in and, if the search is
/// recursive, each folder that it met and that is excluded in neither way, once per meeting, and no
/// other; counts them all, and collects exactly the wanted files that it met.
pub proof fn law_whole_walk(
    search: SearchView,
    directories: Directories,
    text_messages: Messages,
    events: Seq<WalkEvent>,
)
    requires
        search.information.number_of_checked_folders + directories.included_directories@.len()
            <= usize::MAX,
        is_walk(walk_start(search, directories, text_messages), events),
        after_events(walk_start(search, directories, text_messages), events).folders.len() == 0,
    ensures
        taken_folders(events).to_multiset() == path_views(
            directories.included_directories@,
        ).to_multiset().add(entered_folders(events, search.recursive_search).to_multiset()),
        ({
            let after = after_events(
                walk_start(search, directories, text_messages),
                events,
            ).search;
            &&& after.images_to_check == search.images_to_check + wanted_entries(
                events,
                search.minimal_file_size,
            )
            &&& after.information.number_of_checked_folders
                == search.information.number_of_checked_folders
                + directories.included_directories@.len() + number_of_folders(events)
            &&& after.image_hashes == search.image_hashes
            &&& after.similar_vectors == search.similar_vectors
            &&& after.stopped_search == search.stopped_search
        }),
{
    broadcast use vstd::seq_lib::group_to_multiset_ensures;

    let walk = walk_start(search, directories, text_messages);
    law_walk_takes_the_right_folders(walk, events);
    law_walk_collects_the_wanted_files(walk, events);
    law_walk_counts_what_it_meets(walk, events);
    lemma_results_stay(walk, events);
    assert(after_events(walk, events).folders =~= Seq::empty());
    assert(taken_folders(events).to_multiset() =~= taken_folders(events).to_multiset().add(
        after_events(walk, events).folders.to_multiset(),
    ));
}

proof fn lemma_results_stay(walk: WalkView, events: Seq<WalkEvent>)
    ensures
        after_events(walk, events).search.image_hashes == walk.search.image_hashes,
        after_events(walk, events).search.similar_vectors == walk.search.similar_vectors,
        after_events(walk, events).search.stopped_search == walk.search.stopped_search,
    decreases events.len(),
{
    if events.len() > 0 {
        lemma_results_stay(walk, events.drop_last());
    }
}

/// Each of the collected entries is that of a wanted file that was met.
pub(crate) proof fn lemma_wanted_files_were_met(
    events: Seq<WalkEvent>,
    minimal_file_size: u64,
    i: int,
) -> (k: int)
    requires
        0 <= i < wanted_entries(events, minimal_file_size).len(),
    ensures
        0 <= k < events.len(),
        meets_wanted(events[k], minimal_file_size),
        wanted_entries(events, minimal_file_size)[i] == entry_of(met_file(events[k])),
{
    lemma_picked_from(
        events,
        |event: WalkEvent| meets_wanted(event, minimal_file_size),
        |event: WalkEvent| entry_of(met_file(event)),
        i,
    )
}

} // verus!
