use vstd::prelude::*;
use crossbeam_channel::Receiver;
use crate::entry::path_views;
use crate::entry::EntryView;
use crate::entry::FileEntry;
use crate::entry::FilePath;
use crate::entry::PathView;
use crate::history::step;
use crate::history::Act;
use crate::search::with_directories;
use crate::search::SimilarImages;
use crate::similarity::Similarity;
use crate::state::consistent;
use crate::state::with_folders;
use crate::state::with_ignored_file;
use crate::state::with_ignored_thing;
use crate::state::with_queued_image;
use crate::state::with_warning;
use crate::state::Directories;
use crate::state::Info;
use crate::state::Messages;
use crate::state::SearchView;
use crate::stop::stop_requested;
use crate::text::ends_with;
use crate::text::lowercase_text;
use crate::text::lowered;
use crate::text::text_views;
use crate::trace::after_event;
use crate::trace::walk_start;
use crate::trace::WalkEvent;
use crate::trace::WalkView;

verus! {

/// When a file was last modified, as far as it can be told.
#[derive(Clone, Copy, PartialEq, Eq, Debug, Structural)]
pub enum Modified {
    /// The file system does not tell.
    Unavailable,
    /// Before the Unix epoch.
    BeforeEpoch,
    /// So many seconds after the Unix epoch.
    Seconds(u64),
}

/// A file that was met in a folder.
pub struct FoundFile {
    /// The path of the file.
    pub path: FilePath,
    /// The name of the file, if it is Unicode.
    pub name: Option<String>,
    pub size: u64,
    /// Whether the path matches one of the excluded items.
    pub excluded: bool,
    pub modified: Modified,
}

/// A folder that was met in a folder.
pub struct FoundFolder {
    /// The path of the folder.
    pub path: FilePath,
    /// Whether the path is one of the excluded folders.
    pub excluded_directory: bool,
    /// Whether the path matches one of the excluded items.
    pub excluded_item: bool,
}

/// Something that was met in a folder.
pub enum Found {
    /// An entry that could not be read.
    UnreadableEntry,
    /// An entry whose metadata could not be read.
    UnreadableMetadata,
    Folder(FoundFolder),
    File(FoundFile),
    /// Neither a folder nor a file; probably a symbolic link.
    Other,
}

/// Whether a name in lower case is that of an image.
pub open spec fn is_image_name(lowercase_name: Seq<char>) -> bool {
    ||| "jpg"@.is_suffix_of(lowercase_name)
    ||| "png"@.is_suffix_of(lowercase_name)
    ||| "bmp"@.is_suffix_of(lowercase_name)
}

/// Whether a name in lower case is that of an image.
pub fn has_image_extension(lowercase_name: &str) -> (image: bool)
    ensures
        image == is_image_name(lowercase_name@),
{
    ends_with(lowercase_name, "jpg") || ends_with(lowercase_name, "png") || ends_with(
        lowercase_name,
        "bmp",
    )
}

/// Whether a text ends with the three characters.
pub open spec fn ends_in(text: Seq<char>, a: char, b: char, c: char) -> bool {
    &&& text.len() >= 3
    &&& text[text.len() - 3] == a
    &&& text[text.len() - 2] == b
    &&& text[text.len() - 1] == c
}

/// A name in lower case is that of an image exactly if it ends with the characters of `jpg`, `png` or
/// `bmp`.
pub proof fn law_image_names(lowercase_name: Seq<char>)
    ensures
        is_image_name(lowercase_name) <==> lowercase_name.len() >= 3 && ({
            let n = lowercase_name.len() as int;
            let last = (lowercase_name[n - 3], lowercase_name[n - 2], lowercase_name[n - 1]);
            last == ('j', 'p', 'g') || last == ('p', 'n', 'g') || last == ('b', 'm', 'p')
        }),
{
    reveal_strlit("jpg");
    reveal_strlit("png");
    reveal_strlit("bmp");
    let n = lowercase_name.len() as int;
    if n >= 3 {
        let last = lowercase_name.subrange(n - 3, n);
        assert(last.len() == 3 && last[0] == lowercase_name[n - 3] && last[1] == lowercase_name[n
            - 2] && last[2] == lowercase_name[n - 1]);
        assert("jpg"@ =~= last <==> last[0] == 'j' && last[1] == 'p' && last[2] == 'g');
        assert("png"@ =~= last <==> last[0] == 'p' && last[1] == 'n' && last[2] == 'g');
        assert("bmp"@ =~= last <==> last[0] == 'b' && last[1] == 'm' && last[2] == 'p');
    }
}

/// Whatever stands before them, a name in lower case with the characters of `jpg`, `png` or `bmp` at
/// its end is that of an image.
pub proof fn law_image_names_have_any_stem(stem: Seq<char>)
    ensures
        is_image_name(stem + seq!['j', 'p', 'g']),
        is_image_name(stem + seq!['p', 'n', 'g']),
        is_image_name(stem + seq!['b', 'm', 'p']),
{
    law_image_names(stem + seq!['j', 'p', 'g']);
    law_image_names(stem + seq!['p', 'n', 'g']);
    law_image_names(stem + seq!['b', 'm', 'p']);
}

/// The test of a name in lower case says that it is that of an image exactly if its last three
/// characters are `jpg`, `png` or `bmp`.
pub proof fn law_image_extensions(lowercase_name: &str, image: bool)
    requires
        call_ensures(has_image_extension, (lowercase_name,), image),
    ensures
        image <==> lowercase_name@.len() >= 3 && ({
            let n = lowercase_name@.len() as int;
            let last = (lowercase_name@[n - 3], lowercase_name@[n - 2], lowercase_name@[n - 1]);
            last == ('j', 'p', 'g') || last == ('p', 'n', 'g') || last == ('b', 'm', 'p')
        }),
{
    law_image_names(lowercase_name@);
}

/// What is to be done with a file.
#[derive(Clone, Copy, PartialEq, Eq, Debug, Structural)]
pub enum Verdict {
    /// Its name is not Unicode: pass over it.
    Unnamed,
    /// It is no image, or too small: count it as ignored.
    Ignored,
    /// It is excluded: pass over it.
    Excluded,
    /// It cannot be told when it was modified: warn, and pass over it.
    Undated,
    /// It was modified before the Unix epoch: warn, and check it.
    Ancient,
    /// Check it; it was modified so many seconds after the Unix epoch.
    Checked(u64),
}

/// What is to be done with a file whose name, in lower case, and properties are as given.
pub open spec fn verdict_on(
    lowercase_name: Option<Seq<char>>,
    size: u64,
    excluded: bool,
    modified: Modified,
    minimal_file_size: u64,
) -> Verdict {
    match lowercase_name {
        None => Verdict::Unnamed,
        Some(name) => if !is_image_name(name) || size < minimal_file_size {
            Verdict::Ignored
        } else if excluded {
            Verdict::Excluded
        } else {
            match modified {
                Modified::Unavailable => Verdict::Undated,
                Modified::BeforeEpoch => Verdict::Ancient,
                Modified::Seconds(seconds) => Verdict::Checked(seconds),
            }
        },
    }
}

/// Decides what is to be done with a file, from its name in lower case and its properties.
pub fn judge_named_file(
    lowercase_name: Option<&str>,
    size: u64,
    excluded: bool,
    modified: Modified,
    minimal_file_size: u64,
) -> (verdict: Verdict)
    ensures
        verdict == verdict_on(
            match lowercase_name {
                Some(name) => Some(name@),
                None => None,
            },
            size,
            excluded,
            modified,
            minimal_file_size,
        ),
{
    match lowercase_name {
        None => Verdict::Unnamed,
        Some(name) => {
            if !has_image_extension(name) {
                Verdict::Ignored
            } else if size >= minimal_file_size {
                if excluded {
                    Verdict::Excluded
                } else {
                    match modified {
                        Modified::Unavailable => Verdict::Undated,
                        Modified::BeforeEpoch => Verdict::Ancient,
                        Modified::Seconds(seconds) => Verdict::Checked(seconds),
                    }
                }
            } else {
                Verdict::Ignored
            }
        },
    }
}

/// What is to be done with a file.
pub open spec fn verdict_on_file(file: FoundFile, minimal_file_size: u64) -> Verdict {
    verdict_on(
        match file.name {
            Some(name) => Some(lowered(name@)),
            None => None,
        },
        file.size,
        file.excluded,
        file.modified,
        minimal_file_size,
    )
}

/// Decides what is to be done with a file.
pub fn judge_file(file: &FoundFile, minimal_file_size: u64) -> (verdict: Verdict)
    ensures
        verdict == verdict_on_file(*file, minimal_file_size),
{
    match &file.name {
        None => judge_named_file(None, file.size, file.excluded, file.modified, minimal_file_size),
        Some(name) => {
            let lower = lowercase_text(name.as_str());
            judge_named_file(
                Some(lower.as_str()),
                file.size,
                file.excluded,
                file.modified,
                minimal_file_size,
            )
        },
    }
}

/// The entry of an image that has not been read yet.
pub open spec fn fresh_entry(path: PathView, size: u64, modified_date: u64) -> EntryView {
    EntryView {
        path,
        size,
        dimensions: Seq::empty(),
        modified_date,
        similarity: Similarity::Unrated,
    }
}

/// The search after a file was met on which the verdict is the given one.
pub open spec fn after_verdict(
    search: SearchView,
    path: PathView,
    size: u64,
    verdict: Verdict,
) -> SearchView {
    match verdict {
        Verdict::Unnamed => search,
        Verdict::Ignored => with_ignored_file(search),
        Verdict::Excluded => search,
        Verdict::Undated => with_warning(
            search,
            "Unable to get modification date from file "@ + path.shown,
        ),
        Verdict::Ancient => with_queued_image(
            with_warning(
                search,
                "File "@ + path.shown + " seems to be modified before Unix Epoch."@,
            ),
            fresh_entry(path, size, 0),
        ),
        Verdict::Checked(seconds) => with_queued_image(search, fresh_entry(path, size, seconds)),
    }
}

/// The search after something was met in a folder.
pub open spec fn after_entry(search: SearchView, folder: PathView, found: Found) -> SearchView {
    match found {
        Found::UnreadableEntry => with_warning(
            search,
            "Cannot read entry in dir "@ + folder.shown,
        ),
        Found::UnreadableMetadata => with_warning(
            search,
            "Cannot read metadata in dir "@ + folder.shown,
        ),
        Found::Folder(_) => with_folders(search, 1),
        Found::File(file) => after_verdict(
            search,
            file.path@,
            file.size,
            verdict_on_file(file, search.minimal_file_size),
        ),
        Found::Other => with_ignored_thing(search),
    }
}

/// The folders that are still to be checked, after something was met in a folder.
pub open spec fn folders_after(
    folders: Seq<PathView>,
    recursive_search: bool,
    found: Found,
) -> Seq<PathView> {
    match found {
        Found::Folder(folder) => if recursive_search && !folder.excluded_directory
            && !folder.excluded_item {
            folders.push(folder.path@)
        } else {
            folders
        },
        _ => folders,
    }
}

/// Whether the counts have room for what was met.
pub open spec fn counts_fit(search: SearchView, found: Found) -> bool {
    match found {
        Found::UnreadableEntry => true,
        Found::UnreadableMetadata => true,
        Found::Folder(_) => search.information.number_of_checked_folders < usize::MAX,
        Found::File(file) => match verdict_on_file(file, search.minimal_file_size) {
            Verdict::Unnamed => true,
            Verdict::Ignored => search.information.number_of_ignored_files < usize::MAX,
            Verdict::Excluded => true,
            Verdict::Undated => true,
            _ => {
                &&& search.information.number_of_checked_files < usize::MAX
                &&& search.information.size_of_checked_images + file.size <= u64::MAX
            },
        },
        Found::Other => search.information.number_of_ignored_things < usize::MAX,
    }
}

/// The folders that a walk still has to check.
pub struct FolderWalk {
    folders_to_check: Vec<FilePath>,
}

impl View for FolderWalk {
    type V = Seq<PathView>;

    closed spec fn view(&self) -> Seq<PathView> {
        path_views(self.folders_to_check@)
    }
}

/// How a walk goes on.
pub enum NextFolder {
    /// Every folder has been checked.
    Finished,
    /// The search was asked to stop.
    Stopped,
    /// The folder with this path comes next.
    Check(FilePath),
}

impl FolderWalk {
    /// Takes the folder that comes next out of the walk: the one that was met last. If the search
    /// has to stop, the walk stays as it is; where no folder is left, there is nothing to stop.
    pub fn advance(&mut self, stop: bool) -> (next: NextFolder)
        ensures
            match next {
                NextFolder::Finished => old(self)@.len() == 0 && final(self)@ == old(self)@,
                NextFolder::Stopped => {
                    &&& old(self)@.len() > 0
                    &&& stop
                    &&& final(self)@ == old(self)@
                },
                NextFolder::Check(path) => {
                    &&& old(self)@.len() > 0
                    &&& !stop
                    &&& path@ == old(self)@.last()
                    &&& final(self)@ == old(self)@.drop_last()
                },
            },
    {
        if self.folders_to_check.len() == 0 {
            return NextFolder::Finished;
        }
        if stop {
            return NextFolder::Stopped;
        }
        let current_folder = self.folders_to_check.pop().unwrap();
        assert(self@ =~= old(self)@.drop_last());
        NextFolder::Check(current_folder)
    }

    /// Advances the walk, unless the search was asked to stop. As long as folders are left, a
    /// message is looked for once before each.
    pub fn next_folder(&mut self, stop_receiver: Option<&Receiver<()>>) -> (next: NextFolder)
        ensures
            match next {
                NextFolder::Finished => old(self)@.len() == 0 && final(self)@ == old(self)@,
                NextFolder::Stopped => {
                    &&& old(self)@.len() > 0
                    &&& stop_receiver is Some
                    &&& call_ensures(stop_requested, (stop_receiver,), true)
                    &&& final(self)@ == old(self)@
                },
                NextFolder::Check(path) => {
                    &&& old(self)@.len() > 0
                    &&& call_ensures(stop_requested, (stop_receiver,), false)
                    &&& path@ == old(self)@.last()
                    &&& final(self)@ == old(self)@.drop_last()
                },
            },
    {
        let stop = self.folders_to_check.len() > 0 && stop_requested(stop_receiver);
        self.advance(stop)
    }
}

impl SimilarImages {
    /// Begins the walk at the folders to search in, given as they are after they were optimised,
    /// with the messages that this left.
    pub fn start_walk(&mut self, directories: Directories, text_messages: Messages) -> (walk:
        FolderWalk)
        requires
            old(self).well_formed(),
            old(self)@.information.number_of_checked_folders
                + directories.included_directories@.len() <= usize::MAX,
        ensures
            final(self).well_formed(),
            final(self)@ == with_folders(
                with_directories(old(self)@, directories, text_messages),
                directories.included_directories@.len() as int,
            ),
            final(self)@ == (SearchView {
                included_directories: path_views(directories.included_directories@),
                excluded_directories: path_views(directories.excluded_directories@),
                warnings: text_views(text_messages.warnings@),
                errors: text_views(text_messages.errors@),
                information: Info {
                    number_of_checked_folders: (old(self)@.information.number_of_checked_folders
                        + directories.included_directories@.len()) as usize,
                    ..old(self)@.information
                },
                ..old(self)@
            }),
            walk@ == path_views(directories.included_directories@),
            (WalkView { search: final(self)@, folders: walk@ }) == walk_start(
                old(self)@,
                directories,
                text_messages,
            ),
            step(old(self)@, Act::Walking, final(self)@),
    {
        let ghost included = path_views(directories.included_directories@);
        let mut folders_to_check: Vec<FilePath> = Vec::new();
        let mut i: usize = 0;
        while i < directories.included_directories.len()
            invariant
                i <= directories.included_directories.len(),
                included == path_views(directories.included_directories@),
                path_views(folders_to_check@) == included.take(i as int),
            decreases directories.included_directories.len() - i,
        {
            let path = directories.included_directories[i].clone();
            let ghost so_far = folders_to_check@;
            folders_to_check.push(path);
            proof {
                assert(path_views(folders_to_check@) =~= path_views(so_far).push(path@));
                assert(included.take(i + 1) =~= included.take(i as int).push(included[i as int]));
            }
            i += 1;
        }
        assert(included.take(i as int) =~= included);
        let number = directories.included_directories.len();
        self.set_included_directory(directories, text_messages);
        self.count_folders(number);
        FolderWalk { folders_to_check }
    }

    /// Notes that a folder could not be opened.
    pub fn folder_not_opened(&mut self, folder: &FilePath)
        requires
            old(self).well_formed(),
        ensures
            final(self).well_formed(),
            final(self)@ == with_warning(
                old(self)@,
                "Cannot open dir "@ + folder@.shown,
            ),
            final(self)@ == (SearchView {
                warnings: old(self)@.warnings.push("Cannot open dir "@ + folder.shown@),
                ..old(self)@
            }),
            step(old(self)@, Act::Walking, final(self)@),
    {
        let mut warning = String::from_str("Cannot open dir ");
        warning.append(folder.shown.as_str());
        self.push_warning(warning);
    }

    /// Takes note of something that was met in a folder.
    pub fn check_entry(&mut self, walk: &mut FolderWalk, folder: &FilePath, found: Found)
        requires
            old(self).well_formed(),
            counts_fit(old(self)@, found),
        ensures
            final(self).well_formed(),
            final(self)@ == after_entry(old(self)@, folder@, found),
            final(walk)@ == folders_after(old(walk)@, old(self)@.recursive_search, found),
            (WalkView { search: final(self)@, folders: final(walk)@ }) == after_event(
                WalkView { search: old(self)@, folders: old(walk)@ },
                WalkEvent::Met(folder@, found),
            ),
            step(old(self)@, Act::Walking, final(self)@),
    {
        match found {
            Found::UnreadableEntry => {
                let mut warning = String::from_str("Cannot read entry in dir ");
                warning.append(folder.shown.as_str());
                self.push_warning(warning);
            },
            Found::UnreadableMetadata => {
                let mut warning = String::from_str("Cannot read metadata in dir ");
                warning.append(folder.shown.as_str());
                self.push_warning(warning);
            },
            Found::Folder(next) => {
                self.count_folders(1);
                if !self.get_recursive_search() {
                    return;
                }
                if next.excluded_directory {
                    return;
                }
                if next.excluded_item {
                    return;
                }
                let ghost path = next.path@;
                walk.folders_to_check.push(next.path);
                assert(walk@ =~= old(walk)@.push(path));
            },
            Found::File(file) => self.check_file(file),
            Found::Other => self.count_ignored_thing(),
        }
    }

    /// Whether the counts have room for what was met.
    pub fn has_room(&self, found: &Found) -> (room: bool)
        ensures
            room == counts_fit(self@, *found),
    {
        let information = self.get_information();
        match found {
            Found::UnreadableEntry => true,
            Found::UnreadableMetadata => true,
            Found::Folder(_) => information.number_of_checked_folders < usize::MAX,
            Found::File(file) => match judge_file(file, self.get_minimal_file_size()) {
                Verdict::Unnamed => true,
                Verdict::Ignored => information.number_of_ignored_files < usize::MAX,
                Verdict::Excluded => true,
                Verdict::Undated => true,
                _ => {
                    information.number_of_checked_files < usize::MAX
                        && information.size_of_checked_images <= u64::MAX - file.size
                },
            },
            Found::Other => information.number_of_ignored_things < usize::MAX,
        }
    }

    /// Takes note of something that was met in a folder, if the counts have room for it; the
    /// result tells whether they have.
    pub fn try_check_entry(&mut self, walk: &mut FolderWalk, folder: &FilePath, found: Found) -> (
        noted: bool)
        requires
            old(self).well_formed(),
        ensures
            final(self).well_formed(),
            noted == counts_fit(old(self)@, found),
            noted ==> final(self)@ == after_entry(old(self)@, folder@, found) && final(walk)@
                == folders_after(old(walk)@, old(self)@.recursive_search, found),
            !noted ==> final(self)@ == old(self)@ && final(walk)@ == old(walk)@,
            step(old(self)@, Act::Walking, final(self)@),
    {
        if self.has_room(&found) {
            self.check_entry(walk, folder, found);
            true
        } else {
            false
        }
    }

    fn check_file(&mut self, file: FoundFile)
        requires
            old(self).well_formed(),
            counts_fit(old(self)@, Found::File(file)),
        ensures
            final(self).well_formed(),
            final(self)@ == after_verdict(
                old(self)@,
                file.path@,
                file.size,
                verdict_on_file(file, old(self)@.minimal_file_size),
            ),
    {
        match judge_file(&file, self.get_minimal_file_size()) {
            Verdict::Unnamed => {},
            Verdict::Ignored => self.count_ignored_file(),
            Verdict::Excluded => {},
            Verdict::Undated => {
                let mut warning = String::from_str("Unable to get modification date from file ");
                warning.append(file.path.shown.as_str());
                self.push_warning(warning);
            },
            Verdict::Ancient => {
                let mut warning = String::from_str("File ");
                warning.append(file.path.shown.as_str());
                warning.append(" seems to be modified before Unix Epoch.");
                self.push_warning(warning);
                self.queue_image(
                    FileEntry {
                        path: file.path,
                        size: file.size,
                        dimensions: String::new(),
                        modified_date: 0,
                        similarity: Similarity::Unrated,
                    },
                );
            },
            Verdict::Checked(seconds) => {
                self.queue_image(
                    FileEntry {
                        path: file.path,
                        size: file.size,
                        dimensions: String::new(),
                        modified_date: seconds,
                        similarity: Similarity::Unrated,
                    },
                );
            },
        }
    }
}

/// A walk enters a subfolder exactly if the search is recursive and the folder is not excluded in
/// either way; nothing else makes the walk longer.
pub proof fn law_folders_entered(folders: Seq<PathView>, recursive_search: bool, found: Found)
    ensures
        folders_after(folders, recursive_search, found) != folders <==> {
            &&& found matches Found::Folder(folder)
            &&& recursive_search
            &&& !folder.excluded_directory
            &&& !folder.excluded_item
        },
        found matches Found::Folder(folder) ==> folders_after(folders, recursive_search, found)
            == folders || folders_after(folders, recursive_search, found) == folders.push(
            folder.path@,
        ),
{
    if let Found::Folder(folder) = found {
        assert(folders.push(folder.path@).len() != folders.len());
    }
}

/// Nothing that is met takes an image off the list, and an image comes on it only as a file with
/// the name of an image, of at least the minimal size, and not excluded.
pub proof fn law_images_checked(search: SearchView, folder: PathView, found: Found)
    ensures
        search.images_to_check.is_prefix_of(
            after_entry(search, folder, found).images_to_check,
        ),
        after_entry(search, folder, found).images_to_check != search.images_to_check ==> {
            &&& found matches Found::File(file)
            &&& file.name matches Some(name)
            &&& ends_in(lowered(name@), 'j', 'p', 'g') || ends_in(lowered(name@), 'p', 'n', 'g')
                || ends_in(lowered(name@), 'b', 'm', 'p')
            &&& file.size >= search.minimal_file_size
            &&& !file.excluded
            &&& after_entry(search, folder, found).images_to_check.len()
                == search.images_to_check.len() + 1
            &&& after_entry(search, folder, found).images_to_check.last().path == file.path@
            &&& after_entry(search, folder, found).images_to_check.last().size == file.size
        },
{
    if let Found::File(file) = found {
        if let Some(name) = file.name {
            law_image_names(lowered(name@));
        }
    }
}

/// Whatever is met in a folder, the search stays consistent: among other things, the counts of
/// the images to check remain right and no empty file becomes one of them.
pub proof fn law_walk_keeps_consistency(search: SearchView, folder: PathView, found: Found)
    requires
        consistent(search),
        counts_fit(search, found),
    ensures
        consistent(after_entry(search, folder, found)),
{
    let after = after_entry(search, folder, found);
    if after.images_to_check != search.images_to_check {
        assert(after.images_to_check.drop_last() =~= search.images_to_check);
    }
}

/// Whether a file has the name of an image: its name is Unicode and ends, in lower case, with the
/// characters of `jpg`, `png` or `bmp`.
pub open spec fn is_named_as_image(file: FoundFile) -> bool {
    &&& file.name matches Some(name)
    &&& ends_in(lowered(name@), 'j', 'p', 'g') || ends_in(lowered(name@), 'p', 'n', 'g') || ends_in(
        lowered(name@),
        'b',
        'm',
        'p',
    )
}

proof fn lemma_verdict(file: FoundFile, minimal_file_size: u64)
    ensures
        ({
            let verdict = verdict_on_file(file, minimal_file_size);
            let named = is_named_as_image(file);
            let large = file.size >= minimal_file_size;
            &&& verdict == Verdict::Unnamed <==> file.name is None
            &&& verdict == Verdict::Ignored <==> file.name is Some && !(named && large)
            &&& verdict == Verdict::Excluded <==> named && large && file.excluded
            &&& verdict == Verdict::Undated <==> named && large && !file.excluded && file.modified
                == Modified::Unavailable
            &&& verdict == Verdict::Ancient <==> named && large && !file.excluded && file.modified
                == Modified::BeforeEpoch
            &&& verdict is Checked <==> named && large && !file.excluded && file.modified is Seconds
            &&& verdict matches Verdict::Checked(seconds) ==> file.modified == Modified::Seconds(
                seconds,
            )
        }),
{
    if let Some(name) = file.name {
        law_image_names(lowered(name@));
    }
}

/// A file without a Unicode name is passed over. One with another name than that of an image, or
/// below the minimal size, is ignored. Of the others, those that are excluded are passed over, and
/// the rest are judged by when they were modified.
pub proof fn law_files_are_judged(file: &FoundFile, minimal_file_size: u64, verdict: Verdict)
    requires
        call_ensures(judge_file, (file, minimal_file_size), verdict),
    ensures
        ({
            let named = is_named_as_image(*file);
            let large = file.size >= minimal_file_size;
            &&& verdict == Verdict::Unnamed <==> file.name is None
            &&& verdict == Verdict::Ignored <==> file.name is Some && !(named && large)
            &&& verdict == Verdict::Excluded <==> named && large && file.excluded
            &&& verdict == Verdict::Undated <==> named && large && !file.excluded && file.modified
                == Modified::Unavailable
            &&& verdict == Verdict::Ancient <==> named && large && !file.excluded && file.modified
                == Modified::BeforeEpoch
            &&& verdict is Checked <==> named && large && !file.excluded && file.modified is Seconds
            &&& verdict matches Verdict::Checked(seconds) ==> file.modified == Modified::Seconds(
                seconds,
            )
        }),
{
    lemma_verdict(*file, minimal_file_size);
}

/// What a file that is met changes of a search: nothing, if its name is not Unicode or if it would
/// be checked but is excluded; a count, if it is ignored; a warning, if it cannot be told when it was
/// modified. Otherwise it is put on the list of the images to check, unread and unrated, and
/// counted with its size; if it is from before the Unix epoch, with a warning and the date zero.
pub proof fn law_what_a_file_changes(search: SearchView, folder: PathView, file: FoundFile)
    requires
        counts_fit(search, Found::File(file)),
    ensures
        ({
            let after = after_entry(search, folder, Found::File(file));
            let wanted = is_named_as_image(file) && file.size >= search.minimal_file_size
                && !file.excluded;
            let ignored = file.name is Some && !(is_named_as_image(file) && file.size
                >= search.minimal_file_size);
            &&& !wanted && !ignored ==> after == search
            &&& ignored ==> after == (SearchView { information: after.information, ..search })
                && after.information == (Info {
                number_of_ignored_files: after.information.number_of_ignored_files,
                ..search.information
            }) && after.information.number_of_ignored_files
                == search.information.number_of_ignored_files + 1
            &&& wanted && file.modified == Modified::Unavailable ==> after == (SearchView {
                warnings: search.warnings.push(
                    "Unable to get modification date from file "@ + file.path.shown@,
                ),
                ..search
            })
            &&& wanted && file.modified != Modified::Unavailable ==> {
                &&& after == (SearchView {
                    information: after.information,
                    warnings: after.warnings,
                    images_to_check: search.images_to_check.push(
                        EntryView {
                            path: file.path@,
                            size: file.size,
                            dimensions: Seq::empty(),
                            modified_date: after.images_to_check.last().modified_date,
                            similarity: Similarity::Unrated,
                        },
                    ),
                    ..search
                })
                &&& after.information == (Info {
                    number_of_checked_files: after.information.number_of_checked_files,
                    size_of_checked_images: after.information.size_of_checked_images,
                    ..search.information
                })
                &&& after.information.number_of_checked_files
                    == search.information.number_of_checked_files + 1
                &&& after.information.size_of_checked_images
                    == search.information.size_of_checked_images + file.size
                &&& file.modified matches Modified::Seconds(seconds) ==> {
                    &&& after.images_to_check.last().modified_date == seconds
                    &&& after.warnings == search.warnings
                }
                &&& file.modified == Modified::BeforeEpoch ==> {
                    &&& after.images_to_check.last().modified_date == 0
                    &&& after.warnings == search.warnings.push(
                        "File "@ + file.path.shown@ + " seems to be modified before Unix Epoch."@,
                    )
                }
            }
        }),
{
    lemma_verdict(file, search.minimal_file_size);
}

/// What anything but a file changes of a search: an entry or metadata that cannot be read leaves a
/// warning that names the folder, and a folder or another thing is counted.
pub proof fn law_what_other_things_change(search: SearchView, folder: PathView, found: Found)
    requires
        counts_fit(search, found),
        !(found is File),
    ensures
        ({
            let after = after_entry(search, folder, found);
            &&& found is UnreadableEntry ==> after == (SearchView {
                warnings: search.warnings.push("Cannot read entry in dir "@ + folder.shown),
                ..search
            })
            &&& found is UnreadableMetadata ==> after == (SearchView {
                warnings: search.warnings.push("Cannot read metadata in dir "@ + folder.shown),
                ..search
            })
            &&& found is Folder || found is Other ==> after == (SearchView {
                information: after.information,
                ..search
            })
            &&& found is Folder ==> after.information == (Info {
                number_of_checked_folders: after.information.number_of_checked_folders,
                ..search.information
            }) && after.information.number_of_checked_folders
                == search.information.number_of_checked_folders + 1
            &&& found is Other ==> after.information == (Info {
                number_of_ignored_things: after.information.number_of_ignored_things,
                ..search.information
            }) && after.information.number_of_ignored_things
                == search.information.number_of_ignored_things + 1
        }),
{
}

/// The counts have room for what was met exactly if the ones that it adds to can hold it.
pub proof fn law_when_counts_have_room(search: SearchView, found: Found)
    ensures
        found is UnreadableEntry || found is UnreadableMetadata ==> counts_fit(search, found),
        found is Folder ==> (counts_fit(search, found) <==>
            search.information.number_of_checked_folders < usize::MAX),
        found is Other ==> (counts_fit(search, found) <==>
            search.information.number_of_ignored_things < usize::MAX),
        found matches Found::File(file) ==> ({
            let suits = is_named_as_image(file) && file.size >= search.minimal_file_size;
            &&& file.name is None ==> counts_fit(search, found)
            &&& file.name is Some && !suits ==> (counts_fit(search, found) <==>
                search.information.number_of_ignored_files < usize::MAX)
            &&& suits && (file.excluded || file.modified == Modified::Unavailable) ==> counts_fit(
                search,
                found,
            )
            &&& suits && !file.excluded && file.modified != Modified::Unavailable ==> (counts_fit(
                search,
                found,
            ) <==> search.information.number_of_checked_files < usize::MAX
                && search.information.size_of_checked_images + file.size <= u64::MAX)
        }),
{
    if let Found::File(file) = found {
        lemma_verdict(file, search.minimal_file_size);
    }
}

} // verus!
