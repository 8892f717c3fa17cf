use vstd::prelude::*;
use crate::entry::entry_views;
use crate::entry::group_views;
use crate::entry::path_views;
use crate::entry::EntryView;
use crate::entry::FileEntry;
use crate::entry::FilePath;
use crate::entry::PathView;
use crate::history::step;
use crate::history::Act;
use crate::search::SimilarImages;
use crate::similarity::get_string_from_similarity;
use crate::similarity::similarity_words;
use crate::similarity::Similarity;
use crate::state::is_shown_group;
use crate::state::with_error;
use crate::state::SearchView;
use crate::text::all_quoted;
use crate::text::bracketed;
use crate::text::bracketed_text;
use crate::text::decimal;
use crate::text::decimal_text;
use crate::text::human_size;
use crate::text::law_decimals_read_back;
use crate::text::law_lists_hold_every_text;
use crate::text::lemma_part_occurs;
use crate::text::number_in;
use crate::text::quoted;
use crate::text::quoted_texts;
use crate::text::size_text;
use crate::text::text_views;

verus! {

/// The line that shows an image.
pub open spec fn entry_line(entry: EntryView) -> Seq<char> {
    entry.path.shown + " - "@ + entry.dimensions + " - "@ + size_text(entry.size) + " - "@
        + similarity_words(entry.similarity) + "\n"@
}

/// The lines that show the images of a group.
pub open spec fn group_lines(group: Seq<EntryView>) -> Seq<char>
    decreases group.len(),
{
    if group.len() == 0 {
        Seq::empty()
    } else {
        group_lines(group.drop_last()) + entry_line(group.last())
    }
}

/// The lines that show the groups, with an empty line after each.
pub open spec fn groups_lines(groups: Seq<Seq<EntryView>>) -> Seq<char>
    decreases groups.len(),
{
    if groups.len() == 0 {
        Seq::empty()
    } else {
        groups_lines(groups.drop_last()) + group_lines(groups.last()) + "\n"@
    }
}

/// The text that shows the results: nothing, if nothing was found.
pub open spec fn listing(groups: Seq<Seq<EntryView>>) -> Seq<char> {
    if groups.len() == 0 {
        Seq::empty()
    } else {
        "Found "@ + decimal(groups.len()) + " images which have similar friends\n"@ + groups_lines(
            groups,
        )
    }
}

/// The paths in quotes, as a list in brackets.
pub open spec fn path_list(paths: Seq<PathView>) -> Seq<char> {
    bracketed(paths.map_values(|path: PathView| path.quoted))
}

/// The first line of a file with results: the folders and the items of the search.
pub open spec fn header_line(search: SearchView) -> Seq<char> {
    "Results of searching "@ + path_list(search.included_directories)
        + " with excluded directories "@ + path_list(search.excluded_directories)
        + " and excluded items "@ + bracketed(all_quoted(search.excluded_items)) + "\n"@
}

/// What follows the first line in a file with results.
pub open spec fn summary(groups: Seq<Seq<EntryView>>) -> Seq<char> {
    if groups.len() == 0 {
        "Not found any similar images."@
    } else {
        decimal(groups.len()) + " images which have similar friends\n\n"@
    }
}

/// The text that shows the counts of a search, for debugging.
pub open spec fn debug_lines(search: SearchView) -> Seq<char> {
    "---------------DEBUG PRINT---------------\nNumber of all checked folders - "@ + decimal(
        search.information.number_of_checked_folders as nat,
    ) + "\nIncluded directories - "@ + path_list(search.included_directories)
        + "\nChecked images "@ + decimal(
        search.information.number_of_checked_files as nat,
    ) + " / Different photos "@ + decimal(search.image_hashes.dom().len())
        + "\nSize of checked images "@ + size_text(search.information.size_of_checked_images)
        + " ("@ + decimal(search.information.size_of_checked_images as nat)
        + " Bytes)\n-----------------------------------------\n"@
}

/// The name of the file for the results, if the given name was asked for.
pub open spec fn file_name_for(file_name: Seq<char>) -> Seq<char> {
    if file_name.len() == 0 {
        "results.txt"@
    } else {
        file_name
    }
}

/// How far the saving of results got.
#[derive(Clone, Copy, PartialEq, Eq, Debug, Structural)]
pub enum SaveOutcome {
    /// The file could not be created.
    NotCreated,
    /// The first line could not be written.
    NotWritten,
    /// Everything was written.
    Written,
}

/// The search after the saving of its results to the named file got so far.
pub open spec fn after_saving(
    search: SearchView,
    file_name: Seq<char>,
    outcome: SaveOutcome,
) -> SearchView {
    match outcome {
        SaveOutcome::NotCreated => with_error(
            search,
            "Failed to create file "@ + file_name_for(file_name),
        ),
        SaveOutcome::NotWritten => with_error(
            search,
            "Failed to save results to file "@ + file_name_for(file_name),
        ),
        SaveOutcome::Written => search,
    }
}

/// The name of the file for the results: the one that was asked for, or `results.txt`.
pub fn results_file_name(file_name: &str) -> (name: String)
    ensures
        name@ == file_name_for(file_name@),
{
    if file_name.is_empty() {
        String::from_str("results.txt")
    } else {
        String::from_str(file_name)
    }
}

/// The line that shows an image.
fn entry_text(entry: &FileEntry) -> (text: String)
    requires
        entry.similarity != Similarity::Unrated,
    ensures
        text@ == entry_line(entry@),
{
    let mut text = entry.path.shown.clone();
    text.append(" - ");
    text.append(entry.dimensions.as_str());
    text.append(" - ");
    text.append(human_size(entry.size).as_str());
    text.append(" - ");
    text.append(get_string_from_similarity(&entry.similarity));
    text.append("\n");
    text
}

/// The lines that show the images of a group.
fn group_text(group: &Vec<FileEntry>) -> (text: String)
    requires
        forall|i: int|
            0 <= i < group@.len() ==> (#[trigger] group@[i]).similarity != Similarity::Unrated,
    ensures
        text@ == group_lines(entry_views(group@)),
{
    let ghost entries = entry_views(group@);
    let mut text = String::new();
    assert(entries.take(0) =~= Seq::empty());
    let mut i: usize = 0;
    while i < group.len()
        invariant
            i <= group.len(),
            entries == entry_views(group@),
            forall|i: int|
                0 <= i < group@.len() ==> (#[trigger] group@[i]).similarity != Similarity::Unrated,
            text@ == group_lines(entries.take(i as int)),
        decreases group.len() - i,
    {
        text.append(entry_text(&group[i]).as_str());
        proof {
            assert(entries.take(i + 1).drop_last() =~= entries.take(i as int));
            assert(entries.take(i + 1).last() == group@[i as int]@);
        }
        i += 1;
    }
    assert(entries.take(i as int) =~= entries);
    text
}

/// The paths in quotes, as a list in brackets.
fn path_list_text(paths: &Vec<FilePath>) -> (text: String)
    ensures
        text@ == path_list(path_views(paths@)),
{
    let ghost all = path_views(paths@).map_values(|path: PathView| path.quoted);
    let mut quotations: Vec<String> = Vec::new();
    let mut i: usize = 0;
    while i < paths.len()
        invariant
            i <= paths.len(),
            all == path_views(paths@).map_values(|path: PathView| path.quoted),
            text_views(quotations@) == all.take(i as int),
        decreases paths.len() - i,
    {
        let quotation = paths[i].quoted.clone();
        let ghost so_far = quotations@;
        quotations.push(quotation);
        proof {
            assert(text_views(quotations@) =~= text_views(so_far).push(quotation@));
            assert(all.take(i + 1) =~= all.take(i as int).push(all[i as int]));
        }
        i += 1;
    }
    assert(all.take(i as int) =~= all);
    bracketed_text(&quotations)
}

impl SimilarImages {
    /// The text that shows the groups of similar images; empty, if there are none.
    pub fn print_results(&self) -> (text: String)
        requires
            self.well_formed(),
        ensures
            text@ == listing(self@.similar_vectors),
    {
        let groups = self.get_similar_images();
        let ghost views = group_views(groups@);
        if groups.len() == 0 {
            return String::new();
        }
        let mut text = String::from_str("Found ");
        text.append(decimal_text(groups.len() as u64).as_str());
        text.append(" images which have similar friends\n");
        let ghost first_line = text@;
        assert(views.take(0) =~= Seq::empty());
        assert(first_line + groups_lines(views.take(0)) =~= first_line);
        let mut i: usize = 0;
        while i < groups.len()
            invariant
                i <= groups.len(),
                self.well_formed(),
                views == group_views(groups@),
                views == self@.similar_vectors,
                text@ == first_line + groups_lines(views.take(i as int)),
            decreases groups.len() - i,
        {
            proof {
                assert forall|j: int| 0 <= j < groups@[i as int]@.len() implies (
                #[trigger] groups@[i as int]@[j]).similarity != Similarity::Unrated by {
                    assert(is_shown_group(self@.similar_vectors[i as int]));
                    assert(self@.similar_vectors[i as int][j].similarity != Similarity::Unrated);
                }
            }
            text.append(group_text(&groups[i]).as_str());
            text.append("\n");
            proof {
                assert(views.take(i + 1).drop_last() =~= views.take(i as int));
                assert(views.take(i + 1).last() == entry_views(groups@[i as int]@));
                assert(text@ =~= first_line + groups_lines(views.take(i + 1)));
            }
            i += 1;
        }
        assert(views.take(i as int) =~= views);
        text
    }

    /// The first line of a file with results: the folders and the items of the search.
    pub fn results_header(&self) -> (text: String)
        ensures
            text@ == header_line(self@),
    {
        let directories = self.get_directories();
        let mut text = String::from_str("Results of searching ");
        text.append(path_list_text(&directories.included_directories).as_str());
        text.append(" with excluded directories ");
        text.append(path_list_text(&directories.excluded_directories).as_str());
        text.append(" and excluded items ");
        let items = quoted_texts(&self.get_excluded_items().items);
        text.append(bracketed_text(&items).as_str());
        text.append("\n");
        text
    }

    /// What follows the first line in a file with results.
    pub fn results_summary(&self) -> (text: String)
        ensures
            text@ == summary(self@.similar_vectors),
    {
        let groups = self.get_similar_images();
        if groups.len() > 0 {
            let mut text = decimal_text(groups.len() as u64);
            text.append(" images which have similar friends\n\n");
            text
        } else {
            String::from_str("Not found any similar images.")
        }
    }

    /// Takes note of how far the saving of the results to the named file got; the result tells
    /// whether it succeeded.
    pub fn save_results_to_file(&mut self, file_name: &str, outcome: SaveOutcome) -> (saved: bool)
        requires
            old(self).well_formed(),
        ensures
            final(self).well_formed(),
            final(self)@ == after_saving(old(self)@, file_name@, outcome),
            step(old(self)@, Act::Setting, final(self)@),
            saved == (outcome == SaveOutcome::Written),
    {
        let file_name = results_file_name(file_name);
        match outcome {
            SaveOutcome::NotCreated => {
                let mut error = String::from_str("Failed to create file ");
                error.append(file_name.as_str());
                self.push_error(error);
                false
            },
            SaveOutcome::NotWritten => {
                let mut error = String::from_str("Failed to save results to file ");
                error.append(file_name.as_str());
                self.push_error(error);
                false
            },
            SaveOutcome::Written => true,
        }
    }

    /// The text that shows the counts of the search, for debugging.
    pub fn debug_print(&self) -> (text: String)
        ensures
            text@ == debug_lines(self@),
    {
        let information = self.get_information();
        let mut text = String::from_str(
            "---------------DEBUG PRINT---------------\nNumber of all checked folders - ",
        );
        text.append(decimal_text(information.number_of_checked_folders as u64).as_str());
        text.append("\nIncluded directories - ");
        text.append(path_list_text(&self.get_directories().included_directories).as_str());
        text.append("\nChecked images ");
        text.append(decimal_text(information.number_of_checked_files as u64).as_str());
        text.append(" / Different photos ");
        text.append(decimal_text(self.number_of_different_images() as u64).as_str());
        text.append("\nSize of checked images ");
        text.append(human_size(information.size_of_checked_images).as_str());
        text.append(" (");
        text.append(decimal_text(information.size_of_checked_images).as_str());
        text.append(" Bytes)\n-----------------------------------------\n");
        text
    }
}

/// The parts of the text for a group: one line for each entry of the group, whatever its rating.
proof fn lemma_group_lines(group: Seq<EntryView>) -> (lines: Seq<Seq<char>>)
    ensures
        group_lines(group) == lines.flatten(),
        lines.len() == group.len(),
        forall|j: int|
            0 <= j < group.len() ==> #[trigger] lines[j] == group[j].path.shown + " - "@
                + group[j].dimensions + " - "@ + size_text(group[j].size) + " - "@
                + similarity_words(group[j].similarity) + "\n"@,
    decreases group.len(),
{
    if group.len() == 0 {
        Seq::empty()
    } else {
        let shorter = group.drop_last();
        let before = lemma_group_lines(shorter);
        let entry = group.last();
        let line = entry.path.shown + " - "@ + entry.dimensions + " - "@ + size_text(entry.size)
            + " - "@ + similarity_words(entry.similarity) + "\n"@;
        before.lemma_flatten_push(line);
        assert(group_lines(group) =~= before.push(line).flatten());
        assert forall|j: int| 0 <= j < shorter.len() implies before.push(line)[j] == before[j]
            && shorter[j] == group[j] by {}
        before.push(line)
    }
}

proof fn lemma_groups_lines(groups: Seq<Seq<EntryView>>) -> (parts: (
    Seq<Seq<Seq<char>>>,
    Seq<Seq<char>>,
))
    ensures
        groups_lines(groups) == parts.1.flatten(),
        parts.0.len() == groups.len(),
        parts.1.len() == groups.len(),
        forall|g: int|
            0 <= g < groups.len() ==> #[trigger] parts.1[g] == parts.0[g].flatten() + "\n"@,
        forall|g: int| 0 <= g < groups.len() ==> (#[trigger] parts.0[g]).len() == groups[g].len(),
        forall|g: int, j: int|
            0 <= g < groups.len() && 0 <= j < groups[g].len() ==> #[trigger] parts.0[g][j]
                == groups[g][j].path.shown + " - "@ + groups[g][j].dimensions + " - "@ + size_text(
                groups[g][j].size,
            ) + " - "@ + similarity_words(groups[g][j].similarity) + "\n"@,
    decreases groups.len(),
{
    if groups.len() == 0 {
        (Seq::empty(), Seq::empty())
    } else {
        let shorter = groups.drop_last();
        let before = lemma_groups_lines(shorter);
        let lines = lemma_group_lines(groups.last());
        let block = lines.flatten() + "\n"@;
        before.1.lemma_flatten_push(block);
        let parts = (before.0.push(lines), before.1.push(block));
        assert(groups_lines(groups) =~= parts.1.flatten());
        assert forall|g: int| 0 <= g < shorter.len() implies parts.0[g] == before.0[g]
            && #[trigger] parts.1[g] == before.1[g] && shorter[g] == groups[g] by {}
        assert forall|g: int, j: int|
            0 <= g < groups.len() && 0 <= j < groups[g].len() implies #[trigger] parts.0[g][j]
            == groups[g][j].path.shown + " - "@ + groups[g][j].dimensions + " - "@ + size_text(
            groups[g][j].size,
        ) + " - "@ + similarity_words(groups[g][j].similarity) + "\n"@ by {
            if g < shorter.len() {
                assert(parts.0[g][j] == before.0[g][j]);
                assert(groups[g][j] == shorter[g][j]);
            } else {
                assert(parts.0[g] == lines);
                assert(groups[g] == groups.last());
            }
        }
        parts
    }
}

/// The text that shows the results is empty exactly if there are no groups. Otherwise a first line
/// gives the number of groups, and a block for each group follows, with one line for each of its
/// entries, whatever its rating, and an empty line. The line shows the path, the dimensions, the
/// size and the words for the similarity of its entry. The result are the lines of each group, and
/// the blocks.
pub proof fn law_every_entry_has_its_line(search: &SimilarImages, text: String) -> (parts: (
    Seq<Seq<Seq<char>>>,
    Seq<Seq<char>>,
))
    requires
        call_ensures(SimilarImages::print_results, (search,), text),
    ensures
        ({
            let groups = search@.similar_vectors;
            let (lines, blocks) = parts;
            &&& text@.len() == 0 <==> groups.len() == 0
            &&& groups.len() > 0 ==> text@ == "Found "@ + decimal(groups.len())
                + " images which have similar friends\n"@ + blocks.flatten()
            &&& lines.len() == groups.len()
            &&& blocks.len() == groups.len()
            &&& forall|g: int|
                0 <= g < groups.len() ==> #[trigger] blocks[g] == lines[g].flatten() + "\n"@
            &&& forall|g: int| 0 <= g < groups.len() ==> (#[trigger] lines[g]).len() == groups[g].len()
            &&& forall|g: int, j: int|
                0 <= g < groups.len() && 0 <= j < groups[g].len() ==> #[trigger] lines[g][j]
                    == groups[g][j].path.shown + " - "@ + groups[g][j].dimensions + " - "@
                    + size_text(groups[g][j].size) + " - "@ + similarity_words(
                    groups[g][j].similarity,
                ) + "\n"@
        }),
{
    law_decimals_read_back(search@.similar_vectors.len());
    lemma_groups_lines(search@.similar_vectors)
}

/// Every entry of every group occurs in the text that shows the results, with its path, its
/// dimensions, its size and the words for its similarity. The result is what stands before its
/// line, and what after it.
pub proof fn law_every_entry_occurs(
    search: &SimilarImages,
    text: String,
    g: int,
    j: int,
) -> (around: (Seq<char>, Seq<char>))
    requires
        call_ensures(SimilarImages::print_results, (search,), text),
        0 <= g < search@.similar_vectors.len(),
        0 <= j < search@.similar_vectors[g].len(),
    ensures
        ({
            let entry = search@.similar_vectors[g][j];
            text@ == around.0 + (entry.path.shown + " - "@ + entry.dimensions + " - "@ + size_text(
                entry.size,
            ) + " - "@ + similarity_words(entry.similarity) + "\n"@) + around.1
        }),
{
    let groups = search@.similar_vectors;
    let (lines, blocks) = law_every_entry_has_its_line(search, text);
    let first = "Found "@ + decimal(groups.len()) + " images which have similar friends\n"@;
    let block = lemma_part_occurs(blocks, g);
    let line = lemma_part_occurs(lines[g], j);
    assert(blocks[g] == lines[g].flatten() + "\n"@);
    let shown = lines[g][j];
    lemma_regroup(first, block.0, line.0, shown, line.1, "\n"@, block.1);
    (first + block.0 + line.0, line.1 + "\n"@ + block.1)
}

proof fn lemma_regroup(
    a: Seq<char>,
    b: Seq<char>,
    c: Seq<char>,
    d: Seq<char>,
    e: Seq<char>,
    f: Seq<char>,
    g: Seq<char>,
)
    ensures
        a + (b + ((c + d + e) + f) + g) == (a + b + c) + d + (e + f + g),
{
    assert(a + (b + ((c + d + e) + f) + g) =~= (a + b + c) + d + (e + f + g));
}

/// After the first line of a file with results comes "Not found any similar images." exactly if
/// there are no groups; otherwise it is the number of groups, in digits that read back as it, and
/// the words for it.
pub proof fn law_summaries_tell_the_number_of_groups(search: &SimilarImages, text: String) -> (
    digits: Seq<char>)
    requires
        call_ensures(SimilarImages::results_summary, (search,), text),
    ensures
        search@.similar_vectors.len() == 0 <==> text@ == "Not found any similar images."@,
        search@.similar_vectors.len() > 0 ==> {
            &&& text@ == digits + " images which have similar friends\n\n"@
            &&& digits.len() > 0
            &&& forall|i: int| 0 <= i < digits.len() ==> '0' <= #[trigger] digits[i] <= '9'
            &&& number_in(digits) == search@.similar_vectors.len()
        },
{
    let groups = search@.similar_vectors;
    law_decimals_read_back(groups.len());
    reveal_strlit("Not found any similar images.");
    reveal_strlit(" images which have similar friends\n\n");
    if groups.len() > 0 {
        assert(text@[0] == decimal(groups.len())[0]);
        assert("Not found any similar images."@[0] == 'N');
    }
    decimal(groups.len())
}

/// The first line of a file with results lists all the folders to search in, all those to keep out
/// of and all the excluded items, each in quotes, in order, with a comma and a space before each
/// but the first. The result are the parts of the three lists.
pub proof fn law_headers_list_the_settings(search: &SimilarImages, text: String) -> (parts: (
    Seq<Seq<char>>,
    Seq<Seq<char>>,
    Seq<Seq<char>>,
))
    requires
        call_ensures(SimilarImages::results_header, (search,), text),
    ensures
        text@ == "Results of searching "@ + (seq!['['] + parts.0.flatten() + seq![']'])
            + " with excluded directories "@ + (seq!['['] + parts.1.flatten() + seq![']'])
            + " and excluded items "@ + (seq!['['] + parts.2.flatten() + seq![']']) + "\n"@,
        parts.0.len() == search@.included_directories.len(),
        forall|i: int|
            0 <= i < parts.0.len() ==> #[trigger] parts.0[i] == if i == 0 {
                search@.included_directories[i].quoted
            } else {
                seq![',', ' '] + search@.included_directories[i].quoted
            },
        parts.1.len() == search@.excluded_directories.len(),
        forall|i: int|
            0 <= i < parts.1.len() ==> #[trigger] parts.1[i] == if i == 0 {
                search@.excluded_directories[i].quoted
            } else {
                seq![',', ' '] + search@.excluded_directories[i].quoted
            },
        parts.2.len() == search@.excluded_items.len(),
        forall|i: int|
            0 <= i < parts.2.len() ==> #[trigger] parts.2[i] == if i == 0 {
                quoted(search@.excluded_items[i])
            } else {
                seq![',', ' '] + quoted(search@.excluded_items[i])
            },
{
    let included = search@.included_directories.map_values(|path: PathView| path.quoted);
    let excluded = search@.excluded_directories.map_values(|path: PathView| path.quoted);
    let items = all_quoted(search@.excluded_items);
    (
        law_lists_hold_every_text(included),
        law_lists_hold_every_text(excluded),
        law_lists_hold_every_text(items),
    )
}

/// The text for debugging shows the number of folders checked, the folders to search in, the
/// number of images to check and of different hashes, and the size of the images to check, as
/// results show sizes and in bytes. The result are the parts of the list of folders.
pub proof fn law_debug_texts_show_the_counts(search: &SimilarImages, text: String) -> (parts: Seq<
    Seq<char>,
>)
    requires
        call_ensures(SimilarImages::debug_print, (search,), text),
    ensures
        text@ == "---------------DEBUG PRINT---------------\nNumber of all checked folders - "@
            + decimal(search@.information.number_of_checked_folders as nat)
            + "\nIncluded directories - "@ + (seq!['['] + parts.flatten() + seq![']'])
            + "\nChecked images "@ + decimal(search@.information.number_of_checked_files as nat)
            + " / Different photos "@ + decimal(search@.image_hashes.dom().len())
            + "\nSize of checked images "@ + size_text(search@.information.size_of_checked_images)
            + " ("@ + decimal(search@.information.size_of_checked_images as nat)
            + " Bytes)\n-----------------------------------------\n"@,
        parts.len() == search@.included_directories.len(),
        forall|i: int|
            0 <= i < parts.len() ==> #[trigger] parts[i] == if i == 0 {
                search@.included_directories[i].quoted
            } else {
                seq![',', ' '] + search@.included_directories[i].quoted
            },
{
    law_lists_hold_every_text(
        search@.included_directories.map_values(|path: PathView| path.quoted),
    )
}

/// Results go to the file that was asked for; if none was, to `results.txt`.
pub proof fn law_results_go_to_the_named_file(file_name: &str, name: String)
    requires
        call_ensures(results_file_name, (file_name,), name),
    ensures
        file_name@.len() > 0 ==> name@ == file_name@,
        file_name@.len() == 0 ==> name@ == "results.txt"@,
{
}

/// Saving the results changes nothing of the search but its errors: one more that names the file,
/// unless everything was written.
pub proof fn law_failures_to_save_are_reported(
    search: SearchView,
    file_name: Seq<char>,
    outcome: SaveOutcome,
)
    ensures
        after_saving(search, file_name, outcome) == (SearchView {
            errors: after_saving(search, file_name, outcome).errors,
            ..search
        }),
        outcome == SaveOutcome::Written ==> after_saving(search, file_name, outcome).errors
            == search.errors,
        outcome != SaveOutcome::Written ==> after_saving(search, file_name, outcome).errors
            == search.errors.push(
            (if outcome == SaveOutcome::NotCreated {
                "Failed to create file "@
            } else {
                "Failed to save results to file "@
            }) + (if file_name.len() == 0 {
                "results.txt"@
            } else {
                file_name
            }),
        ),
{
}

} // verus!
