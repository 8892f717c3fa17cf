use vstd::prelude::*;
use crate::similarity::Similarity;

verus! {

/// The path of a file or a folder.
pub struct FilePath {
    /// The path in the encoding that the platform uses for its paths.
    pub bytes: Vec<u8>,
    /// The path as messages and results show it.
    pub shown: String,
    /// The path in quotes, as lists of paths show it.
    pub quoted: String,
}

/// What a [`FilePath`] says.
#[verifier::ext_equal]
pub struct PathView {
    pub bytes: Seq<u8>,
    pub shown: Seq<char>,
    pub quoted: Seq<char>,
}

impl View for FilePath {
    type V = PathView;

    open spec fn view(&self) -> PathView {
        PathView { bytes: self.bytes@, shown: self.shown@, quoted: self.quoted@ }
    }
}

impl Clone for FilePath {
    fn clone(&self) -> (copy: Self)
        ensures
            copy@ == self@,
    {
        let bytes = self.bytes.clone();
        assert(bytes@ =~= self.bytes@);
        FilePath { bytes, shown: self.shown.clone(), quoted: self.quoted.clone() }
    }
}

/// What a list of paths says.
pub open spec fn path_views(paths: Seq<FilePath>) -> Seq<PathView> {
    paths.map_values(|path: FilePath| path@)
}

/// An image file.
pub struct FileEntry {
    pub path: FilePath,
    pub size: u64,
    /// Width and height as text, empty until the image has been read.
    pub dimensions: String,
    /// Seconds since the Unix epoch.
    pub modified_date: u64,
    pub similarity: Similarity,
}

/// What a [`FileEntry`] says.
#[verifier::ext_equal]
pub struct EntryView {
    pub path: PathView,
    pub size: u64,
    pub dimensions: Seq<char>,
    pub modified_date: u64,
    pub similarity: Similarity,
}

impl View for FileEntry {
    type V = EntryView;

    open spec fn view(&self) -> EntryView {
        EntryView {
            path: self.path@,
            size: self.size,
            dimensions: self.dimensions@,
            modified_date: self.modified_date,
            similarity: self.similarity,
        }
    }
}

impl Clone for FileEntry {
    fn clone(&self) -> (copy: Self)
        ensures
            copy@ == self@,
    {
        FileEntry {
            path: self.path.clone(),
            size: self.size,
            dimensions: self.dimensions.clone(),
            modified_date: self.modified_date,
            similarity: self.similarity,
        }
    }
}

/// What a list of entries says.
pub open spec fn entry_views(entries: Seq<FileEntry>) -> Seq<EntryView> {
    entries.map_values(|entry: FileEntry| entry@)
}

/// What a list of groups of entries says.
pub open spec fn group_views(groups: Seq<Vec<FileEntry>>) -> Seq<Seq<EntryView>> {
    groups.map_values(|group: Vec<FileEntry>| entry_views(group@))
}

/// What a table of entries by hash says.
pub open spec fn table_view(table: Map<u64, Vec<FileEntry>>) -> Map<u64, Seq<EntryView>> {
    table.map_values(|entries: Vec<FileEntry>| entry_views(entries@))
}

/// The entry with the given similarity in place of its own.
pub open spec fn with_level(entry: EntryView, level: Similarity) -> EntryView {
    EntryView { similarity: level, ..entry }
}

/// The entries, each with the given similarity in place of its own.
pub open spec fn marked(entries: Seq<EntryView>, level: Similarity) -> Seq<EntryView> {
    entries.map_values(|entry: EntryView| with_level(entry, level))
}

impl FileEntry {
    /// A copy of the entry that has the given similarity.
    pub fn with_similarity(&self, similarity: Similarity) -> (copy: FileEntry)
        ensures
            copy@ == with_level(self@, similarity),
    {
        let mut copy = self.clone();
        copy.similarity = similarity;
        copy
    }
}

/// Appends a copy of each of the entries to a group, with the given similarity.
pub fn append_marked(group: &mut Vec<FileEntry>, entries: &Vec<FileEntry>, similarity: Similarity)
    ensures
        entry_views(final(group)@) == entry_views(old(group)@) + marked(
            entry_views(entries@),
            similarity,
        ),
{
    let ghost before = entry_views(group@);
    let ghost all = marked(entry_views(entries@), similarity);
    let mut i: usize = 0;
    while i < entries.len()
        invariant
            i <= entries.len(),
            all == marked(entry_views(entries@), similarity),
            entry_views(group@) == before + all.take(i as int),
        decreases entries.len() - i,
    {
        let copy = entries[i].with_similarity(similarity);
        let ghost so_far = group@;
        group.push(copy);
        proof {
            assert(entry_views(group@) =~= entry_views(so_far).push(copy@));
            assert(all.take(i + 1) =~= all.take(i as int).push(all[i as int]));
            assert(entry_views(group@) =~= before + all.take(i + 1));
        }
        i += 1;
    }
    assert(all.take(i as int) =~= all);
}

/// What an entry says is what its fields say.
pub proof fn law_entry_views(entry: FileEntry)
    ensures
        entry@.path.bytes == entry.path.bytes@,
        entry@.path.shown == entry.path.shown@,
        entry@.path.quoted == entry.path.quoted@,
        entry@.size == entry.size,
        entry@.dimensions == entry.dimensions@,
        entry@.modified_date == entry.modified_date,
        entry@.similarity == entry.similarity,
{
}

/// What lists of entries, groups or paths say is what each of their items says, in its place; and
/// what a table of entries says is what it holds under each hash.
pub proof fn law_list_views(
    entries: Seq<FileEntry>,
    groups: Seq<Vec<FileEntry>>,
    paths: Seq<FilePath>,
    table: Map<u64, Vec<FileEntry>>,
)
    ensures
        entry_views(entries).len() == entries.len(),
        forall|i: int| 0 <= i < entries.len() ==> #[trigger] entry_views(entries)[i] == entries[i]@,
        group_views(groups).len() == groups.len(),
        forall|g: int|
            0 <= g < groups.len() ==> (#[trigger] group_views(groups)[g]).len() == groups[g]@.len(),
        forall|g: int, i: int|
            0 <= g < groups.len() && 0 <= i < groups[g]@.len() ==> #[trigger] group_views(groups)[g][i]
                == groups[g]@[i]@,
        path_views(paths).len() == paths.len(),
        forall|i: int| 0 <= i < paths.len() ==> #[trigger] path_views(paths)[i] == paths[i]@,
        table_view(table).dom() == table.dom(),
        forall|hash: u64| #[trigger]
            table.contains_key(hash) ==> table_view(table)[hash].len() == table[hash]@.len(),
        forall|hash: u64, i: int|
            table.contains_key(hash) && 0 <= i < table[hash]@.len() ==> #[trigger] table_view(
                table,
            )[hash][i] == table[hash]@[i]@,
{
    assert(table_view(table).dom() =~= table.dom());
}

/// Rating an entry changes nothing but its similarity, and rating a list of entries rates each of
/// them, in its place.
pub proof fn law_ratings_change_nothing_else(entries: Seq<EntryView>, level: Similarity)
    ensures
        marked(entries, level).len() == entries.len(),
        forall|i: int|
            0 <= i < entries.len() ==> {
                let rated = #[trigger] marked(entries, level)[i];
                &&& rated.path == entries[i].path
                &&& rated.size == entries[i].size
                &&& rated.dimensions == entries[i].dimensions
                &&& rated.modified_date == entries[i].modified_date
                &&& rated.similarity == level
                &&& rated == with_level(entries[i], level)
            },
{
}

} // verus!
