use crossbeam_channel::unbounded;
use similar_images::entry::FilePath;
use similar_images::picture::{decoded, fill_dimensions};
use similar_images::state::{Directories, Messages};
use similar_images::stop::{stop_on_message, stop_requested};
use similar_images::walk::{
    has_image_extension, judge_file, judge_named_file, FolderWalk, Found, FoundFile, FoundFolder,
    Modified, NextFolder, Verdict,
};
use similar_images::{FileEntry, SimilarImages, Similarity};

fn path(text: &str) -> FilePath {
    FilePath {
        bytes: text.as_bytes().to_vec(),
        shown: text.to_string(),
        quoted: format!("{:?}", text),
    }
}

fn start(included: &[&str]) -> (SimilarImages, FolderWalk) {
    let mut search = SimilarImages::new();
    let walk = search.start_walk(
        Directories {
            included_directories: included.iter().map(|text| path(text)).collect(),
            excluded_directories: vec![path("/no")],
        },
        Messages { warnings: vec!["w".to_string()], errors: vec!["e".to_string()] },
    );
    (search, walk)
}

fn photo(name: &str, size: u64) -> FoundFile {
    FoundFile {
        path: path(&format!("/p/{}", name)),
        name: Some(name.to_string()),
        size,
        excluded: false,
        modified: Modified::Seconds(1_600_000_000),
    }
}

fn folder(text: &str) -> FoundFolder {
    FoundFolder { path: path(text), excluded_directory: false, excluded_item: false }
}

fn next_path(walk: &mut FolderWalk) -> Option<String> {
    match walk.next_folder(None) {
        NextFolder::Check(path) => Some(String::from_utf8(path.bytes).unwrap()),
        NextFolder::Finished => None,
        NextFolder::Stopped => panic!("nobody asked to stop"),
    }
}

#[test]
fn image_names_end_as_images_do() {
    assert!(has_image_extension("a.jpg"));
    assert!(has_image_extension("a.png"));
    assert!(has_image_extension("a.bmp"));
    assert!(has_image_extension("jpg"));
    assert!(has_image_extension("wojpg"));
    assert!(!has_image_extension("a.jpeg"));
    assert!(!has_image_extension("a.jpg.txt"));
    assert!(!has_image_extension("pg"));
    assert!(!has_image_extension(""));
    assert!(!has_image_extension("a.JPG"));
}

#[test]
fn names_are_judged_in_lower_case() {
    assert_eq!(judge_file(&photo("A.JPG", 10), 1), Verdict::Checked(1_600_000_000));
    assert_eq!(judge_file(&photo("\u{c9}T\u{c9}.PnG", 10), 1), Verdict::Checked(1_600_000_000));
    assert_eq!(judge_file(&photo("A.GIF", 10), 1), Verdict::Ignored);
}

#[test]
fn each_verdict_has_its_file() {
    let seconds = Modified::Seconds(5);
    assert_eq!(judge_named_file(None, 10, false, seconds, 1), Verdict::Unnamed);
    assert_eq!(judge_named_file(Some("a.txt"), 10, false, seconds, 1), Verdict::Ignored);
    assert_eq!(judge_named_file(Some("a.jpg"), 9, false, seconds, 10), Verdict::Ignored);
    assert_eq!(judge_named_file(Some("a.jpg"), 9, true, seconds, 10), Verdict::Ignored);
    assert_eq!(judge_named_file(Some("a.jpg"), 10, true, seconds, 10), Verdict::Excluded);
    assert_eq!(
        judge_named_file(Some("a.jpg"), 10, true, Modified::Unavailable, 10),
        Verdict::Excluded
    );
    assert_eq!(
        judge_named_file(Some("a.jpg"), 10, false, Modified::Unavailable, 10),
        Verdict::Undated
    );
    assert_eq!(
        judge_named_file(Some("a.jpg"), 10, false, Modified::BeforeEpoch, 10),
        Verdict::Ancient
    );
    assert_eq!(judge_named_file(Some("a.jpg"), 10, false, seconds, 10), Verdict::Checked(5));
}

#[test]
fn a_walk_starts_at_the_included_folders() {
    let (search, mut walk) = start(&["/a", "/b"]);
    assert_eq!(search.get_information().number_of_checked_folders, 2);
    assert_eq!(search.get_text_messages().warnings, vec!["w".to_string()]);
    assert_eq!(search.get_text_messages().errors, vec!["e".to_string()]);
    assert_eq!(search.get_directories().excluded_directories.len(), 1);
    assert_eq!(search.get_directories().excluded_directories[0].bytes, b"/no".to_vec());
    assert_eq!(next_path(&mut walk), Some("/b".to_string()));
    assert_eq!(next_path(&mut walk), Some("/a".to_string()));
    assert_eq!(next_path(&mut walk), None);
}

#[test]
fn a_stop_message_ends_the_walk() {
    let (sender, receiver) = unbounded();
    let (_, mut walk) = start(&["/a"]);
    sender.send(()).unwrap();
    assert!(matches!(walk.next_folder(Some(&receiver)), NextFolder::Stopped));
    assert!(matches!(walk.next_folder(Some(&receiver)), NextFolder::Check(_)));
    sender.send(()).unwrap();
    assert!(matches!(walk.next_folder(Some(&receiver)), NextFolder::Finished));
}

#[test]
fn a_walk_advances_unless_it_has_to_stop() {
    let (search, mut walk) = start(&["/a", "/b"]);
    assert!(matches!(walk.advance(true), NextFolder::Stopped));
    assert!(matches!(walk.advance(true), NextFolder::Stopped));
    match walk.advance(false) {
        NextFolder::Check(folder) => assert_eq!(folder.shown, "/b"),
        _ => panic!("there are folders left"),
    }
    assert_eq!(next_path(&mut walk), Some("/a".to_string()));
    assert!(matches!(walk.advance(true), NextFolder::Finished));
    assert!(matches!(walk.advance(false), NextFolder::Finished));
    assert_eq!(search.get_information().number_of_checked_folders, 2);
    assert_eq!(search.get_images_to_check().len(), 0);
}

#[test]
fn a_walk_without_folders_cannot_be_stopped() {
    let (sender, receiver) = unbounded();
    let (_, mut walk) = start(&[]);
    sender.send(()).unwrap();
    assert!(matches!(walk.next_folder(Some(&receiver)), NextFolder::Finished));
    assert!(stop_requested(Some(&receiver)));
}

#[test]
fn a_search_stops_on_a_message_only() {
    assert!(stop_on_message(Some(true)));
    assert!(!stop_on_message(Some(false)));
    assert!(!stop_on_message(None));
    let (sender, receiver) = unbounded();
    assert!(!stop_requested(None));
    assert!(!stop_requested(Some(&receiver)));
    sender.send(()).unwrap();
    assert!(stop_requested(Some(&receiver)));
    assert!(!stop_requested(Some(&receiver)));
}

#[test]
fn subfolders_are_entered_unless_excluded() {
    let (mut search, mut walk) = start(&[]);
    let here = path("/p");
    search.check_entry(&mut walk, &here, Found::Folder(folder("/p/x")));
    let excluded = FoundFolder { excluded_directory: true, ..folder("/p/y") };
    search.check_entry(&mut walk, &here, Found::Folder(excluded));
    let excluded = FoundFolder { excluded_item: true, ..folder("/p/z") };
    search.check_entry(&mut walk, &here, Found::Folder(excluded));
    assert_eq!(search.get_information().number_of_checked_folders, 3);
    assert_eq!(next_path(&mut walk), Some("/p/x".to_string()));
    assert_eq!(next_path(&mut walk), None);

    search.set_recursive_search(false);
    search.check_entry(&mut walk, &here, Found::Folder(folder("/p/x")));
    assert_eq!(search.get_information().number_of_checked_folders, 4);
    assert_eq!(next_path(&mut walk), None);
}

#[test]
fn files_are_queued_or_counted() {
    let (mut search, mut walk) = start(&[]);
    let here = path("/p");
    search.set_minimal_file_size(100);
    search.check_entry(&mut walk, &here, Found::File(photo("a.jpg", 100)));
    search.check_entry(&mut walk, &here, Found::File(photo("b.PNG", 250)));
    search.check_entry(&mut walk, &here, Found::File(photo("c.jpg", 99)));
    search.check_entry(&mut walk, &here, Found::File(photo("d.txt", 1000)));
    search.check_entry(&mut walk, &here, Found::Other);
    let unnamed = FoundFile { name: None, ..photo("e.jpg", 1000) };
    search.check_entry(&mut walk, &here, Found::File(unnamed));
    let excluded = FoundFile { excluded: true, ..photo("f.jpg", 1000) };
    search.check_entry(&mut walk, &here, Found::File(excluded));

    let information = search.get_information();
    assert_eq!(information.number_of_checked_files, 2);
    assert_eq!(information.size_of_checked_images, 350);
    assert_eq!(information.number_of_ignored_files, 2);
    assert_eq!(information.number_of_ignored_things, 1);
    assert_eq!(information.number_of_checked_folders, 0);

    let images = search.get_images_to_check();
    assert_eq!(images.len(), 2);
    assert_eq!(images[0].path.bytes, b"/p/a.jpg".to_vec());
    assert_eq!(images[0].size, 100);
    assert_eq!(images[0].dimensions, "");
    assert_eq!(images[0].modified_date, 1_600_000_000);
    assert_eq!(images[0].similarity, Similarity::Unrated);
    assert_eq!(images[1].path.bytes, b"/p/b.PNG".to_vec());
}

#[test]
fn troubles_become_warnings() {
    let (mut search, mut walk) = start(&[]);
    let here = FilePath {
        bytes: b"/p\xff".to_vec(),
        shown: "/p\u{fffd}".to_string(),
        quoted: "\"/p\\xFF\"".to_string(),
    };
    search.folder_not_opened(&here);
    search.check_entry(&mut walk, &here, Found::UnreadableEntry);
    search.check_entry(&mut walk, &here, Found::UnreadableMetadata);
    let undated = FoundFile { modified: Modified::Unavailable, ..photo("u.jpg", 20_000) };
    search.check_entry(&mut walk, &here, Found::File(undated));
    let ancient = FoundFile { modified: Modified::BeforeEpoch, ..photo("o.jpg", 20_000) };
    search.check_entry(&mut walk, &here, Found::File(ancient));
    assert_eq!(
        search.get_text_messages().warnings[1..],
        [
            "Cannot open dir /p\u{fffd}".to_string(),
            "Cannot read entry in dir /p\u{fffd}".to_string(),
            "Cannot read metadata in dir /p\u{fffd}".to_string(),
            "Unable to get modification date from file /p/u.jpg".to_string(),
            "File /p/o.jpg seems to be modified before Unix Epoch.".to_string(),
        ]
    );
    assert_eq!(search.get_images_to_check().len(), 1);
    assert_eq!(search.get_images_to_check()[0].modified_date, 0);
}

#[test]
fn an_entry_that_no_count_can_hold_is_refused() {
    let (mut search, mut walk) = start(&[]);
    let here = path("/p");
    assert!(search.try_check_entry(&mut walk, &here, Found::File(photo("a.jpg", u64::MAX))));
    assert!(!search.try_check_entry(&mut walk, &here, Found::File(photo("b.jpg", 16_384))));
    assert_eq!(search.get_images_to_check().len(), 1);
    assert!(search.try_check_entry(&mut walk, &here, Found::File(photo("c.jpg", 16_383))));
    assert_eq!(search.get_information().number_of_ignored_files, 1);
}

#[test]
fn the_minimal_size_is_never_zero() {
    let mut search = SimilarImages::new();
    assert_eq!(search.get_minimal_file_size(), 16_384);
    search.set_minimal_file_size(0);
    assert_eq!(search.get_minimal_file_size(), 1);
    search.set_minimal_file_size(5);
    assert_eq!(search.get_minimal_file_size(), 5);
}

#[test]
fn counts_only_grow_and_images_stay_listed() {
    let (mut search, mut walk) = start(&["/a"]);
    let here = path("/p");
    let mut counts = vec![search_counts(&search)];
    search.check_entry(&mut walk, &here, Found::File(photo("a.jpg", 20_000)));
    counts.push(search_counts(&search));
    search.set_minimal_file_size(50_000);
    search.check_entry(&mut walk, &here, Found::File(photo("b.jpg", 20_000)));
    counts.push(search_counts(&search));
    search.set_included_directory(
        Directories { included_directories: vec![], excluded_directories: vec![] },
        Messages { warnings: vec![], errors: vec![] },
    );
    search.check_entry(&mut walk, &here, Found::Folder(folder("/p/x")));
    search.check_entry(&mut walk, &here, Found::Other);
    search.end_search(false);
    counts.push(search_counts(&search));
    for pair in counts.windows(2) {
        for k in 0..5 {
            assert!(pair[0][k] <= pair[1][k]);
        }
    }
    assert_eq!(counts[3], [1, 2, 1, 1, 20_000]);
    assert_eq!(search.get_images_to_check()[0].path.shown, "/p/a.jpg");
}

fn search_counts(search: &SimilarImages) -> [u64; 5] {
    let information = search.get_information();
    [
        information.number_of_checked_files as u64,
        information.number_of_checked_folders as u64,
        information.number_of_ignored_files as u64,
        information.number_of_ignored_things as u64,
        information.size_of_checked_images,
    ]
}

#[test]
fn shown_files_are_wanted_files_of_the_walk() {
    let (mut search, mut walk) = start(&["/p"]);
    let here = path("/p");
    let small = photo("small.jpg", 10);
    let excluded = FoundFile { excluded: true, ..photo("excluded.jpg", 20_000) };
    let undated = FoundFile { modified: Modified::Unavailable, ..photo("undated.jpg", 20_000) };
    let found = vec![
        photo("a.JPG", 20_000),
        small,
        photo("b.bmp", 30_000),
        excluded,
        photo("notes.txt", 20_000),
        undated,
        photo("c.png", 40_000),
    ];
    for file in found {
        assert!(search.try_check_entry(&mut walk, &here, Found::File(file)));
    }
    let outcomes: Vec<Option<(FileEntry, u64)>> = search
        .get_images_to_check()
        .iter()
        .map(|entry| {
            let hash = if entry.path.shown == "/p/c.png" { u64::MAX } else { 6 };
            Some((fill_dimensions(entry, 8, 9), hash))
        })
        .collect();
    assert_eq!(outcomes.len(), 3);
    assert!(search.find_similar_images(Some(&decoded(outcomes)), None));
    assert!(!search.get_stopped_search());
    assert_eq!(
        search.print_results(),
        format!(
            "Found 1 images which have similar friends\n\
             /p/a.JPG - 8x9 - {} - Very High\n\
             /p/b.bmp - 8x9 - {} - Very High\n\n",
            "19.53 KiB", "29.30 KiB"
        )
    );
}

/// Walks through two folders, of which the first has subfolders, and lists the folders taken.
fn walk_through(recursive_search: bool) -> (SimilarImages, Vec<String>) {
    let (mut search, mut walk) = start(&["/a", "/b"]);
    search.set_recursive_search(recursive_search);
    let mut taken: Vec<String> = Vec::new();
    while let Some(text) = next_path(&mut walk) {
        let here = path(&text);
        if text == "/b" {
            search.folder_not_opened(&here);
        } else if text == "/a" {
            search.check_entry(&mut walk, &here, Found::Folder(folder("/a/x")));
            search.check_entry(&mut walk, &here, Found::File(photo("one.jpg", 20_000)));
            let excluded = FoundFolder { excluded_item: true, ..folder("/a/y") };
            search.check_entry(&mut walk, &here, Found::Folder(excluded));
            search.check_entry(&mut walk, &here, Found::Other);
        } else {
            search.check_entry(&mut walk, &here, Found::File(photo("two.png", 30_000)));
            search.check_entry(&mut walk, &here, Found::File(photo("two.png", 30_000)));
            search.check_entry(&mut walk, &here, Found::File(photo("no.gif", 30_000)));
        }
        taken.push(text);
    }
    taken.sort();
    (search, taken)
}

#[test]
fn a_whole_walk_takes_each_folder_once_per_meeting() {
    let (search, taken) = walk_through(true);
    assert_eq!(taken, vec!["/a", "/a/x", "/b"]);
    assert_eq!(search_counts(&search), [3, 4, 1, 1, 80_000]);
    let images: Vec<&str> =
        search.get_images_to_check().iter().map(|entry| entry.path.shown.as_str()).collect();
    assert_eq!(images, vec!["/p/one.jpg", "/p/two.png", "/p/two.png"]);

    let (search, taken) = walk_through(false);
    assert_eq!(taken, vec!["/a", "/b"]);
    assert_eq!(search_counts(&search), [1, 4, 0, 1, 20_000]);
}
