use crossbeam_channel::unbounded;
use similar_images::entry::FilePath;
use similar_images::report::{results_file_name, SaveOutcome};
use similar_images::state::{Directories, ExcludedItems, Info, Messages};
use similar_images::text::{bracketed_text, decimal_text, ends_with, quoted_texts};
use similar_images::{FileEntry, SimilarImages, Similarity};

fn path(text: &str) -> FilePath {
    FilePath {
        bytes: text.as_bytes().to_vec(),
        shown: text.to_string(),
        quoted: format!("{:?}", text),
    }
}

fn image(name: &str, size: u64, dimensions: &str) -> FileEntry {
    FileEntry {
        path: path(name),
        size,
        dimensions: dimensions.to_string(),
        modified_date: 1,
        similarity: Similarity::Unrated,
    }
}

fn messages() -> Messages {
    Messages { warnings: vec![], errors: vec![] }
}

#[test]
fn a_new_search_has_its_defaults() {
    let search = SimilarImages::default();
    assert!(!search.get_stopped_search());
    assert!(search.get_recursive_search());
    assert_eq!(search.get_similarity(), Similarity::High);
    assert_eq!(search.get_similar_images().len(), 0);
    assert_eq!(search.get_images_to_check().len(), 0);
    assert_eq!(search.get_information().number_of_checked_files, 0);
    assert_eq!(search.get_text_messages().warnings.len(), 0);
    assert_eq!(Info::new().gained_space, 0);
    assert_eq!(Info::default().lost_space, 0);
}

#[test]
fn a_search_groups_what_was_hashed() {
    let mut search = SimilarImages::new();
    let hashed = vec![
        (image("a.jpg", 1536, "10x20"), 0b1000),
        (image("b.jpg", 17, "11x20"), 0b1000),
        (image("far.jpg", 17, "11x20"), 0b0111),
    ];
    assert!(search.find_similar_images(Some(&hashed), None));
    assert!(!search.get_stopped_search());
    assert_eq!(search.number_of_different_images(), 2);
    let groups = search.get_similar_images();
    assert_eq!(groups.len(), 1);
    assert_eq!(groups[0].len(), 2);
    assert_eq!(
        search.print_results(),
        "Found 1 images which have similar friends\n\
         a.jpg - 10x20 - 1.50 KiB - Very High\n\
         b.jpg - 11x20 - 17 B - Very High\n\n"
    );
    assert_eq!(search.results_summary(), "1 images which have similar friends\n\n");
}

#[test]
fn the_similarity_widens_the_groups() {
    let hashed = vec![(image("a", 1, ""), 0b000), (image("b", 1, ""), 0b011)];
    let mut search = SimilarImages::new();
    search.find_similar_images(Some(&hashed), None);
    assert_eq!(search.get_similar_images().len(), 0);
    let mut search = SimilarImages::new();
    search.set_similarity(Similarity::Medium);
    search.find_similar_images(Some(&hashed), None);
    assert_eq!(search.get_similar_images().len(), 1);
    let mut levels: Vec<Similarity> =
        search.get_similar_images()[0].iter().map(|entry| entry.similarity).collect();
    levels.sort();
    assert_eq!(levels, vec![Similarity::Medium, Similarity::VeryHigh]);
}

#[test]
fn later_images_join_earlier_ones() {
    let mut search = SimilarImages::new();
    assert!(search.sort_images(&vec![(image("a", 1, ""), 9)], None));
    assert_eq!(search.get_similar_images().len(), 0);
    assert!(search.sort_images(&vec![(image("b", 1, ""), 9)], None));
    assert_eq!(search.get_similar_images().len(), 1);
    assert_eq!(search.get_similar_images()[0][0].path.shown, "a");
    assert_eq!(search.get_similar_images()[0][1].path.shown, "b");
}

#[test]
fn a_stopped_search_keeps_its_groups() {
    let hashed = vec![(image("a", 1, ""), 9), (image("b", 1, ""), 9)];
    let mut search = SimilarImages::new();
    search.find_similar_images(Some(&hashed), None);
    let (sender, receiver) = unbounded();
    sender.send(()).unwrap();
    let finished =
        search.find_similar_images(Some(&vec![(image("c", 1, ""), 9)]), Some(&receiver));
    assert!(!finished);
    assert!(search.get_stopped_search());
    assert_eq!(search.get_similar_images()[0].len(), 2);

    let mut search = SimilarImages::new();
    assert!(!search.find_similar_images(None, Some(&receiver)));
    assert!(search.get_stopped_search());
    assert_eq!(search.get_similar_images().len(), 0);
}

#[test]
fn a_search_notes_how_it_ended() {
    let mut search = SimilarImages::new();
    search.end_search(true);
    assert!(!search.get_stopped_search());
    search.end_search(false);
    assert!(search.get_stopped_search());
    search.end_search(true);
    assert!(search.get_stopped_search());
}

#[test]
fn added_images_wait_for_the_next_grouping() {
    let mut search = SimilarImages::new();
    search.add_images(&vec![(image("a", 1, ""), 9), (image("b", 1, ""), 9)]);
    assert_eq!(search.number_of_different_images(), 1);
    assert_eq!(search.get_similar_images().len(), 0);
    assert!(search.sort_images(&vec![], None));
    assert_eq!(search.get_similar_images().len(), 1);
    assert_eq!(search.get_similar_images()[0][1].path.shown, "b");
}

#[test]
fn a_search_counts_no_removals() {
    let mut search = SimilarImages::new();
    let hashed = vec![(image("a", 1, ""), 9), (image("b", 1, ""), 9)];
    assert!(search.find_similar_images(Some(&hashed), None));
    let information = search.get_information();
    assert_eq!(information.lost_space, 0);
    assert_eq!(information.number_of_removed_files, 0);
    assert_eq!(information.number_of_failed_to_remove_files, 0);
    assert_eq!(information.gained_space, 0);
    assert_eq!(search.get_similar_images()[0][0].similarity, Similarity::VeryHigh);
    assert_eq!(search.get_similar_images()[0].len(), 2);
}

#[test]
fn an_image_that_was_hashed_twice_is_shown_twice() {
    let mut search = SimilarImages::new();
    let hashed = vec![(image("a", 1, ""), 9), (image("a", 1, ""), 9), (image("b", 1, ""), 8)];
    assert!(search.find_similar_images(Some(&hashed), None));
    let groups = search.get_similar_images();
    assert_eq!(groups.len(), 1);
    let mut names: Vec<&str> = groups[0].iter().map(|entry| entry.path.shown.as_str()).collect();
    names.sort();
    assert_eq!(names, vec!["a", "a", "b"]);
}

#[test]
fn nothing_found_prints_nothing() {
    let search = SimilarImages::new();
    assert_eq!(search.print_results(), "");
    assert_eq!(search.results_summary(), "Not found any similar images.");
}

#[test]
fn the_first_line_names_the_settings() {
    let mut search = SimilarImages::new();
    assert_eq!(
        search.results_header(),
        "Results of searching [] with excluded directories [] and excluded items []\n"
    );
    search.set_included_directory(
        Directories {
            included_directories: vec![path("/a"), path("/q\"")],
            excluded_directories: vec![path("/a/no")],
        },
        messages(),
    );
    search.set_excluded_items(
        ExcludedItems { items: vec!["*/x*".to_string(), "q\"".to_string()] },
        messages(),
    );
    assert_eq!(
        search.results_header(),
        "Results of searching [\"/a\", \"/q\\\"\"] with excluded directories [\"/a/no\"] \
         and excluded items [\"*/x*\", \"q\\\"\"]\n"
    );
}

#[test]
fn lists_are_written_as_the_debug_format_writes_them() {
    let lists: Vec<Vec<String>> = vec![
        vec![],
        vec!["a".to_string()],
        vec!["a".to_string(), "".to_string(), "c, d".to_string(), "\u{e9}\n".to_string()],
    ];
    for list in lists {
        assert_eq!(bracketed_text(&quoted_texts(&list)), format!("{:?}", list));
    }
}

#[test]
fn directories_and_messages_are_taken_over() {
    let mut search = SimilarImages::new();
    search.set_included_directory(
        Directories { included_directories: vec![path("/a")], excluded_directories: vec![] },
        Messages { warnings: vec!["one".to_string()], errors: vec![] },
    );
    search.set_excluded_directory(
        Directories {
            included_directories: vec![path("/a")],
            excluded_directories: vec![path("/a/b")],
        },
        Messages { warnings: vec!["one".to_string()], errors: vec!["two".to_string()] },
    );
    assert_eq!(search.get_directories().included_directories.len(), 1);
    assert_eq!(search.get_directories().included_directories[0].bytes, b"/a".to_vec());
    assert_eq!(search.get_directories().excluded_directories.len(), 1);
    assert_eq!(search.get_directories().excluded_directories[0].bytes, b"/a/b".to_vec());
    assert_eq!(search.get_text_messages().warnings, vec!["one".to_string()]);
    assert_eq!(search.get_text_messages().errors, vec!["two".to_string()]);
}

#[test]
fn saving_reports_its_failures() {
    assert_eq!(results_file_name(""), "results.txt");
    assert_eq!(results_file_name("r.log"), "r.log");
    let mut search = SimilarImages::new();
    assert!(search.save_results_to_file("r.log", SaveOutcome::Written));
    assert_eq!(search.get_text_messages().errors.len(), 0);
    assert!(!search.save_results_to_file("", SaveOutcome::NotCreated));
    assert!(!search.save_results_to_file("r.log", SaveOutcome::NotWritten));
    assert_eq!(
        search.get_text_messages().errors,
        vec![
            "Failed to create file results.txt".to_string(),
            "Failed to save results to file r.log".to_string(),
        ]
    );
}

#[test]
fn debug_text_shows_the_counts() {
    let mut search = SimilarImages::new();
    search.set_included_directory(
        Directories { included_directories: vec![path("/a")], excluded_directories: vec![] },
        messages(),
    );
    assert_eq!(
        search.debug_print(),
        "---------------DEBUG PRINT---------------\n\
         Number of all checked folders - 0\n\
         Included directories - [\"/a\"]\n\
         Checked images 0 / Different photos 0\n\
         Size of checked images 0 B (0 Bytes)\n\
         -----------------------------------------\n"
    );
}

#[test]
fn numbers_are_written_in_decimal() {
    assert_eq!(decimal_text(0), "0");
    assert_eq!(decimal_text(9), "9");
    assert_eq!(decimal_text(10), "10");
    assert_eq!(decimal_text(16_384), "16384");
    assert_eq!(decimal_text(u64::MAX), "18446744073709551615");
}

#[test]
fn suffixes_are_compared_by_characters() {
    assert!(ends_with("caf\u{e9}", "\u{e9}"));
    assert!(ends_with("abc", ""));
    assert!(ends_with("abc", "abc"));
    assert!(!ends_with("abc", "xabc"));
    assert!(!ends_with("abd", "abc"));
}
