use bk_tree::Metric;
use crossbeam_channel::unbounded;
use similar_images::distance::Hamming;
use similar_images::entry::FilePath;
use similar_images::grouping::{gather_group, Grouping};
use similar_images::index::ImageIndex;
use similar_images::similarity::{
    get_string_from_similarity, similarity_for_distance, tolerance_for_similarity,
};
use similar_images::{FileEntry, Similarity};
use std::collections::{HashMap, HashSet};

fn image(name: &str) -> FileEntry {
    FileEntry {
        path: FilePath {
            bytes: name.as_bytes().to_vec(),
            shown: name.to_string(),
            quoted: format!("{:?}", name),
        },
        size: 20_000,
        dimensions: String::from("4x3"),
        modified_date: 7,
        similarity: Similarity::Unrated,
    }
}

fn shown(group: &[FileEntry]) -> Vec<(String, Similarity)> {
    group
        .iter()
        .map(|entry| (String::from_utf8(entry.path.bytes.clone()).unwrap(), entry.similarity))
        .collect()
}

fn index_of(images: &[(&str, u64)]) -> ImageIndex {
    let mut index = ImageIndex::new();
    for (name, hash) in images {
        index.add_image(image(name), *hash);
    }
    index
}

#[test]
fn tolerances_follow_the_levels() {
    let levels = [
        (Similarity::VeryHigh, 0, "Very High"),
        (Similarity::High, 1, "High"),
        (Similarity::Medium, 2, "Medium"),
        (Similarity::Small, 3, "Small"),
        (Similarity::VerySmall, 4, "Very Small"),
    ];
    for (level, distance, words) in levels {
        assert_eq!(tolerance_for_similarity(level), distance);
        assert_eq!(similarity_for_distance(distance), level);
        assert_eq!(get_string_from_similarity(&level), words);
    }
    assert!(Similarity::Unrated < Similarity::VerySmall);
    assert!(Similarity::High < Similarity::VeryHigh);
}

#[test]
fn distance_counts_differing_bits() {
    assert_eq!(Hamming.distance(&0, &0), 0);
    assert_eq!(Hamming.distance(&0, &u64::MAX), 64);
    assert_eq!(Hamming.distance(&0b1010, &0b0110), 2);
    assert_eq!(Hamming.distance(&(1 << 63), &1), 2);
    let hashes = [0u64, 1, 0xff00, 0x0123_4567_89ab_cdef, u64::MAX];
    for a in hashes {
        for b in hashes {
            assert_eq!(Hamming.distance(&a, &b), Hamming.distance(&b, &a));
            assert_eq!(Hamming.distance(&a, &b) == 0, a == b);
            for c in hashes {
                assert!(Hamming.distance(&a, &c) <= Hamming.distance(&a, &b) + Hamming.distance(&b, &c));
            }
        }
    }
}

#[test]
fn near_hashes_join_the_group_of_the_first_visit() {
    let index = index_of(&[("a", 0b0000), ("b", 0b0001), ("c", 0b1111_0000)]);
    let groups = index.group(1, &vec![0b0000, 0b0001, 0b1111_0000], None).unwrap();
    assert_eq!(groups.len(), 1);
    assert_eq!(
        shown(&groups[0]),
        vec![("a".to_string(), Similarity::VeryHigh), ("b".to_string(), Similarity::High)]
    );
    assert_eq!(groups[0][1].dimensions, "4x3");
    assert_eq!(groups[0][1].size, 20_000);
    assert_eq!(groups[0][1].modified_date, 7);
}

#[test]
fn every_level_is_rated() {
    let index = index_of(&[("0", 0), ("1", 1), ("2", 3), ("3", 7), ("4", 15), ("5", 31)]);
    let groups = index.group(4, &vec![0, 1, 3, 7, 15, 31], None).unwrap();
    assert_eq!(groups.len(), 1);
    let mut entries = shown(&groups[0]);
    entries.sort();
    assert_eq!(
        entries,
        vec![
            ("0".to_string(), Similarity::VeryHigh),
            ("1".to_string(), Similarity::High),
            ("2".to_string(), Similarity::Medium),
            ("3".to_string(), Similarity::Small),
            ("4".to_string(), Similarity::VerySmall),
        ]
    );
}

#[test]
fn copies_are_grouped_at_every_tolerance() {
    for tolerance in 0..=4 {
        let index = index_of(&[("a", 5), ("b", 5), ("c", 5), ("d", 5 ^ 0xff00)]);
        let groups = index.group(tolerance, &vec![5 ^ 0xff00, 5], None).unwrap();
        assert_eq!(groups.len(), 1);
        assert_eq!(
            shown(&groups[0]),
            vec![
                ("a".to_string(), Similarity::VeryHigh),
                ("b".to_string(), Similarity::VeryHigh),
                ("c".to_string(), Similarity::VeryHigh),
            ]
        );
    }
}

#[test]
fn copies_of_a_near_hash_are_shown_once_each() {
    let index = index_of(&[("a", 0), ("b", 1), ("c", 1), ("d", 1)]);
    let groups = index.group(1, &vec![0, 1], None).unwrap();
    assert_eq!(groups.len(), 1);
    assert_eq!(
        shown(&groups[0]),
        vec![
            ("a".to_string(), Similarity::VeryHigh),
            ("b".to_string(), Similarity::High),
            ("c".to_string(), Similarity::High),
            ("d".to_string(), Similarity::High),
        ]
    );
}

#[test]
fn no_tolerance_shows_copies_only() {
    let images = [("a", 0), ("b", 1), ("c", 1), ("d", 2)];
    for order in [vec![0, 1, 2], vec![2, 1, 0], vec![1, 0, 2]] {
        let groups = index_of(&images).group(0, &order, None).unwrap();
        assert_eq!(groups.len(), 1);
        assert_eq!(
            shown(&groups[0]),
            vec![("b".to_string(), Similarity::VeryHigh), ("c".to_string(), Similarity::VeryHigh)]
        );
    }
}

/// A is like B and, less so, like C; D is like C. Where A is visited before D, C stands in the
/// group of A, and D, which resembles nothing else, is not shown.
#[test]
fn an_image_belongs_to_the_group_that_takes_it_first() {
    let (a, b, c, d) = (0b0000, 0b0000, 0b0011, 0b0111);
    let images = [("A", a), ("B", b), ("C", c), ("D", d)];
    let groups = index_of(&images).group(2, &vec![a, d, c], None).unwrap();
    assert_eq!(groups.len(), 1);
    assert_eq!(
        shown(&groups[0]),
        vec![
            ("A".to_string(), Similarity::VeryHigh),
            ("B".to_string(), Similarity::VeryHigh),
            ("C".to_string(), Similarity::Medium),
        ]
    );

    let groups = index_of(&images).group(2, &vec![d, a, c], None).unwrap();
    assert_eq!(groups.len(), 2);
    assert_eq!(
        shown(&groups[0]),
        vec![("D".to_string(), Similarity::VeryHigh), ("C".to_string(), Similarity::High)]
    );
    assert_eq!(
        shown(&groups[1]),
        vec![("A".to_string(), Similarity::VeryHigh), ("B".to_string(), Similarity::VeryHigh)]
    );
}

#[test]
fn of_two_alike_images_one_is_always_shown() {
    let images: Vec<(String, u64)> = (0..40u64).map(|n| (n.to_string(), n * 37 % 64)).collect();
    let mut index = ImageIndex::new();
    for (name, hash) in &images {
        index.add_image(image(name), *hash);
    }
    let order = index.hashes();
    assert_eq!(order.len(), index.len());
    let groups = index.group(1, &order, None).unwrap();
    let mut names: Vec<String> = Vec::new();
    for group in &groups {
        assert!(group.len() > 1);
        for (name, level) in shown(group) {
            assert_ne!(level, Similarity::Unrated);
            names.push(name);
        }
    }
    let all = names.len();
    names.sort();
    names.dedup();
    assert_eq!(names.len(), all);
    for (a, hash_a) in &images {
        for (b, hash_b) in &images {
            if a != b && (hash_a ^ hash_b).count_ones() <= 1 {
                assert!(names.contains(a) || names.contains(b));
            }
        }
    }
}

#[test]
fn a_stop_message_ends_the_grouping() {
    let index = index_of(&[("a", 0), ("b", 1)]);
    let (sender, receiver) = unbounded();
    assert!(index.group(1, &vec![0, 1], Some(&receiver)).is_some());
    sender.send(()).unwrap();
    assert!(index.group(1, &vec![0, 1], Some(&receiver)).is_none());
    assert!(index.group(1, &vec![0, 1], Some(&receiver)).is_some());
    sender.send(()).unwrap();
    assert_eq!(ImageIndex::new().group(1, &vec![], Some(&receiver)).unwrap().len(), 0);
}

#[test]
fn a_visit_takes_its_hashes_unless_it_has_to_stop() {
    let index = index_of(&[("a", 0), ("b", 1), ("c", 0xff)]);
    let mut grouping = Grouping::new(&vec![0, 1, 0xff]);
    assert_eq!(grouping.hashes_to_check.len(), 3);
    assert!(!index.visit(1, 0, &mut grouping, true));
    assert_eq!(grouping.hashes_to_check.len(), 3);
    assert_eq!(grouping.groups.len(), 0);
    assert!(index.visit(1, 0xff, &mut grouping, false));
    assert_eq!(grouping.hashes_to_check.len(), 2);
    assert_eq!(grouping.groups.len(), 0);
    assert!(index.visit(1, 0, &mut grouping, false));
    assert!(grouping.hashes_to_check.is_empty());
    assert_eq!(grouping.groups.len(), 1);
    assert_eq!(
        shown(&grouping.groups[0]),
        vec![("a".to_string(), Similarity::VeryHigh), ("b".to_string(), Similarity::High)]
    );
    assert!(index.visit(1, 1, &mut grouping, false));
    assert_eq!(grouping.groups.len(), 1);
    assert!(!index.visit(1, 1, &mut grouping, true));
}

#[test]
fn a_group_takes_what_is_found_in_order() {
    let mut table: HashMap<u64, Vec<FileEntry>> = HashMap::new();
    table.insert(10, vec![image("base")]);
    table.insert(11, vec![image("one"), image("uno")]);
    table.insert(12, vec![image("taken")]);
    table.insert(13, vec![image("far")]);
    let mut hashes_to_check: HashSet<u64> = [10, 11, 13].into_iter().collect();
    let found = vec![(4, 13), (0, 10), (2, 12), (1, 11), (1, 11)];
    let group = gather_group(10, &table, &mut hashes_to_check, &found);
    assert_eq!(
        shown(&group),
        vec![
            ("base".to_string(), Similarity::VeryHigh),
            ("far".to_string(), Similarity::VerySmall),
            ("one".to_string(), Similarity::High),
            ("uno".to_string(), Similarity::High),
        ]
    );
    assert!(hashes_to_check.is_empty());
}
