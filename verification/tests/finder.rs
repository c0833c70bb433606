use rust_dedup::digest::hash_file;
use rust_dedup::digest::hex_encode;
use rust_dedup::digest::ContentHasher;
use rust_dedup::hasher::digest_candidates;
use rust_dedup::hasher::find_duplicates;
use rust_dedup::hasher::group_by_digest;
use rust_dedup::hasher::size_candidates;
use rust_dedup::hasher::DuplicateGroup;
use rust_dedup::hasher::HashedFile;
use rust_dedup::hasher::SourceFile;
use rust_dedup::scanner::scan_files;
use rust_dedup::scanner::scan_tree;
use rust_dedup::scanner::FileRecord;
use rust_dedup::scanner::WalkEntry;
use sha2::Digest;
use std::path::PathBuf;

const HELLO: &str = "2cf24dba5fb0a30e26e83b2ac5b9e29e1b161e5c1fa7425e73043362938b9824";
const WORLD: &str = "486ea46224d1bb4fb680f34f7c9ad96a8f24ec88be73ea8e5a6c65260e9cb8a7";
const EMPTY: &str = "e3b0c44298fc1c149afbf4c8996fb92427ae41e4649b934ca495991b7852b855";

fn readable(path: &str, content: &[u8]) -> SourceFile {
    SourceFile { path: PathBuf::from(path), size: content.len() as u64, content: Some(content.to_vec()) }
}

fn unreadable(path: &str, size: u64) -> SourceFile {
    SourceFile { path: PathBuf::from(path), size, content: None }
}

fn record(path: &str, size: u64) -> FileRecord {
    FileRecord { path: PathBuf::from(path), size }
}

fn hashed(path: &str, size: u64, digest: &str) -> HashedFile {
    HashedFile { path: PathBuf::from(path), size, digest: digest.to_string() }
}

fn file_entry(path: &str, size: u64) -> Option<WalkEntry> {
    Some(WalkEntry { path: PathBuf::from(path), is_file: true, size: Some(size) })
}

fn paths_of(group: &DuplicateGroup) -> Vec<&str> {
    group.paths.iter().map(|p| p.to_str().unwrap()).collect()
}

fn reference_digest(content: &[u8]) -> String {
    let raw = sha2::Sha256::digest(content);
    let mut text = String::new();
    for byte in raw.iter() {
        text.push_str(&format!("{:02x}", byte));
    }
    text
}

#[test]
fn digest_of_hello_is_the_known_value() {
    assert_eq!(hash_file(b"hello"), Some(HELLO.to_string()));
    assert_eq!(hash_file(b"world"), Some(WORLD.to_string()));
}

#[test]
fn digest_of_nothing_is_the_known_value() {
    assert_eq!(hash_file(b""), Some(EMPTY.to_string()));
}

#[test]
fn digest_has_sixty_four_lower_case_hex_digits() {
    let digest = hash_file(b"some content").unwrap();
    assert_eq!(digest.len(), 64);
    assert!(digest.chars().all(|c| c.is_ascii_digit() || ('a'..='f').contains(&c)));
}

#[test]
fn digest_agrees_with_sha2_across_chunk_boundaries() {
    for len in [0usize, 1, 63, 64, 65, 8191, 8192, 8193, 16384, 20000, 24577] {
        let content: Vec<u8> = (0..len).map(|i| (i * 31 % 251) as u8).collect();
        assert_eq!(hash_file(&content), Some(reference_digest(&content)), "length {}", len);
    }
}

#[test]
fn hasher_does_not_depend_on_how_the_stream_is_cut() {
    let content: Vec<u8> = (0..10000usize).map(|i| (i % 256) as u8).collect();
    let mut by_sevens = ContentHasher::new();
    for chunk in content.chunks(7) {
        assert!(by_sevens.update(chunk));
    }
    assert_eq!(by_sevens.len(), 10000);
    let mut whole = ContentHasher::new();
    assert!(whole.update(&content));
    let mut with_empty = ContentHasher::new();
    assert!(with_empty.update(&[]));
    assert!(with_empty.update(&content[..1]));
    assert!(with_empty.update(&[]));
    assert!(with_empty.update(&content[1..]));
    let expected = by_sevens.finalize();
    assert_eq!(expected.len(), 32);
    assert_eq!(whole.finalize(), expected);
    assert_eq!(with_empty.finalize(), expected);
    assert_eq!(Some(hex_encode(&expected)), hash_file(&content));
}

#[test]
fn hasher_starts_empty() {
    let hasher = ContentHasher::new();
    assert_eq!(hasher.len(), 0);
    assert_eq!(hex_encode(&hasher.finalize()), EMPTY);
}

#[test]
fn hex_encode_writes_two_lower_case_digits_per_byte() {
    assert_eq!(hex_encode(&[]), "");
    assert_eq!(hex_encode(&[0x00, 0x0f, 0xa5, 0xff, 0x10, 0x9a]), "000fa5ff109a");
    let every: Vec<u8> = (0..=255u8).collect();
    let expected: String = every.iter().map(|b| format!("{:02x}", b)).collect();
    assert_eq!(hex_encode(&every), expected);
}

#[test]
fn identical_content_forms_one_group_and_other_content_stays_out() {
    let entries = vec![file_entry("a", 5), file_entry("b", 5), file_entry("c", 5)];
    let scanned = scan_files(&entries, 1);
    assert_eq!(scanned.len(), 3);
    let files = vec![readable("a", b"hello"), readable("b", b"hello"), readable("c", b"world")];
    let groups = find_duplicates(&files).groups;
    assert_eq!(groups.len(), 1);
    assert_eq!(groups[0].size, 5);
    assert_eq!(groups[0].digest, HELLO);
    assert_eq!(paths_of(&groups[0]), vec!["a", "b"]);
    assert!(groups.iter().all(|g| !g.paths.contains(&PathBuf::from("c"))));
}

#[test]
fn empty_directory_has_no_groups() {
    let entries: Vec<Option<WalkEntry>> = Vec::new();
    let scanned = scan_files(&entries, 1);
    assert!(scanned.is_empty());
    assert!(size_candidates(&scanned).is_empty());
    assert!(group_by_digest(&Vec::new()).is_empty());
    assert!(find_duplicates(&Vec::new()).groups.is_empty());
    assert!(find_duplicates(&Vec::new()).unreadable.is_empty());
}

#[test]
fn equal_size_different_content_is_hashed_but_not_grouped() {
    let one = [1u8; 100];
    let mut other = [1u8; 100];
    other[99] = 2;
    let files = vec![readable("one", &one), readable("other", &other)];
    let (hashed, failed) = digest_candidates(&files);
    assert_eq!(hashed.len(), 2);
    assert!(failed.is_empty());
    assert_eq!(hashed[0].path, PathBuf::from("one"));
    assert_eq!(hashed[0].size, 100);
    assert_eq!(hashed[0].digest, reference_digest(&one));
    assert_eq!(hashed[1].path, PathBuf::from("other"));
    assert_eq!(hashed[1].digest, reference_digest(&other));
    assert_ne!(hashed[0].digest, hashed[1].digest);
    assert!(group_by_digest(&hashed).is_empty());
    assert!(find_duplicates(&files).groups.is_empty());
}

#[test]
fn unreadable_file_is_left_out_and_the_rest_is_grouped() {
    let files = vec![readable("x", b"same!"), unreadable("y", 5), readable("z", b"same!")];
    let (hashed, failed) = digest_candidates(&files);
    assert_eq!(failed, vec![PathBuf::from("y")]);
    assert_eq!(hashed.len(), 2);
    let found = find_duplicates(&files);
    assert_eq!(found.unreadable, vec![PathBuf::from("y")]);
    let groups = found.groups;
    assert_eq!(groups.len(), 1);
    assert_eq!(paths_of(&groups[0]), vec!["x", "z"]);
    assert_eq!(groups[0].size, 5);
}

#[test]
fn unreadable_file_of_unshared_size_is_not_reported() {
    let files = vec![readable("x", b"ab"), unreadable("lonely", 7), readable("z", b"ab")];
    let (hashed, failed) = digest_candidates(&files);
    assert!(failed.is_empty());
    assert_eq!(hashed.len(), 2);
}

#[test]
fn a_file_of_unshared_size_is_never_digested() {
    let files = vec![
        readable("p", b"aaaa"),
        readable("q", b"bbb"),
        readable("r", b"cccc"),
        readable("s", b"dd"),
    ];
    let (hashed, failed) = digest_candidates(&files);
    assert!(failed.is_empty());
    let names: Vec<&str> = hashed.iter().map(|h| h.path.to_str().unwrap()).collect();
    assert_eq!(names, vec!["p", "r"]);
}

#[test]
fn size_candidates_keeps_files_of_shared_size_in_order() {
    let files =
        vec![record("a", 10), record("b", 7), record("c", 10), record("d", 3), record("e", 7), record("f", 10)];
    let selected = size_candidates(&files);
    let got: Vec<(&str, u64)> = selected.iter().map(|f| (f.path.to_str().unwrap(), f.size)).collect();
    assert_eq!(got, vec![("a", 10), ("b", 7), ("c", 10), ("e", 7), ("f", 10)]);
}

#[test]
fn size_candidates_of_distinct_sizes_is_empty() {
    let files = vec![record("a", 1), record("b", 2), record("c", 3)];
    assert!(size_candidates(&files).is_empty());
    assert!(size_candidates(&vec![record("only", 9)]).is_empty());
}

#[test]
fn zero_length_files_are_candidates_of_each_other() {
    let files = vec![readable("e1", b""), readable("e2", b"")];
    let groups = find_duplicates(&files).groups;
    assert_eq!(groups.len(), 1);
    assert_eq!(groups[0].size, 0);
    assert_eq!(groups[0].digest, EMPTY);
}

#[test]
fn groups_follow_their_first_members_and_members_follow_the_input() {
    let files = vec![
        hashed("b1", 3, "bb"),
        hashed("a1", 3, "aa"),
        hashed("single", 3, "cc"),
        hashed("a2", 3, "aa"),
        hashed("b2", 3, "bb"),
        hashed("a3", 3, "aa"),
    ];
    let groups = group_by_digest(&files);
    assert_eq!(groups.len(), 2);
    assert_eq!(groups[0].digest, "bb");
    assert_eq!(paths_of(&groups[0]), vec!["b1", "b2"]);
    assert_eq!(groups[1].digest, "aa");
    assert_eq!(paths_of(&groups[1]), vec!["a1", "a2", "a3"]);
}

#[test]
fn equal_digests_of_different_sizes_are_kept_apart() {
    let files = vec![
        hashed("s1", 1, "dd"),
        hashed("t1", 2, "dd"),
        hashed("s2", 1, "dd"),
        hashed("t2", 2, "dd"),
        hashed("u", 3, "dd"),
    ];
    let groups = group_by_digest(&files);
    assert_eq!(groups.len(), 2);
    assert_eq!((groups[0].size, paths_of(&groups[0])), (1, vec!["s1", "s2"]));
    assert_eq!((groups[1].size, paths_of(&groups[1])), (2, vec!["t1", "t2"]));
}

#[test]
fn every_group_has_at_least_two_members() {
    let files = vec![
        readable("a", b"one"),
        readable("b", b"two"),
        readable("c", b"one"),
        readable("d", b"six"),
        readable("e", b"two"),
        readable("f", b"one"),
    ];
    let groups = find_duplicates(&files).groups;
    assert_eq!(groups.len(), 2);
    assert!(groups.iter().all(|g| g.paths.len() >= 2));
    assert_eq!(paths_of(&groups[0]), vec!["a", "c", "f"]);
    assert_eq!(paths_of(&groups[1]), vec!["b", "e"]);
}

#[test]
fn files_below_the_minimum_are_not_scanned() {
    let entries = vec![
        file_entry("tiny", 0),
        file_entry("small", 9),
        file_entry("edge", 10),
        file_entry("big", 11),
    ];
    let kept = scan_files(&entries, 10);
    let got: Vec<(&str, u64)> = kept.iter().map(|f| (f.path.to_str().unwrap(), f.size)).collect();
    assert_eq!(got, vec![("edge", 10), ("big", 11)]);
    let all = scan_files(&entries, 0);
    assert_eq!(all.len(), 4);
    let default = scan_files(&entries, 1);
    assert_eq!(default.len(), 3);
    assert!(default.iter().all(|f| f.path != PathBuf::from("tiny")));
}

#[test]
fn scan_passes_over_what_is_no_readable_regular_file() {
    let entries = vec![
        None,
        Some(WalkEntry { path: PathBuf::from("dir"), is_file: false, size: Some(4096) }),
        Some(WalkEntry { path: PathBuf::from("gone"), is_file: true, size: None }),
        file_entry("kept", 12),
        None,
    ];
    let kept = scan_files(&entries, 1);
    assert_eq!(kept.len(), 1);
    assert_eq!(kept[0].path, PathBuf::from("kept"));
    assert_eq!(kept[0].size, 12);
}

#[test]
fn reordering_the_files_keeps_the_membership_of_each_group() {
    let forward = vec![
        readable("a", b"hello"),
        readable("b", b"world"),
        readable("c", b"hello"),
        readable("d", b"world"),
        readable("e", b"hello"),
    ];
    let backward = vec![
        readable("e", b"hello"),
        readable("d", b"world"),
        readable("c", b"hello"),
        readable("b", b"world"),
        readable("a", b"hello"),
    ];
    let first = find_duplicates(&forward).groups;
    let second = find_duplicates(&backward).groups;
    assert_eq!(first.len(), 2);
    assert_eq!(second.len(), 2);
    for group in first.iter() {
        let twin = second.iter().find(|g| g.digest == group.digest && g.size == group.size).unwrap();
        let mut left = paths_of(group);
        let mut right = paths_of(twin);
        left.sort();
        right.sort();
        assert_eq!(left, right);
    }
    assert_eq!(paths_of(&first[0]), vec!["a", "c", "e"]);
    assert_eq!(paths_of(&second[0]), vec!["e", "c", "a"]);
}

#[test]
fn finding_twice_gives_the_same_groups() {
    let files = vec![readable("a", b"xy"), readable("b", b"xy"), readable("c", b"zz")];
    let first = find_duplicates(&files).groups;
    let second = find_duplicates(&files).groups;
    assert_eq!(first.len(), second.len());
    assert_eq!(paths_of(&first[0]), paths_of(&second[0]));
    assert_eq!(first[0].digest, second[0].digest);
}

fn directory(path: &str) -> Option<WalkEntry> {
    Some(WalkEntry { path: PathBuf::from(path), is_file: false, size: Some(4096) })
}

#[test]
fn a_root_that_cannot_be_accessed_gives_no_list_at_all() {
    assert_eq!(scan_tree(&None, &Vec::new(), 1), None);
    assert_eq!(scan_tree(&None, &vec![file_entry("stray", 5)], 0), None);
}

#[test]
fn an_empty_directory_gives_the_empty_list() {
    assert_eq!(scan_tree(&directory("root"), &Vec::new(), 1), Some(Vec::new()));
    assert_eq!(scan_tree(&directory("root"), &vec![None, directory("root/sub")], 1), Some(Vec::new()));
}

#[test]
fn a_tree_is_scanned_below_its_root() {
    let below = vec![file_entry("root/a", 5), None, file_entry("root/b", 0), file_entry("root/sub/c", 9)];
    let found = scan_tree(&directory("root"), &below, 1).unwrap();
    assert_eq!(found, vec![record("root/a", 5), record("root/sub/c", 9)]);
    assert_eq!(found, scan_files(&below, 1));
}

#[test]
fn a_root_that_is_a_file_is_scanned_itself() {
    assert_eq!(scan_tree(&file_entry("lone", 3), &Vec::new(), 1), Some(vec![record("lone", 3)]));
    assert_eq!(scan_tree(&file_entry("lone", 3), &Vec::new(), 4), Some(Vec::new()));
    let unknown = Some(WalkEntry { path: PathBuf::from("lone"), is_file: true, size: None });
    assert_eq!(scan_tree(&unknown, &Vec::new(), 0), Some(Vec::new()));
}

#[test]
fn paths_are_carried_as_they_are() {
    let odd = "dir with space/\u{fffd}\u{e9}\u{4e2d}.txt";
    let files = vec![readable(odd, b"same"), readable("plain", b"same")];
    let groups = find_duplicates(&files).groups;
    assert_eq!(groups.len(), 1);
    assert_eq!(groups[0].paths, vec![PathBuf::from(odd), PathBuf::from("plain")]);
}

#[test]
fn the_unreadable_file_among_three_is_the_one_to_warn_about() {
    let files = vec![readable("p1", b"abc"), unreadable("p2", 3), readable("p3", b"abc")];
    let found = find_duplicates(&files);
    assert_eq!(found.unreadable, vec![PathBuf::from("p2")]);
    assert_eq!(found.groups.len(), 1);
    assert_eq!(found.groups[0].paths, vec![PathBuf::from("p1"), PathBuf::from("p3")]);
}

#[test]
fn the_digest_does_not_depend_on_the_path() {
    let files = vec![readable("here/p", b"content"), readable("there/q", b"content")];
    let (hashed, _) = digest_candidates(&files);
    assert_eq!(hashed[0].digest, hashed[1].digest);
    assert_eq!(hash_file(b"content"), hash_file(b"content"));
    assert_eq!(Some(hashed[0].digest.clone()), hash_file(b"content"));
}
