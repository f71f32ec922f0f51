use std::collections::hash_map::DefaultHasher;
use std::hash::Hasher;

use dupfinder::content::{file_hash, FileHasher, HashStep, CHUNK_SIZE};
use dupfinder::engine::{
    find_duplicates, find_equal_files_by_content, find_equal_files_by_hash, hash_candidates,
    skipped_entries, FileHashTable,
};
use dupfinder::entry::FileEntry;
use dupfinder::keys::{decimal_bytes, filename_filesize_key, filename_key, Mode};
use dupfinder::report::write_filetable;

fn entry(path: &str, size: u64) -> FileEntry {
    FileEntry::new(String::from(path), size)
}

fn std_hash(parts: &[&[u8]]) -> u64 {
    let mut h = DefaultHasher::new();
    for p in parts {
        h.write(p);
    }
    h.finish()
}

fn hash_of(content: &[u8]) -> Option<u64> {
    let mut state = FileHasher::new();
    let mut pos = 0;
    loop {
        let end = std::cmp::min(pos + CHUNK_SIZE, content.len());
        match file_hash(state, Ok(&content[pos..end])) {
            HashStep::Continue(next) => {
                state = next;
                pos = end;
            }
            HashStep::Finished(h) => return Some(h),
            HashStep::Failed => return None,
        }
    }
}

fn report_of(table: &FileHashTable) -> String {
    let mut out = Vec::new();
    write_filetable(table, &mut out);
    String::from_utf8(out).unwrap()
}

fn paths(table: &FileHashTable) -> Vec<Vec<String>> {
    table.groups.iter().map(|g| g.files.iter().map(|f| f.fullpath.clone()).collect()).collect()
}

fn example_files() -> Vec<FileEntry> {
    vec![entry("a/x.txt", 5), entry("b/x.txt", 5), entry("c/y.txt", 5)]
}

#[test]
fn filename_mode_reports_shared_basename() {
    let files = example_files();
    let table = find_duplicates(&files, Mode::Filename, &Vec::new());
    let key = std_hash(&[b"x.txt"]);
    assert_eq!(
        report_of(&table),
        format!("{:016x};\"a/x.txt\";5\n---.---.---.---.;\"b/x.txt\";5\n", key)
    );
}

#[test]
fn exhaustive_mode_reports_shared_content() {
    let files = example_files();
    assert_eq!(hash_candidates(&files), vec![true, true, true]);
    let hashes = vec![hash_of(b"hello"), hash_of(b"hello"), hash_of(b"world")];
    let table = find_duplicates(&files, Mode::Exhaustive, &hashes);
    let key = std_hash(&[b"hello"]);
    assert_eq!(
        report_of(&table),
        format!("{:016x};\"a/x.txt\";5\n---.---.---.---.;\"b/x.txt\";5\n", key)
    );
}

#[test]
fn unreadable_file_does_not_stop_grouping() {
    let files = vec![entry("a/x.txt", 5), entry("bad/z.txt", 5), entry("b/x.txt", 5)];
    let failed = match file_hash(FileHasher::new(), Err(())) {
        HashStep::Failed => None,
        _ => panic!("a failed read must fail the hash"),
    };
    let hashes = vec![hash_of(b"hello"), failed, hash_of(b"hello")];
    let table = find_equal_files_by_content(&files, &hashes);
    assert_eq!(paths(&table), vec![vec!["a/x.txt", "b/x.txt"]]);
}

#[test]
fn key_failure_drops_only_that_entry() {
    let files = vec![entry("a/x.txt", 1), entry("/", 1), entry("b/x.txt", 1)];
    let table = find_duplicates(&files, Mode::FilenameFilesize, &Vec::new());
    assert_eq!(paths(&table), vec![vec!["a/x.txt", "b/x.txt"]]);
}

#[test]
fn same_name_and_size_share_a_group() {
    let files = vec![entry("a/n.bin", 7), entry("b/n.bin", 7), entry("c/n.bin", 8)];
    let table = find_duplicates(&files, Mode::FilenameFilesize, &Vec::new());
    assert_eq!(paths(&table), vec![vec!["a/n.bin", "b/n.bin"], vec!["c/n.bin"]]);
    let table = find_duplicates(&files, Mode::Filename, &Vec::new());
    assert_eq!(paths(&table), vec![vec!["a/n.bin", "b/n.bin", "c/n.bin"]]);
}

#[test]
fn filename_filesize_key_hashes_name_then_size() {
    let e = entry("dir/file.dat", 1234);
    assert_eq!(filename_filesize_key(&e), Some(std_hash(&[b"file.dat", b"1234"])));
    assert_eq!(filename_key(&e), Some(std_hash(&[b"file.dat"])));
    assert_eq!(filename_key(&entry("/", 0)), None);
    assert_eq!(filename_key(&entry("a/..", 0)), None);
    assert_eq!(filename_key(&entry("dir/sub/", 0)), Some(std_hash(&[b"sub"])));
}

#[test]
fn decimal_digits() {
    assert_eq!(decimal_bytes(0), b"0".to_vec());
    assert_eq!(decimal_bytes(1234), b"1234".to_vec());
    assert_eq!(decimal_bytes(u64::MAX), b"18446744073709551615".to_vec());
}

#[test]
fn empty_files_are_never_grouped() {
    let files = vec![entry("a/e", 0), entry("b/e", 0), entry("c/f", 3), entry("d/f", 3)];
    assert_eq!(hash_candidates(&files), vec![false, false, true, true]);
    let empty = hash_of(b"");
    let hashes = vec![empty, empty, hash_of(b"abc"), hash_of(b"abc")];
    let table = find_equal_files_by_content(&files, &hashes);
    assert_eq!(paths(&table), vec![vec!["c/f", "d/f"]]);
}

#[test]
fn unique_sizes_are_not_candidates() {
    let files = vec![entry("a", 1), entry("b", 2), entry("c", 2), entry("d", 3)];
    assert_eq!(hash_candidates(&files), vec![false, true, true, false]);
}

#[test]
fn same_size_different_content_separates() {
    let files = vec![entry("a", 3), entry("b", 3), entry("c", 3)];
    let hashes = vec![hash_of(b"abc"), hash_of(b"abd"), hash_of(b"abc")];
    let table = find_equal_files_by_content(&files, &hashes);
    assert_eq!(paths(&table), vec![vec!["a", "c"], vec!["b"]]);
}

#[test]
fn singleton_groups_are_not_reported() {
    let files = vec![entry("a/one", 1), entry("b/two", 1)];
    let table = find_duplicates(&files, Mode::Filename, &Vec::new());
    assert_eq!(table.groups.len(), 2);
    assert_eq!(report_of(&table), "");
}

#[test]
fn running_twice_gives_the_same_report() {
    let files = vec![entry("a/x", 1), entry("b/y", 2), entry("c/x", 1), entry("d/y", 2)];
    let first = report_of(&find_duplicates(&files, Mode::FilenameFilesize, &Vec::new()));
    let second = report_of(&find_duplicates(&files, Mode::FilenameFilesize, &Vec::new()));
    assert_eq!(first, second);
    assert_eq!(first.lines().count(), 4);
}

#[test]
fn report_pads_key_and_keeps_input_order() {
    let files = vec![entry("p", 1), entry("q", 22), entry("r", 333), entry("s", 4)];
    let keys = vec![Some(0xab), Some(7), Some(0xab), Some(0xab)];
    let table = find_equal_files_by_hash(&files, &keys);
    assert_eq!(
        report_of(&table),
        "00000000000000ab;\"p\";1\n---.---.---.---.;\"r\";333\n---.---.---.---.;\"s\";4\n"
    );
}

#[test]
fn file_hash_of_short_content_is_one_write() {
    assert_eq!(hash_of(b"hello"), Some(std_hash(&[b"hello"])));
    assert_eq!(hash_of(b""), Some(std_hash(&[])));
}

#[test]
fn file_hash_continues_after_full_chunk() {
    let data = vec![7u8; CHUNK_SIZE];
    let state = match file_hash(FileHasher::new(), Ok(&data)) {
        HashStep::Continue(s) => s,
        _ => panic!("a full chunk asks for more"),
    };
    match file_hash(state, Ok(&[])) {
        HashStep::Finished(h) => assert_eq!(h, std_hash(&[&data])),
        _ => panic!("an empty read ends the content"),
    }
}

#[test]
fn file_hash_of_long_content_depends_on_bytes_alone() {
    let mut data = vec![1u8; CHUNK_SIZE + 10];
    data[CHUNK_SIZE + 3] = 9;
    let copy = data.clone();
    assert_eq!(hash_of(&data), hash_of(&copy));
    assert_eq!(hash_of(&data), Some(std_hash(&[&data[..CHUNK_SIZE], &data[CHUNK_SIZE..]])));
    let mut other = data.clone();
    other[0] = 2;
    assert_ne!(hash_of(&data), hash_of(&other));
}

#[test]
fn groups_follow_first_occurrence_of_their_key() {
    let files = vec![entry("a", 1), entry("b", 1), entry("c", 1), entry("d", 1), entry("e", 1)];
    let keys = vec![Some(2), None, Some(1), Some(2), Some(1)];
    let table = find_equal_files_by_hash(&files, &keys);
    assert_eq!(paths(&table), vec![vec!["a", "d"], vec!["c", "e"]]);
    assert_eq!(table.groups[0].key, 2);
    assert_eq!(table.groups[1].key, 1);
}

#[test]
fn skipped_entries_lists_keyless_positions() {
    assert_eq!(skipped_entries(&vec![Some(1), None, Some(3), None]), vec![1, 3]);
    assert_eq!(skipped_entries(&vec![]), Vec::<usize>::new());
}
