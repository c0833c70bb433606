//! Selection of the files worth examining from what a directory walk found.

use std::path::PathBuf;
use vstd::prelude::*;

verus! {

/// The owned path of the standard library.  The engine never looks inside a
/// path: it carries paths from the scan to the groups and tells two paths
/// apart only as values.
#[verifier::external_type_specification]
#[verifier::external_body]
pub struct ExPathBuf(PathBuf);

/// `Clone::clone` of the standard library for `PathBuf`: the copy is the
/// same path.
pub assume_specification[ <PathBuf as Clone>::clone ](path: &PathBuf) -> (copy: PathBuf)
    ensures
        copy == *path,
;

/// A regular file found by a scan: where it is and how long it is.
#[derive(Clone, Debug, PartialEq, Eq)]
pub struct FileRecord {
    pub path: PathBuf,
    pub size: u64,
}

/// A `FileRecord` as contracts see it.
pub struct FileRecordView {
    pub path: PathBuf,
    pub size: u64,
}

impl View for FileRecord {
    type V = FileRecordView;

    open spec fn view(&self) -> FileRecordView {
        FileRecordView { path: self.path, size: self.size }
    }
}

/// The views of a list of records, in order.
pub open spec fn records(files: Seq<FileRecord>) -> Seq<FileRecordView> {
    files.map_values(|f: FileRecord| f@)
}

/// One entry that a directory walk arrived at.
#[derive(Clone, Debug, PartialEq, Eq)]
pub struct WalkEntry {
    pub path: PathBuf,
    /// Whether the entry is a regular file.
    pub is_file: bool,
    /// Its length in bytes, where its metadata could be read.
    pub size: Option<u64>,
}

/// An entry is scanned as a file when the walk could read it, it is a
/// regular file, its length is known and is at least `min_size`.  `None`
/// stands for an entry on which the walk failed.
pub open spec fn eligible(entry: Option<WalkEntry>, min_size: u64) -> bool {
    &&& entry matches Some(e)
    &&& e.is_file
    &&& e.size matches Some(size)
    &&& size >= min_size
}

/// The record of an eligible entry.
pub open spec fn record_of(entry: Option<WalkEntry>) -> FileRecordView {
    FileRecordView { path: entry->0.path, size: entry->0.size->0 }
}

/// `eligible` with the threshold fixed.
pub open spec fn is_eligible(min_size: u64) -> spec_fn(Option<WalkEntry>) -> bool {
    |entry: Option<WalkEntry>| eligible(entry, min_size)
}

/// The records of the eligible entries, in the order of the walk.
pub open spec fn scanned(entries: Seq<Option<WalkEntry>>, min_size: u64) -> Seq<FileRecordView> {
    entries.filter(is_eligible(min_size)).map_values(|entry: Option<WalkEntry>| record_of(entry))
}

/// Selects from the entries of a walk the regular files of at least
/// `min_size` bytes.  Entries that could not be read are passed over.
pub fn scan_files(entries: &Vec<Option<WalkEntry>>, min_size: u64) -> (files: Vec<FileRecord>)
    ensures
        records(files@) == scanned(entries@, min_size),
{
    let mut files: Vec<FileRecord> = Vec::new();
    let n: usize = entries.len();
    let mut i: usize = 0;
    while i < n
        invariant
            n == entries@.len(),
            i <= n,
            records(files@) == scanned(entries@.take(i as int), min_size),
        decreases n - i,
    {
        let ghost before = entries@.take(i as int);
        proof {
            assert(entries@.take(i + 1) =~= before.push(entries@[i as int]));
            before.lemma_filter_push(entries@[i as int], is_eligible(min_size));
        }
        match &entries[i] {
            Some(entry) => {
                if entry.is_file {
                    match entry.size {
                        Some(size) => {
                            if size >= min_size {
                                files.push(FileRecord { path: entry.path.clone(), size });
                                assert(scanned(entries@.take(i + 1), min_size) =~= scanned(
                                    before,
                                    min_size,
                                ).push(record_of(entries@[i as int])));
                            }
                        },
                        None => {},
                    }
                }
            },
            None => {},
        }
        i = i + 1;
    }
    assert(entries@.take(n as int) =~= entries@);
    files
}

/// All that a walk arrived at: the root itself, then what lies below it.
pub open spec fn tree_entries(root: Option<WalkEntry>, below: Seq<Option<WalkEntry>>) -> Seq<
    Option<WalkEntry>,
> {
    seq![root] + below
}

/// Scans a whole tree.  `root` is what the walk found at the root itself,
/// `None` where it could not be accessed at all; `below` are the entries
/// under it.  A root that cannot be accessed is the one failure that ends a
/// run: there is no list of files then, which tells it apart from a tree
/// that holds no eligible file.  Failures below the root are passed over.
pub fn scan_tree(root: &Option<WalkEntry>, below: &Vec<Option<WalkEntry>>, min_size: u64) -> (files:
    Option<Vec<FileRecord>>)
    ensures
        files is Some <==> *root is Some,
        files matches Some(found) ==> records(found@) == scanned(
            tree_entries(*root, below@),
            min_size,
        ),
{
    match root {
        None => None,
        Some(entry) => {
            let mut found: Vec<FileRecord> = Vec::new();
            if entry.is_file {
                match entry.size {
                    Some(size) => {
                        if size >= min_size {
                            found.push(FileRecord { path: entry.path.clone(), size });
                        }
                    },
                    None => {},
                }
            }
            let mut rest = scan_files(below, min_size);
            found.append(&mut rest);
            proof {
                let head = seq![*root];
                Seq::filter_distributes_over_add(head, below@, is_eligible(min_size));
                Seq::<Option<WalkEntry>>::empty().lemma_filter_push(*root, is_eligible(min_size));
                reveal(Seq::filter);
                assert(scanned(tree_entries(*root, below@), min_size) =~= scanned(head, min_size)
                    + scanned(below@, min_size));
            }
            Some(found)
        },
    }
}

/// No scanned file is shorter than the threshold.
pub proof fn lemma_scanned_at_least_min(entries: Seq<Option<WalkEntry>>, min_size: u64, i: int)
    requires
        0 <= i < scanned(entries, min_size).len(),
    ensures
        scanned(entries, min_size)[i].size >= min_size,
{
    entries.lemma_filter_pred(is_eligible(min_size), i);
}

} // verus!
