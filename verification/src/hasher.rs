//! The two-phase duplicate finder: partition by size, then group the
//! candidates by content digest.

use crate::digest::content_digest;
use crate::digest::hash_file;
use crate::digest::MAX_MESSAGE_BYTES;
use crate::grouping::lemma_absent_key_has_no_members;
use crate::grouping::lemma_keys_distinct;
use crate::grouping::lemma_keys_push;
use crate::grouping::lemma_members_push;
use crate::scanner::records;
use crate::scanner::FileRecord;
use crate::scanner::FileRecordView;
use std::collections::HashMap;
use std::path::PathBuf;
use vstd::prelude::*;

verus! {

broadcast use vstd::std_specs::hash::group_hash_axioms;

/// The predicate "equals `size`".
pub open spec fn is_size(size: u64) -> spec_fn(u64) -> bool {
    |s: u64| s == size
}

/// How many of `sizes` equal `size`.
pub open spec fn occurrences(sizes: Seq<u64>, size: u64) -> nat {
    sizes.filter(is_size(size)).len()
}

/// A size is shared when at least two files have it.  Only files of a shared
/// size can have a copy, so only they are read.
pub open spec fn shares_size(sizes: Seq<u64>, size: u64) -> bool {
    occurrences(sizes, size) >= 2
}

/// The sizes of a list of records, in order.
pub open spec fn sizes_of(files: Seq<FileRecordView>) -> Seq<u64> {
    files.map_values(|f: FileRecordView| f.size)
}

/// The predicate "has a size that another of `files` has too".
pub open spec fn is_candidate(files: Seq<FileRecordView>) -> spec_fn(FileRecordView) -> bool {
    |f: FileRecordView| shares_size(sizes_of(files), f.size)
}

/// The files that survive the size partition, in their order.
pub open spec fn candidates(files: Seq<FileRecordView>) -> Seq<FileRecordView> {
    files.filter(is_candidate(files))
}

proof fn lemma_occurrences_push(sizes: Seq<u64>, x: u64, size: u64)
    ensures
        occurrences(sizes.push(x), size) == occurrences(sizes, size) + if x == size {
            1nat
        } else {
            0nat
        },
{
    sizes.lemma_filter_push(x, is_size(size));
}

/// For each position, whether its size occurs at another position too.
fn repeat_flags(sizes: &Vec<u64>) -> (flags: Vec<bool>)
    ensures
        flags@.len() == sizes@.len(),
        forall|i: int|
            0 <= i < sizes@.len() ==> #[trigger] flags@[i] == shares_size(sizes@, sizes@[i]),
{
    let n: usize = sizes.len();
    let mut seen: HashMap<u64, bool> = HashMap::new();
    let mut i: usize = 0;
    while i < n
        invariant
            n == sizes@.len(),
            i <= n,
            forall|s: u64|
                seen@.contains_key(s) <==> #[trigger] occurrences(sizes@.take(i as int), s) >= 1,
            forall|s: u64|
                seen@.contains_key(s) ==> seen@[s] == (#[trigger] occurrences(
                    sizes@.take(i as int),
                    s,
                ) >= 2),
        decreases n - i,
    {
        let x: u64 = sizes[i];
        proof {
            assert(sizes@.take(i + 1) =~= sizes@.take(i as int).push(x));
            assert forall|s: u64|
                #[trigger] occurrences(sizes@.take(i + 1), s) == occurrences(
                    sizes@.take(i as int),
                    s,
                ) + if x == s {
                    1nat
                } else {
                    0nat
                } by {
                lemma_occurrences_push(sizes@.take(i as int), x, s);
            }
        }
        let once: Option<bool> = match seen.get(&x) {
            Some(repeated) => Some(*repeated),
            None => None,
        };
        match once {
            None => {
                seen.insert(x, false);
            },
            Some(false) => {
                seen.insert(x, true);
            },
            Some(true) => {},
        }
        i = i + 1;
    }
    assert(sizes@.take(n as int) =~= sizes@);
    let mut flags: Vec<bool> = Vec::new();
    let mut j: usize = 0;
    while j < n
        invariant
            n == sizes@.len(),
            j <= n,
            flags@.len() == j,
            forall|s: u64| seen@.contains_key(s) <==> #[trigger] occurrences(sizes@, s) >= 1,
            forall|s: u64|
                seen@.contains_key(s) ==> seen@[s] == (#[trigger] occurrences(sizes@, s) >= 2),
            forall|k: int| 0 <= k < j ==> #[trigger] flags@[k] == shares_size(sizes@, sizes@[k]),
        decreases n - j,
    {
        let x: u64 = sizes[j];
        let flag: bool = match seen.get(&x) {
            Some(repeated) => *repeated,
            None => false,
        };
        flags.push(flag);
        j = j + 1;
    }
    flags
}

/// The first phase: keeps the files whose size at least one other file
/// shares, in their order.  No content is read for this.
pub fn size_candidates(files: &Vec<FileRecord>) -> (selected: Vec<FileRecord>)
    ensures
        records(selected@) == candidates(records(files@)),
{
    let n: usize = files.len();
    let ghost all = records(files@);
    let mut sizes: Vec<u64> = Vec::new();
    let mut i: usize = 0;
    while i < n
        invariant
            n == files@.len(),
            i <= n,
            sizes@ == sizes_of(all).take(i as int),
            all == records(files@),
        decreases n - i,
    {
        sizes.push(files[i].size);
        i = i + 1;
    }
    let flags = repeat_flags(&sizes);
    let mut selected: Vec<FileRecord> = Vec::new();
    let mut j: usize = 0;
    while j < n
        invariant
            n == files@.len(),
            j <= n,
            all == records(files@),
            sizes@ == sizes_of(all),
            flags@.len() == n,
            forall|k: int| 0 <= k < n ==> #[trigger] flags@[k] == shares_size(sizes@, sizes@[k]),
            records(selected@) == all.take(j as int).filter(is_candidate(all)),
        decreases n - j,
    {
        proof {
            assert(all.take(j + 1) =~= all.take(j as int).push(all[j as int]));
            all.take(j as int).lemma_filter_push(all[j as int], is_candidate(all));
        }
        if flags[j] {
            selected.push(FileRecord { path: files[j].path.clone(), size: files[j].size });
        }
        j = j + 1;
    }
    assert(all.take(n as int) =~= all);
    selected
}

/// A candidate whose content was read and digested.
#[derive(Clone, Debug, PartialEq, Eq)]
pub struct HashedFile {
    pub path: PathBuf,
    pub size: u64,
    /// Lower-case hexadecimal SHA-256 digest of the content.
    pub digest: String,
}

/// A `HashedFile` as contracts see it.
pub struct HashedFileView {
    pub path: PathBuf,
    pub size: u64,
    pub digest: Seq<char>,
}

impl View for HashedFile {
    type V = HashedFileView;

    open spec fn view(&self) -> HashedFileView {
        HashedFileView { path: self.path, size: self.size, digest: self.digest@ }
    }
}

/// The views of a list of hashed files, in order.
pub open spec fn hashed_views(files: Seq<HashedFile>) -> Seq<HashedFileView> {
    files.map_values(|f: HashedFile| f@)
}

/// Files of one size whose contents have one digest.  The first path is the
/// copy to keep, the others are the duplicates.
#[derive(Clone, Debug, PartialEq, Eq)]
pub struct DuplicateGroup {
    /// Lower-case hexadecimal SHA-256 digest shared by the members.
    pub digest: String,
    /// Byte length shared by the members.
    pub size: u64,
    /// The members, in the order in which they were found.
    pub paths: Vec<PathBuf>,
}

/// A `DuplicateGroup` as contracts see it.
pub struct DuplicateGroupView {
    pub digest: Seq<char>,
    pub size: u64,
    pub paths: Seq<PathBuf>,
}

impl View for DuplicateGroup {
    type V = DuplicateGroupView;

    open spec fn view(&self) -> DuplicateGroupView {
        DuplicateGroupView { digest: self.digest@, size: self.size, paths: self.paths@ }
    }
}

impl DuplicateGroup {
    /// A group holds the kept file and at least one duplicate.
    pub open spec fn wf(&self) -> bool {
        self.paths.len() >= 2
    }

    /// Number of members beyond the kept one.
    pub open spec fn dupes(&self) -> nat {
        (self.paths.len() - 1) as nat
    }

    /// Bytes held by the members beyond the kept one.
    pub open spec fn wasted(&self) -> nat {
        self.size as nat * self.dupes()
    }
}

/// The views of a list of groups, in order.
pub open spec fn group_views(groups: Seq<DuplicateGroup>) -> Seq<DuplicateGroupView> {
    groups.map_values(|g: DuplicateGroup| g@)
}

/// What two files must share to count as copies of each other.
pub struct Key {
    pub size: u64,
    pub digest: Seq<char>,
}

/// The size and digest of a file.
pub open spec fn key_of(f: HashedFileView) -> Key {
    Key { size: f.size, digest: f.digest }
}

/// The predicate "has size and digest `key`".
pub open spec fn has_key(key: Key) -> spec_fn(HashedFileView) -> bool {
    |f: HashedFileView| key_of(f) == key
}

/// The paths of the files with size and digest `key`, in their order.
pub open spec fn members(files: Seq<HashedFileView>, key: Key) -> Seq<PathBuf> {
    files.filter(has_key(key)).map_values(|f: HashedFileView| f.path)
}

/// The distinct keys of `files`, each at the place of its first file.
pub open spec fn keys(files: Seq<HashedFileView>) -> Seq<Key>
    decreases files.len(),
{
    if files.len() == 0 {
        Seq::empty()
    } else {
        let before = keys(files.drop_last());
        let key = key_of(files.last());
        if before.contains(key) {
            before
        } else {
            before.push(key)
        }
    }
}

/// All files with size and digest `key`, as a group.
pub open spec fn group_of(files: Seq<HashedFileView>, key: Key) -> DuplicateGroupView {
    DuplicateGroupView { digest: key.digest, size: key.size, paths: members(files, key) }
}

/// One group for each key, singletons included.
pub open spec fn partition(files: Seq<HashedFileView>) -> Seq<DuplicateGroupView> {
    keys(files).map_values(|key: Key| group_of(files, key))
}

/// The predicate "has at least two members".
pub open spec fn is_plural() -> spec_fn(DuplicateGroupView) -> bool {
    |g: DuplicateGroupView| g.paths.len() >= 2
}

/// The duplicate groups of `files`: for each size and digest that at least
/// two files have, the paths of those files in their order.  The groups
/// stand in the order of their first members.
pub open spec fn grouping(files: Seq<HashedFileView>) -> Seq<DuplicateGroupView> {
    partition(files).filter(is_plural())
}

/// Groups `files` by size and digest and keeps the groups of at least two.
/// Within a group the paths stand in the order of `files`, so the kept copy
/// is the first that was handed in; the groups follow the order of their
/// kept copies.
pub fn group_by_digest(files: &Vec<HashedFile>) -> (groups: Vec<DuplicateGroup>)
    ensures
        group_views(groups@) == grouping(hashed_views(files@)),
        forall|k: int| 0 <= k < groups@.len() ==> (#[trigger] groups@[k]).wf(),
{
    let n: usize = files.len();
    let ghost all = hashed_views(files@);
    let mut acc: Vec<DuplicateGroup> = Vec::new();
    let mut i: usize = 0;
    while i < n
        invariant
            n == files@.len(),
            i <= n,
            all == hashed_views(files@),
            group_views(acc@) == partition(all.take(i as int)),
        decreases n - i,
    {
        let file = &files[i];
        let ghost before = all.take(i as int);
        let ghost f = all[i as int];
        let ghost old_acc = acc@;
        proof {
            assert(all.take(i + 1) =~= before.push(f));
            lemma_keys_push(before, f);
            lemma_keys_distinct(before);
            assert forall|key: Key|
                #[trigger] members(before.push(f), key) == if key_of(f) == key {
                    members(before, key).push(f.path)
                } else {
                    members(before, key)
                } by {
                lemma_members_push(before, f, key);
            }
            assert(partition(before).len() == keys(before).len());
        }
        let count: usize = acc.len();
        let mut j: usize = 0;
        while j < count && !(acc[j].size == file.size && acc[j].digest == file.digest)
            invariant
                count == acc@.len(),
                j <= count,
                acc@ == old_acc,
                group_views(old_acc) == partition(before),
                f == all[i as int],
                all == hashed_views(files@),
                i < n,
                n == files@.len(),
                *file == files@[i as int],
                count == keys(before).len(),
                forall|k: int| 0 <= k < j ==> keys(before)[k] != key_of(f),
            decreases count - j,
        {
            assert(partition(before)[j as int] == group_of(before, keys(before)[j as int]));
            j = j + 1;
        }
        if j < count {
            assert(partition(before)[j as int] == group_of(before, keys(before)[j as int]));
            acc[j].paths.push(file.path.clone());
            proof {
                assert forall|k: int| 0 <= k < acc@.len() implies #[trigger] group_views(
                    acc@,
                )[k] == partition(before.push(f))[k] by {
                    assert(group_views(old_acc)[k] == old_acc[k]@);
                    if k == j {
                        assert(acc@[k]@.paths =~= old_acc[k]@.paths.push(f.path));
                    }
                }
            }
        } else {
            proof {
                lemma_absent_key_has_no_members(before, key_of(f));
            }
            let mut paths: Vec<PathBuf> = Vec::new();
            paths.push(file.path.clone());
            let group = DuplicateGroup { digest: file.digest.clone(), size: file.size, paths };
            acc.push(group);
            proof {
                assert(group@.paths =~= Seq::<PathBuf>::empty().push(f.path));
                assert forall|k: int| 0 <= k < acc@.len() implies #[trigger] group_views(
                    acc@,
                )[k] == partition(before.push(f))[k] by {
                    if k < old_acc.len() {
                        assert(group_views(old_acc)[k] == old_acc[k]@);
                    }
                }
            }
        }
        i = i + 1;
    }
    assert(all.take(n as int) =~= all);
    let ghost whole = acc@;
    let mut groups: Vec<DuplicateGroup> = Vec::new();
    for group in it: acc.into_iter()
        invariant
            it.seq() == whole,
            group_views(groups@) == group_views(whole.take(it.index() as int)).filter(is_plural()),
            forall|k: int| 0 <= k < groups@.len() ==> (#[trigger] groups@[k]).wf(),
    {
        let ghost at = it.index() as int;
        proof {
            assert(group_views(whole.take(at + 1)) =~= group_views(whole.take(at)).push(group@));
            group_views(whole.take(at)).lemma_filter_push(group@, is_plural());
        }
        if group.paths.len() >= 2 {
            groups.push(group);
        }
    }
    assert(whole.take(whole.len() as int) =~= whole);
    groups
}

/// A file held in memory: its path, the length that the file system
/// reported, and its bytes where they could be read.
#[derive(Clone, Debug, PartialEq, Eq)]
pub struct SourceFile {
    pub path: PathBuf,
    pub size: u64,
    /// `None` for a file that could not be opened or fully read.
    pub content: Option<Vec<u8>>,
}

/// A `SourceFile` as contracts see it.
pub struct SourceFileView {
    pub path: PathBuf,
    pub size: u64,
    pub content: Option<Seq<u8>>,
}

impl View for SourceFile {
    type V = SourceFileView;

    open spec fn view(&self) -> SourceFileView {
        SourceFileView {
            path: self.path,
            size: self.size,
            content: match self.content {
                Some(bytes) => Some(bytes@),
                None => None,
            },
        }
    }
}

/// The views of a list of source files, in order.
pub open spec fn source_views(files: Seq<SourceFile>) -> Seq<SourceFileView> {
    files.map_values(|f: SourceFile| f@)
}

/// The sizes of a list of source files, in order.
pub open spec fn source_sizes(files: Seq<SourceFileView>) -> Seq<u64> {
    files.map_values(|f: SourceFileView| f.size)
}

/// A file can be digested when its content was read and is not too long for
/// SHA-256.
pub open spec fn digestible(f: SourceFileView) -> bool {
    f.content matches Some(bytes) && bytes.len() < MAX_MESSAGE_BYTES
}

/// The predicate "shares its size with another of `files` and can be
/// digested".
pub open spec fn is_hashed(files: Seq<SourceFileView>) -> spec_fn(SourceFileView) -> bool {
    |f: SourceFileView| shares_size(source_sizes(files), f.size) && digestible(f)
}

/// The predicate "shares its size with another of `files` and cannot be
/// digested".
pub open spec fn is_unreadable(files: Seq<SourceFileView>) -> spec_fn(SourceFileView) -> bool {
    |f: SourceFileView| shares_size(source_sizes(files), f.size) && !digestible(f)
}

/// A digestible file with the digest of its content.
pub open spec fn hashed_of(f: SourceFileView) -> HashedFileView {
    HashedFileView { path: f.path, size: f.size, digest: content_digest(f.content->0) }
}

/// The candidates that can be digested, each with its digest, in their
/// order.
pub open spec fn digested(files: Seq<SourceFileView>) -> Seq<HashedFileView> {
    files.filter(is_hashed(files)).map_values(|f: SourceFileView| hashed_of(f))
}

/// The paths of the candidates that cannot be digested, in their order.
pub open spec fn undigested(files: Seq<SourceFileView>) -> Seq<PathBuf> {
    files.filter(is_unreadable(files)).map_values(|f: SourceFileView| f.path)
}

/// Both phases up to the grouping, on files held in memory: partitions by
/// size and digests the content of each candidate.  A candidate that cannot
/// be digested is left out of the first list and named in the second, and
/// the others are digested all the same.  A file whose size no other file
/// shares is not digested at all.
pub fn digest_candidates(files: &Vec<SourceFile>) -> (out: (Vec<HashedFile>, Vec<PathBuf>))
    ensures
        hashed_views(out.0@) == digested(source_views(files@)),
        out.1@ == undigested(source_views(files@)),
{
    let n: usize = files.len();
    let ghost all = source_views(files@);
    let mut sizes: Vec<u64> = Vec::new();
    let mut i: usize = 0;
    while i < n
        invariant
            n == files@.len(),
            i <= n,
            sizes@ == source_sizes(all).take(i as int),
            all == source_views(files@),
        decreases n - i,
    {
        sizes.push(files[i].size);
        i = i + 1;
    }
    let flags = repeat_flags(&sizes);
    let mut hashed: Vec<HashedFile> = Vec::new();
    let mut failed: Vec<PathBuf> = Vec::new();
    let mut j: usize = 0;
    proof {
        reveal(Seq::filter);
    }
    while j < n
        invariant
            n == files@.len(),
            j <= n,
            all == source_views(files@),
            sizes@ == source_sizes(all),
            flags@.len() == n,
            forall|k: int| 0 <= k < n ==> #[trigger] flags@[k] == shares_size(sizes@, sizes@[k]),
            hashed_views(hashed@) == all.take(j as int).filter(is_hashed(all)).map_values(
                |f: SourceFileView| hashed_of(f),
            ),
            failed@ == all.take(j as int).filter(
                is_unreadable(all),
            ).map_values(|f: SourceFileView| f.path),
        decreases n - j,
    {
        let file = &files[j];
        let ghost f = all[j as int];
        proof {
            assert(all.take(j + 1) =~= all.take(j as int).push(f));
            all.take(j as int).lemma_filter_push(f, is_hashed(all));
            all.take(j as int).lemma_filter_push(f, is_unreadable(all));
        }
        if flags[j] {
            let digest: Option<String> = match &file.content {
                Some(bytes) => hash_file(bytes.as_slice()),
                None => None,
            };
            match digest {
                Some(digest) => {
                    hashed.push(HashedFile { path: file.path.clone(), size: file.size, digest });
                    proof {
                        assert(all.take(j + 1).filter(is_hashed(all)).map_values(
                            |f: SourceFileView| hashed_of(f),
                        ) =~= all.take(j as int).filter(is_hashed(all)).map_values(
                            |f: SourceFileView| hashed_of(f),
                        ).push(hashed_of(f)));
                    }
                },
                None => {
                    failed.push(file.path.clone());
                    proof {
                        assert(all.take(j + 1).filter(is_unreadable(all)).map_values(
                            |f: SourceFileView| f.path,
                        ) =~= all.take(j as int).filter(is_unreadable(all)).map_values(
                            |f: SourceFileView| f.path,
                        ).push(f.path));
                    }
                },
            }
        }
        j = j + 1;
    }
    assert(all.take(n as int) =~= all);
    (hashed, failed)
}

/// What a search for duplicates found.
#[derive(Clone, Debug, PartialEq, Eq)]
pub struct Findings {
    /// The duplicate groups.
    pub groups: Vec<DuplicateGroup>,
    /// The paths of the candidates that could not be digested and are
    /// therefore in no group: what there is to warn about.
    pub unreadable: Vec<PathBuf>,
}

/// Finds the groups of files with identical content among `files`: the
/// files that share their size with another file are digested, and those of
/// one size and one digest form a group where they are at least two.  A
/// candidate that cannot be digested is named in `unreadable` and does not
/// keep the others from being grouped.
pub fn find_duplicates(files: &Vec<SourceFile>) -> (found: Findings)
    ensures
        group_views(found.groups@) == grouping(digested(source_views(files@))),
        forall|k: int| 0 <= k < found.groups@.len() ==> (#[trigger] found.groups@[k]).wf(),
        found.unreadable@ == undigested(source_views(files@)),
{
    let (hashed, unreadable) = digest_candidates(files);
    Findings { groups: group_by_digest(&hashed), unreadable }
}

} // verus!
