//! What holds of the grouping: which files share a group, what a group can
//! hold, and that the order in which files are handed in does not change
//! who is grouped with whom.

use crate::hasher::candidates;
use crate::hasher::digested;
use crate::hasher::digestible;
use crate::hasher::group_of;
use crate::hasher::grouping;
use crate::hasher::has_key;
use crate::hasher::hashed_of;
use crate::hasher::is_hashed;
use crate::hasher::is_plural;
use crate::hasher::is_unreadable;
use crate::hasher::is_size;
use crate::hasher::key_of;
use crate::hasher::keys;
use crate::hasher::members;
use crate::hasher::occurrences;
use crate::hasher::partition;
use crate::hasher::shares_size;
use crate::hasher::source_sizes;
use crate::hasher::undigested;
use crate::hasher::DuplicateGroupView;
use crate::hasher::HashedFileView;
use crate::hasher::Key;
use crate::hasher::SourceFileView;
use crate::scanner::eligible;
use crate::scanner::is_eligible;
use crate::scanner::scanned;
use crate::scanner::WalkEntry;
use std::path::PathBuf;
use vstd::prelude::*;
use vstd::seq_lib::lemma_multiset_commutative;
use vstd::seq_lib::to_multiset_build;
use vstd::seq_lib::to_multiset_contains;
use vstd::seq_lib::to_multiset_len;
use vstd::seq_lib::to_multiset_remove;

verus! {

/// The keys after one more file.
pub proof fn lemma_keys_push(files: Seq<HashedFileView>, f: HashedFileView)
    ensures
        keys(files.push(f)) == if keys(files).contains(key_of(f)) {
            keys(files)
        } else {
            keys(files).push(key_of(f))
        },
{
    assert(files.push(f).drop_last() =~= files);
}

/// The members of a key after one more file.
pub proof fn lemma_members_push(files: Seq<HashedFileView>, f: HashedFileView, key: Key)
    ensures
        members(files.push(f), key) == if key_of(f) == key {
            members(files, key).push(f.path)
        } else {
            members(files, key)
        },
{
    files.lemma_filter_push(f, has_key(key));
}

/// No key is listed twice.
pub proof fn lemma_keys_distinct(files: Seq<HashedFileView>)
    ensures
        keys(files).no_duplicates(),
    decreases files.len(),
{
    if files.len() > 0 {
        lemma_keys_distinct(files.drop_last());
    }
}

/// A key that is not listed has no members.
pub proof fn lemma_absent_key_has_no_members(files: Seq<HashedFileView>, key: Key)
    requires
        !keys(files).contains(key),
    ensures
        members(files, key) == Seq::<PathBuf>::empty(),
    decreases files.len(),
{
    if files.len() == 0 {
        reveal(Seq::filter);
    } else {
        let before = files.drop_last();
        let last = files.last();
        assert(files =~= before.push(last));
        if keys(before).contains(key) {
            let at = choose|at: int| 0 <= at < keys(before).len() && keys(before)[at] == key;
            assert(keys(files)[at] == key);
        }
        if key_of(last) == key {
            if !keys(before).contains(key) {
                assert(keys(files).last() == key);
            }
        }
        lemma_absent_key_has_no_members(before, key);
        lemma_members_push(before, last, key);
    }
}

/// Two elements that a filter keeps stay in their order: it returns the two
/// places at which the filtered sequence holds them.
pub proof fn lemma_filter_keeps_pair<A>(s: Seq<A>, pred: spec_fn(A) -> bool, i: int, j: int) -> (at:
    (int, int))
    requires
        0 <= i < j < s.len(),
        pred(s[i]),
        pred(s[j]),
    ensures
        0 <= at.0 < at.1 < s.filter(pred).len(),
        s.filter(pred)[at.0] == s[i],
        s.filter(pred)[at.1] == s[j],
    decreases s.len(),
{
    let t = s.drop_last();
    let last = s.last();
    assert(s =~= t.push(last));
    t.lemma_filter_push(last, pred);
    if j == s.len() - 1 {
        t.lemma_filter_contains(pred, i);
        let a = choose|a: int| 0 <= a < t.filter(pred).len() && t.filter(pred)[a] == t[i];
        (a, t.filter(pred).len() as int)
    } else {
        lemma_filter_keeps_pair(t, pred, i, j)
    }
}

/// Each element of a filtered sequence stands somewhere in the sequence and
/// meets the predicate.
pub proof fn lemma_filter_source<A>(s: Seq<A>, pred: spec_fn(A) -> bool, m: int) -> (i: int)
    requires
        0 <= m < s.filter(pred).len(),
    ensures
        0 <= i < s.len(),
        s[i] == s.filter(pred)[m],
        pred(s[i]),
{
    let kept = s.filter(pred);
    s.lemma_filter_pred(pred, m);
    s.lemma_filter_contains_rev(pred, kept[m]);
    choose|i: int| 0 <= i < s.len() && s[i] == kept[m]
}

/// The key of every file is listed.
pub proof fn lemma_key_listed(files: Seq<HashedFileView>, i: int) -> (at: int)
    requires
        0 <= i < files.len(),
    ensures
        0 <= at < keys(files).len(),
        keys(files)[at] == key_of(files[i]),
    decreases files.len(),
{
    let before = files.drop_last();
    let key = key_of(files[i]);
    if i == files.len() - 1 {
        if keys(before).contains(key) {
            choose|at: int| 0 <= at < keys(before).len() && keys(before)[at] == key
        } else {
            keys(before).len() as int
        }
    } else {
        lemma_key_listed(before, i)
    }
}

/// Two files of one size and one digest are placed in the same group: the
/// group of their key is among the duplicate groups and lists both paths,
/// the earlier file first.
pub proof fn lemma_copies_share_a_group(files: Seq<HashedFileView>, i: int, j: int) -> (at: (
    int,
    int,
    int,
))
    requires
        0 <= i < j < files.len(),
        key_of(files[i]) == key_of(files[j]),
    ensures
        0 <= at.0 < grouping(files).len(),
        grouping(files)[at.0] == group_of(files, key_of(files[i])),
        0 <= at.1 < at.2 < grouping(files)[at.0].paths.len(),
        grouping(files)[at.0].paths[at.1] == files[i].path,
        grouping(files)[at.0].paths[at.2] == files[j].path,
{
    let key = key_of(files[i]);
    let (a, b) = lemma_filter_keeps_pair(files, has_key(key), i, j);
    let group = group_of(files, key);
    let k = lemma_key_listed(files, i);
    partition(files).lemma_filter_contains(is_plural(), k);
    let g = choose|g: int| 0 <= g < grouping(files).len() && grouping(files)[g] == group;
    (g, a, b)
}

/// Every duplicate group is the group of one key, has at least two members,
/// and each member is the path of a file with the size and the digest of the
/// group.  So two files whose sizes or digests differ are never members of
/// one group.
pub proof fn lemma_members_share_the_key(files: Seq<HashedFileView>, k: int, m: int) -> (i: int)
    requires
        0 <= k < grouping(files).len(),
        0 <= m < grouping(files)[k].paths.len(),
    ensures
        grouping(files)[k].paths.len() >= 2,
        grouping(files)[k] == group_of(
            files,
            Key { size: grouping(files)[k].size, digest: grouping(files)[k].digest },
        ),
        0 <= i < files.len(),
        files[i].path == grouping(files)[k].paths[m],
        files[i].size == grouping(files)[k].size,
        files[i].digest == grouping(files)[k].digest,
{
    let at = lemma_filter_source(partition(files), is_plural(), k);
    lemma_filter_source(files, has_key(keys(files)[at]), m)
}

/// No two duplicate groups have the same size and digest.
pub proof fn lemma_groups_have_distinct_keys(files: Seq<HashedFileView>, k: int, l: int)
    requires
        0 <= k < l < grouping(files).len(),
    ensures
        grouping(files)[k].size != grouping(files)[l].size || grouping(files)[k].digest
            != grouping(files)[l].digest,
{
    lemma_plural_places(partition(files), k, l);
    lemma_keys_distinct(files);
}

/// The places in `all` of two groups that the filter for plural groups
/// keeps, in their order.
proof fn lemma_plural_places(all: Seq<DuplicateGroupView>, k: int, l: int) -> (at: (int, int))
    requires
        0 <= k < l < all.filter(is_plural()).len(),
    ensures
        0 <= at.0 < at.1 < all.len(),
        all[at.0] == all.filter(is_plural())[k],
        all[at.1] == all.filter(is_plural())[l],
    decreases all.len(),
{
    let rest = all.drop_last();
    let last = all.last();
    assert(all =~= rest.push(last));
    rest.lemma_filter_push(last, is_plural());
    if l < rest.filter(is_plural()).len() {
        lemma_plural_places(rest, k, l)
    } else {
        let a = lemma_filter_source(rest, is_plural(), k);
        (a, all.len() - 1)
    }
}

/// No group holds a file shorter than the shortest file handed in: where
/// every file has at least `min_size` bytes, so has every group.
pub proof fn lemma_groups_respect_minimum(files: Seq<HashedFileView>, min_size: u64, k: int)
    requires
        forall|i: int| 0 <= i < files.len() ==> (#[trigger] files[i]).size >= min_size,
        0 <= k < grouping(files).len(),
    ensures
        grouping(files)[k].size >= min_size,
{
    lemma_filter_source(partition(files), is_plural(), k);
    lemma_members_share_the_key(files, k, 0);
}

/// Two sequences with the same elements, counted with their multiplicity:
/// one is a reordering of the other.
pub open spec fn reordered<A>(a: Seq<A>, b: Seq<A>) -> bool {
    a.to_multiset() == b.to_multiset()
}

/// Takes the last element of `a` out of both sequences: returns its place in
/// `b`, and what is left is again a reordering.
proof fn lemma_peel<A>(a: Seq<A>, b: Seq<A>) -> (at: int)
    requires
        reordered(a, b),
        a.len() > 0,
    ensures
        0 <= at < b.len(),
        b[at] == a.last(),
        reordered(a.drop_last(), b.remove(at)),
{
    let x = a.last();
    to_multiset_contains(a, x);
    to_multiset_contains(b, x);
    let at = choose|at: int| 0 <= at < b.len() && b[at] == x;
    to_multiset_remove(a, a.len() - 1);
    to_multiset_remove(b, at);
    at
}

/// Putting back an element that a sequence holds changes nothing.
proof fn lemma_restore<A>(s: Seq<A>, at: int)
    requires
        0 <= at < s.len(),
    ensures
        s.to_multiset() == s.remove(at).to_multiset().insert(s[at]),
{
    to_multiset_remove(s, at);
    to_multiset_contains(s, s[at]);
}

/// Mapped reorderings are reorderings.
pub proof fn lemma_map_reordered<A, B>(a: Seq<A>, b: Seq<A>, f: spec_fn(A) -> B)
    requires
        reordered(a, b),
    ensures
        reordered(a.map_values(f), b.map_values(f)),
    decreases a.len(),
{
    to_multiset_len(a);
    to_multiset_len(b);
    if a.len() == 0 {
        assert(a.map_values(f) =~= b.map_values(f));
    } else {
        let at = lemma_peel(a, b);
        lemma_map_reordered(a.drop_last(), b.remove(at), f);
        assert(a.map_values(f) =~= a.drop_last().map_values(f).push(f(a.last())));
        to_multiset_build(a.drop_last().map_values(f), f(a.last()));
        assert(b.map_values(f).remove(at) =~= b.remove(at).map_values(f));
        lemma_restore(b.map_values(f), at);
    }
}

/// What a filter keeps of a sequence, against what it keeps once one
/// element is taken out.
proof fn lemma_filter_remove<A>(s: Seq<A>, pred: spec_fn(A) -> bool, at: int)
    requires
        0 <= at < s.len(),
    ensures
        s.filter(pred).to_multiset() == if pred(s[at]) {
            s.remove(at).filter(pred).to_multiset().insert(s[at])
        } else {
            s.remove(at).filter(pred).to_multiset()
        },
{
    let left = s.take(at);
    let right = s.skip(at + 1);
    let mid = Seq::<A>::empty().push(s[at]);
    assert(s =~= left + mid + right);
    Seq::filter_distributes_over_add(left + mid, right, pred);
    Seq::filter_distributes_over_add(left, mid, pred);
    Seq::filter_distributes_over_add(left, right, pred);
    Seq::<A>::empty().lemma_filter_push(s[at], pred);
    assert(Seq::<A>::empty().filter(pred) =~= Seq::<A>::empty()) by {
        reveal(Seq::filter);
    }
    let l = left.filter(pred);
    let r = right.filter(pred);
    lemma_multiset_commutative(l, r);
    if pred(s[at]) {
        lemma_multiset_commutative(l + mid, r);
        assert(l + mid =~= l.push(s[at]));
        to_multiset_build(l, s[at]);
    }
}

/// Filtered reorderings are reorderings.
pub proof fn lemma_filter_reordered<A>(a: Seq<A>, b: Seq<A>, pred: spec_fn(A) -> bool)
    requires
        reordered(a, b),
    ensures
        reordered(a.filter(pred), b.filter(pred)),
    decreases a.len(),
{
    to_multiset_len(a);
    to_multiset_len(b);
    if a.len() == 0 {
        assert(a =~= b);
    } else {
        let at = lemma_peel(a, b);
        lemma_filter_reordered(a.drop_last(), b.remove(at), pred);
        lemma_filter_remove(a, pred, a.len() - 1);
        lemma_filter_remove(b, pred, at);
    }
}

/// Who is grouped with whom does not depend on the order of the files: for
/// each size and digest, a reordering of the files has the same members,
/// each as often.
pub proof fn lemma_membership_stable(a: Seq<HashedFileView>, b: Seq<HashedFileView>, key: Key)
    requires
        reordered(a, b),
    ensures
        reordered(members(a, key), members(b, key)),
        members(a, key).len() == members(b, key).len(),
{
    lemma_filter_reordered(a, b, has_key(key));
    lemma_map_reordered(
        a.filter(has_key(key)),
        b.filter(has_key(key)),
        |f: HashedFileView| f.path,
    );
    to_multiset_len(members(a, key));
    to_multiset_len(members(b, key));
}

/// The duplicate groups of a reordering are the same groups: each group of
/// the one has a group of the other with its size, its digest and its
/// members.  Only the order of the groups and of the members within a group,
/// and with it the choice of the kept copy, can differ.
pub proof fn lemma_groups_stable(a: Seq<HashedFileView>, b: Seq<HashedFileView>, k: int) -> (l: int)
    requires
        reordered(a, b),
        0 <= k < grouping(a).len(),
    ensures
        0 <= l < grouping(b).len(),
        grouping(b)[l].size == grouping(a)[k].size,
        grouping(b)[l].digest == grouping(a)[k].digest,
        reordered(grouping(b)[l].paths, grouping(a)[k].paths),
{
    let group = grouping(a)[k];
    let key = Key { size: group.size, digest: group.digest };
    lemma_members_share_the_key(a, k, 0);
    lemma_membership_stable(a, b, key);
    if !keys(b).contains(key) {
        lemma_absent_key_has_no_members(b, key);
    }
    let at = choose|at: int| 0 <= at < keys(b).len() && keys(b)[at] == key;
    partition(b).lemma_filter_contains(is_plural(), at);
    choose|l: int| 0 <= l < grouping(b).len() && grouping(b)[l] == group_of(b, key)
}

/// The size and digest of a group.
pub open spec fn key_of_group(group: DuplicateGroupView) -> Key {
    Key { size: group.size, digest: group.digest }
}

/// A reordering of the files has as many duplicate groups.
pub proof fn lemma_group_count_stable(a: Seq<HashedFileView>, b: Seq<HashedFileView>)
    requires
        reordered(a, b),
    ensures
        grouping(a).len() == grouping(b).len(),
{
    let ka = grouping(a).map_values(|g: DuplicateGroupView| key_of_group(g));
    let kb = grouping(b).map_values(|g: DuplicateGroupView| key_of_group(g));
    assert forall|i: int, j: int| 0 <= i < j < ka.len() implies ka[i] != ka[j] by {
        lemma_groups_have_distinct_keys(a, i, j);
    }
    assert forall|i: int, j: int| 0 <= i < j < kb.len() implies kb[i] != kb[j] by {
        lemma_groups_have_distinct_keys(b, i, j);
    }
    assert forall|key: Key| ka.contains(key) implies kb.contains(key) by {
        let k = choose|k: int| 0 <= k < ka.len() && ka[k] == key;
        let l = lemma_groups_stable(a, b, k);
        assert(kb[l] == key);
    }
    assert forall|key: Key| kb.contains(key) implies ka.contains(key) by {
        let k = choose|k: int| 0 <= k < kb.len() && kb[k] == key;
        let l = lemma_groups_stable(b, a, k);
        assert(ka[l] == key);
    }
    assert(ka.to_set() =~= kb.to_set());
    ka.unique_seq_to_set();
    kb.unique_seq_to_set();
}

/// A size that two files have is a shared size.
pub proof fn lemma_twice_is_shared(sizes: Seq<u64>, i: int, j: int)
    requires
        0 <= i < j < sizes.len(),
        sizes[i] == sizes[j],
    ensures
        shares_size(sizes, sizes[i]),
{
    lemma_filter_keeps_pair(sizes, is_size(sizes[i]), i, j);
}

/// How often a size occurs does not depend on the order.
pub proof fn lemma_occurrences_stable(a: Seq<u64>, b: Seq<u64>, size: u64)
    requires
        reordered(a, b),
    ensures
        occurrences(a, size) == occurrences(b, size),
{
    lemma_filter_reordered(a, b, is_size(size));
    to_multiset_len(a.filter(is_size(size)));
    to_multiset_len(b.filter(is_size(size)));
}

/// Two files with identical content, and hence of identical size, are
/// placed in the same duplicate group, provided the content can be digested:
/// both are digested although no other file may share their size, their
/// digests agree, and the group of that size and digest lists both paths.
pub proof fn lemma_identical_content_shares_a_group(files: Seq<SourceFileView>, i: int, j: int) -> (at:
    (int, int, int))
    requires
        0 <= i < j < files.len(),
        files[i].content == files[j].content,
        files[i].size == files[j].size,
        digestible(files[i]),
    ensures
        0 <= at.0 < grouping(digested(files)).len(),
        grouping(digested(files))[at.0].size == files[i].size,
        grouping(digested(files))[at.0].digest == hashed_of(files[i]).digest,
        0 <= at.1 < at.2 < grouping(digested(files))[at.0].paths.len(),
        grouping(digested(files))[at.0].paths[at.1] == files[i].path,
        grouping(digested(files))[at.0].paths[at.2] == files[j].path,
{
    lemma_twice_is_shared(source_sizes(files), i, j);
    let (a, b) = lemma_filter_keeps_pair(files, is_hashed(files), i, j);
    let hashed = digested(files);
    lemma_copies_share_a_group(hashed, a, b)
}

/// Every member of a duplicate group found among files held in memory is
/// one of those files: it has the size of the group, shares that size with
/// another file, was digestible, and the digest of its content is the
/// digest of the group.  Files of one size whose digests differ are
/// therefore never in one group, and a file that could not be read is in
/// none.
pub proof fn lemma_members_were_digested(files: Seq<SourceFileView>, k: int, m: int) -> (i: int)
    requires
        0 <= k < grouping(digested(files)).len(),
        0 <= m < grouping(digested(files))[k].paths.len(),
    ensures
        0 <= i < files.len(),
        files[i].path == grouping(digested(files))[k].paths[m],
        files[i].size == grouping(digested(files))[k].size,
        shares_size(source_sizes(files), files[i].size),
        digestible(files[i]),
        hashed_of(files[i]).digest == grouping(digested(files))[k].digest,
{
    let hashed = digested(files);
    let h = lemma_members_share_the_key(hashed, k, m);
    lemma_filter_source(files, is_hashed(files), h)
}

/// The digest depends on the content only, not on the path or on anything
/// else: two files with the same content can both be digested or neither
/// can, and where they can their digests are equal.
pub proof fn lemma_digest_depends_on_content_only(p: SourceFileView, q: SourceFileView)
    requires
        p.content == q.content,
    ensures
        digestible(p) == digestible(q),
        digestible(p) ==> hashed_of(p).digest == hashed_of(q).digest,
{
}

/// A candidate that cannot be read is named among the unreadable: it is
/// what there is to warn about.
pub proof fn lemma_unreadable_candidate_is_named(files: Seq<SourceFileView>, j: int) -> (at: int)
    requires
        0 <= j < files.len(),
        shares_size(source_sizes(files), files[j].size),
        !digestible(files[j]),
    ensures
        0 <= at < undigested(files).len(),
        undigested(files)[at] == files[j].path,
{
    files.lemma_filter_contains(is_unreadable(files), j);
    let kept = files.filter(is_unreadable(files));
    choose|at: int| 0 <= at < kept.len() && kept[at] == files[j]
}

/// Nothing else is named: each path among the unreadable is that of a file
/// which shares its size with another and could not be digested.
pub proof fn lemma_named_unreadable_was_candidate(files: Seq<SourceFileView>, m: int) -> (j: int)
    requires
        0 <= m < undigested(files).len(),
    ensures
        0 <= j < files.len(),
        files[j].path == undigested(files)[m],
        shares_size(source_sizes(files), files[j].size),
        !digestible(files[j]),
{
    lemma_filter_source(files, is_unreadable(files), m)
}

/// A file that cannot be read is a member of no group, and does not keep
/// the others from being grouped: no group lists its path, given that no
/// other file has that path.
pub proof fn lemma_unreadable_is_in_no_group(files: Seq<SourceFileView>, j: int, k: int, m: int)
    requires
        0 <= j < files.len(),
        !digestible(files[j]),
        forall|i: int| 0 <= i < files.len() && i != j ==> (#[trigger] files[i]).path != files[j].path,
        0 <= k < grouping(digested(files)).len(),
        0 <= m < grouping(digested(files))[k].paths.len(),
    ensures
        grouping(digested(files))[k].paths[m] != files[j].path,
{
    lemma_members_were_digested(files, k, m);
}

/// Digesting the candidates of a reordering gives a reordering.
pub proof fn lemma_digested_stable(a: Seq<SourceFileView>, b: Seq<SourceFileView>)
    requires
        reordered(a, b),
    ensures
        reordered(digested(a), digested(b)),
{
    lemma_map_reordered(a, b, |f: SourceFileView| f.size);
    assert forall|size: u64|
        shares_size(source_sizes(a), size) == #[trigger] shares_size(source_sizes(b), size) by {
        lemma_occurrences_stable(source_sizes(a), source_sizes(b), size);
    }
    assert(is_hashed(a) =~= is_hashed(b));
    lemma_filter_reordered(a, b, is_hashed(a));
    lemma_map_reordered(
        a.filter(is_hashed(a)),
        b.filter(is_hashed(b)),
        |f: SourceFileView| hashed_of(f),
    );
}

/// Finding duplicates twice among the same files, handed in in another
/// order, finds the same groups: as many, and each group of the one run has
/// a group of the other with its size, its digest and its members.
pub proof fn lemma_found_groups_stable(a: Seq<SourceFileView>, b: Seq<SourceFileView>, k: int) -> (l:
    int)
    requires
        reordered(a, b),
        0 <= k < grouping(digested(a)).len(),
    ensures
        grouping(digested(a)).len() == grouping(digested(b)).len(),
        0 <= l < grouping(digested(b)).len(),
        grouping(digested(b))[l].size == grouping(digested(a))[k].size,
        grouping(digested(b))[l].digest == grouping(digested(a))[k].digest,
        reordered(grouping(digested(b))[l].paths, grouping(digested(a))[k].paths),
{
    lemma_digested_stable(a, b);
    lemma_group_count_stable(digested(a), digested(b));
    lemma_groups_stable(digested(a), digested(b), k)
}

/// A file shorter than the minimum is never a candidate: every candidate
/// among the scanned files comes from an entry of the walk that is a
/// readable regular file of at least `min_size` bytes.
pub proof fn lemma_candidates_respect_minimum(
    entries: Seq<Option<WalkEntry>>,
    min_size: u64,
    m: int,
) -> (i: int)
    requires
        0 <= m < candidates(scanned(entries, min_size)).len(),
    ensures
        candidates(scanned(entries, min_size))[m].size >= min_size,
        0 <= i < entries.len(),
        eligible(entries[i], min_size),
        entries[i]->0.path == candidates(scanned(entries, min_size))[m].path,
        entries[i]->0.size->0 == candidates(scanned(entries, min_size))[m].size,
{
    let files = scanned(entries, min_size);
    let at = lemma_filter_source(files, crate::hasher::is_candidate(files), m);
    lemma_filter_source(entries, is_eligible(min_size), at)
}

} // verus!
