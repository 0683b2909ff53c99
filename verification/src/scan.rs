//! Depth-bounded scan of a directory snapshot.
//!
//! The scan visits the root and every directory at most `max_depth` levels
//! below it, classifies each visited directory, and collects one measurement
//! record per classified build-output directory. Only a missing or
//! non-directory root is fatal; everything else degrades to "no record".
use crate::built_project::classify_spec;
use crate::built_project::record_for;
use crate::built_project::BuiltProject;
use crate::fs_model::lemma_wf_subdir;
use crate::fs_model::DirTree;
use vstd::prelude::*;

verus! {

/// The only fatal failure of a scan: the root path does not resolve to a
/// directory.
#[derive(Debug, PartialEq, Eq, Structural, Clone, Copy)]
pub enum ScanError {
    PathNotFound,
    NotADirectory,
}

/// What resolving the root path yielded: no entry at all, an entry that is
/// not a directory, or a snapshot of the directory tree.
pub enum RootEntry {
    Missing,
    NonDirectory,
    Directory(DirTree),
}

/// The record the root directory itself contributes: one if it classifies,
/// none otherwise.
pub open spec fn own_records(d: DirTree) -> Seq<BuiltProject> {
    match classify_spec(d) {
        Some(b) => seq![record_for(b)],
        None => Seq::empty(),
    }
}

/// All records of a scan of `d` to depth `depth`: the root's own record
/// followed by the records of each subdirectory, scanned one level shallower.
/// Depth 0 visits the root only.
pub open spec fn records_of(d: DirTree, depth: nat) -> Seq<BuiltProject>
    decreases depth, 0int,
{
    if depth == 0 {
        own_records(d)
    } else {
        own_records(d) + child_records(d.subdirs@, (depth - 1) as nat)
    }
}

/// Concatenation of the records of each directory in `dirs`, scanned to
/// depth `depth`.
pub open spec fn child_records(dirs: Seq<DirTree>, depth: nat) -> Seq<BuiltProject>
    decreases depth, dirs.len() + 1,
{
    if dirs.len() == 0 {
        Seq::empty()
    } else {
        records_of(dirs[0], depth) + child_records(dirs.drop_first(), depth)
    }
}

/// `n` is a directory node at most `depth` levels below `root` (or `root`
/// itself): the nodes a scan of `root` to `depth` visits.
pub open spec fn within_depth(root: DirTree, depth: nat, n: DirTree) -> bool
    decreases depth,
{
    n == root || (depth > 0 && exists|i: int|
        #![trigger root.subdirs@[i]]
        0 <= i < root.subdirs@.len() && within_depth(root.subdirs@[i], (depth - 1) as nat, n))
}

/// Scanning one more directory at the end appends its records.
pub proof fn lemma_child_records_snoc(dirs: Seq<DirTree>, d: DirTree, depth: nat)
    ensures
        child_records(dirs.push(d), depth) == child_records(dirs, depth) + records_of(d, depth),
    decreases dirs.len(),
{
    if dirs.len() == 0 {
        assert(dirs.push(d)[0] == d);
        assert(dirs.push(d).drop_first() =~= Seq::<DirTree>::empty());
        assert(child_records(dirs.push(d), depth) == records_of(d, depth) + child_records(
            Seq::<DirTree>::empty(),
            depth,
        ));
        assert(child_records(Seq::<DirTree>::empty(), depth) == Seq::<BuiltProject>::empty());
        assert(records_of(d, depth) + Seq::<BuiltProject>::empty() =~= records_of(d, depth));
        assert(child_records(dirs, depth) == Seq::<BuiltProject>::empty());
        assert(Seq::<BuiltProject>::empty() + records_of(d, depth) =~= records_of(d, depth));
    } else {
        assert(dirs.push(d)[0] == dirs[0]);
        assert(dirs.push(d).drop_first() =~= dirs.drop_first().push(d));
        lemma_child_records_snoc(dirs.drop_first(), d, depth);
        assert(child_records(dirs.push(d), depth) =~= child_records(dirs, depth) + records_of(
            d,
            depth,
        ));
    }
}

/// An element lies in a concatenation iff it lies in one of the parts.
proof fn lemma_contains_concat<A>(s1: Seq<A>, s2: Seq<A>, x: A)
    ensures
        (s1 + s2).contains(x) <==> s1.contains(x) || s2.contains(x),
{
    if (s1 + s2).contains(x) {
        let k = choose|k: int| 0 <= k < (s1 + s2).len() && (s1 + s2)[k] == x;
        if k < s1.len() {
            assert(s1[k] == x);
        } else {
            assert(s2[k - s1.len()] == x);
        }
    }
    if s1.contains(x) {
        let k = choose|k: int| 0 <= k < s1.len() && s1[k] == x;
        assert((s1 + s2)[k] == x);
    }
    if s2.contains(x) {
        let k = choose|k: int| 0 <= k < s2.len() && s2[k] == x;
        assert((s1 + s2)[s1.len() + k] == x);
    }
}

/// A record lies among the records of a directory list iff it lies among the
/// records of one of the directories.
proof fn lemma_child_records_membership(dirs: Seq<DirTree>, depth: nat, rec: BuiltProject)
    ensures
        child_records(dirs, depth).contains(rec) <==> exists|i: int|
            #![trigger dirs[i]]
            0 <= i < dirs.len() && records_of(dirs[i], depth).contains(rec),
    decreases dirs.len(),
{
    if dirs.len() == 0 {
        assert(!child_records(dirs, depth).contains(rec));
    } else {
        let rest = dirs.drop_first();
        lemma_contains_concat(records_of(dirs[0], depth), child_records(rest, depth), rec);
        lemma_child_records_membership(rest, depth, rec);
        if child_records(dirs, depth).contains(rec) {
            if records_of(dirs[0], depth).contains(rec) {
                assert(0 <= 0 < dirs.len() && records_of(dirs[0], depth).contains(rec));
            } else {
                let i = choose|i: int|
                    0 <= i < rest.len() && records_of(rest[i], depth).contains(rec);
                assert(dirs[i + 1] == rest[i]);
            }
        }
        if exists|i: int|
            #![trigger dirs[i]]
            0 <= i < dirs.len() && records_of(dirs[i], depth).contains(rec) {
            let i = choose|i: int|
                0 <= i < dirs.len() && records_of(dirs[i], depth).contains(rec);
            if i > 0 {
                assert(rest[i - 1] == dirs[i]);
                assert(records_of(rest[i - 1], depth).contains(rec));
            }
        }
    }
}

/// Law: exactly the visited, classified directories contribute records. A
/// record lies among the results of a scan of `d` to `depth` iff some
/// directory within `depth` levels of `d` classifies to a build-output
/// directory whose record it is. In particular no directory below the depth
/// bound is ever measured.
pub proof fn lemma_records_membership(d: DirTree, depth: nat, rec: BuiltProject)
    ensures
        records_of(d, depth).contains(rec) <==> exists|n: DirTree|
            #![trigger within_depth(d, depth, n)]
            within_depth(d, depth, n) && classify_spec(n) is Some && rec == record_for(
                classify_spec(n)->Some_0,
            ),
    decreases depth,
{
    let own = own_records(d);
    if depth == 0 {
        if own.contains(rec) {
            assert(classify_spec(d) is Some && rec == record_for(classify_spec(d)->Some_0));
            assert(within_depth(d, depth, d));
        }
        if exists|n: DirTree|
            #![trigger within_depth(d, depth, n)]
            within_depth(d, depth, n) && classify_spec(n) is Some && rec == record_for(
                classify_spec(n)->Some_0,
            ) {
            let n = choose|n: DirTree|
                within_depth(d, depth, n) && classify_spec(n) is Some && rec == record_for(
                    classify_spec(n)->Some_0,
                );
            assert(n == d);
            assert(own[0] == rec);
        }
    } else {
        let children = child_records(d.subdirs@, (depth - 1) as nat);
        lemma_contains_concat(own, children, rec);
        lemma_child_records_membership(d.subdirs@, (depth - 1) as nat, rec);
        if records_of(d, depth).contains(rec) {
            if own.contains(rec) {
                assert(within_depth(d, depth, d));
            } else {
                let i = choose|i: int|
                    0 <= i < d.subdirs@.len() && records_of(
                        d.subdirs@[i],
                        (depth - 1) as nat,
                    ).contains(rec);
                lemma_records_membership(d.subdirs@[i], (depth - 1) as nat, rec);
                let n = choose|n: DirTree|
                    within_depth(d.subdirs@[i], (depth - 1) as nat, n) && classify_spec(n) is Some
                        && rec == record_for(classify_spec(n)->Some_0);
                assert(within_depth(d, depth, n));
            }
        }
        if exists|n: DirTree|
            #![trigger within_depth(d, depth, n)]
            within_depth(d, depth, n) && classify_spec(n) is Some && rec == record_for(
                classify_spec(n)->Some_0,
            ) {
            let n = choose|n: DirTree|
                within_depth(d, depth, n) && classify_spec(n) is Some && rec == record_for(
                    classify_spec(n)->Some_0,
                );
            if n == d {
                assert(own[0] == rec);
                assert(own.contains(rec));
            } else {
                let i = choose|i: int|
                    0 <= i < d.subdirs@.len() && within_depth(
                        d.subdirs@[i],
                        (depth - 1) as nat,
                        n,
                    );
                lemma_records_membership(d.subdirs@[i], (depth - 1) as nat, rec);
                assert(records_of(d.subdirs@[i], (depth - 1) as nat).contains(rec));
            }
        }
    }
}

/// A directory visited under one depth bound is visited under every larger
/// one.
pub proof fn lemma_within_depth_monotone(root: DirTree, depth: nat, n: DirTree)
    requires
        within_depth(root, depth, n),
    ensures
        within_depth(root, (depth + 1) as nat, n),
    decreases depth,
{
    if n != root {
        let i = choose|i: int|
            0 <= i < root.subdirs@.len() && within_depth(root.subdirs@[i], (depth - 1) as nat, n);
        lemma_within_depth_monotone(root.subdirs@[i], (depth - 1) as nat, n);
        assert(within_depth(root, (depth + 1) as nat, n));
    }
}

/// Law: raising the depth bound never loses a record. With the membership law
/// this bounds the scan exactly: a record found at depth `k` is found at
/// every depth above `k`, and one not found at depth `k` has no classified
/// source directory within `k` levels.
pub proof fn lemma_scan_depth_monotone(d: DirTree, depth: nat, rec: BuiltProject)
    requires
        records_of(d, depth).contains(rec),
    ensures
        records_of(d, (depth + 1) as nat).contains(rec),
{
    lemma_records_membership(d, depth, rec);
    let n = choose|n: DirTree|
        within_depth(d, depth, n) && classify_spec(n) is Some && rec == record_for(
            classify_spec(n)->Some_0,
        );
    lemma_within_depth_monotone(d, depth, n);
    lemma_records_membership(d, (depth + 1) as nat, rec);
    assert(within_depth(d, (depth + 1) as nat, n));
}

/// Law: the result of a scan is order-independent. Two snapshots of the same
/// tree that list a directory's files and subdirectories in different orders
/// produce the same set of records.
pub proof fn lemma_scan_order_independent(a: DirTree, b: DirTree, depth: nat)
    requires
        a.wf(),
        a.readable == b.readable,
        a.files@.to_multiset() == b.files@.to_multiset(),
        a.subdirs@.to_multiset() == b.subdirs@.to_multiset(),
    ensures
        forall|rec: BuiltProject|
            records_of(a, depth).contains(rec) <==> records_of(b, depth).contains(rec),
{
    broadcast use vstd::seq_lib::group_to_multiset_ensures;

    crate::built_project::lemma_classify_order_independent(a, b);
    assert forall|rec: BuiltProject|
        records_of(a, depth).contains(rec) <==> records_of(b, depth).contains(rec) by {
        lemma_records_membership(a, depth, rec);
        lemma_records_membership(b, depth, rec);
        if records_of(a, depth).contains(rec) {
            let n = choose|n: DirTree|
                within_depth(a, depth, n) && classify_spec(n) is Some && rec == record_for(
                    classify_spec(n)->Some_0,
                );
            if n == a {
                assert(within_depth(b, depth, b));
            } else {
                let i = choose|i: int|
                    0 <= i < a.subdirs@.len() && within_depth(a.subdirs@[i], (depth - 1) as nat, n);
                let e = a.subdirs@[i];
                assert(a.subdirs@.contains(e));
                assert(a.subdirs@.to_multiset().count(e) > 0);
                assert(b.subdirs@.to_multiset().count(e) > 0);
                assert(b.subdirs@.contains(e));
                let j = choose|j: int| 0 <= j < b.subdirs@.len() && b.subdirs@[j] == e;
                assert(within_depth(b.subdirs@[j], (depth - 1) as nat, n));
                assert(within_depth(b, depth, n));
            }
        }
        if records_of(b, depth).contains(rec) {
            let n = choose|n: DirTree|
                within_depth(b, depth, n) && classify_spec(n) is Some && rec == record_for(
                    classify_spec(n)->Some_0,
                );
            if n == b {
                assert(within_depth(a, depth, a));
            } else {
                let i = choose|i: int|
                    0 <= i < b.subdirs@.len() && within_depth(b.subdirs@[i], (depth - 1) as nat, n);
                let e = b.subdirs@[i];
                assert(b.subdirs@.contains(e));
                assert(b.subdirs@.to_multiset().count(e) > 0);
                assert(a.subdirs@.to_multiset().count(e) > 0);
                assert(a.subdirs@.contains(e));
                let j = choose|j: int| 0 <= j < a.subdirs@.len() && a.subdirs@[j] == e;
                assert(within_depth(a.subdirs@[j], (depth - 1) as nat, n));
                assert(within_depth(a, depth, n));
            }
        }
    }
}

/// Scan the snapshot `d` and every directory at most `max_depth` levels below
/// it; return one measurement record per classified build-output directory,
/// in visiting order.
pub fn scan_tree(d: &DirTree, max_depth: usize) -> (r: Vec<BuiltProject>)
    requires
        d.wf(),
    ensures
        r@ == records_of(*d, max_depth as nat),
    decreases max_depth,
{
    let mut out: Vec<BuiltProject> = Vec::new();
    match BuiltProject::check_at_path(d) {
        Some(rec) => {
            out.push(rec);
            proof {
                assert(out@ =~= own_records(*d));
            }
        },
        None => {
            proof {
                assert(out@ =~= own_records(*d));
            }
        },
    }
    if max_depth > 0 {
        proof {
            assert(out@ =~= own_records(*d) + child_records(
                d.subdirs@.take(0),
                (max_depth - 1) as nat,
            ));
        }
        let mut j: usize = 0;
        while j < d.subdirs.len()
            invariant
                d.wf(),
                max_depth >= 1,
                0 <= j <= d.subdirs@.len(),
                out@ == own_records(*d) + child_records(
                    d.subdirs@.take(j as int),
                    (max_depth - 1) as nat,
                ),
            decreases d.subdirs@.len() - j,
        {
            proof {
                lemma_wf_subdir(*d, j as int);
            }
            let mut sub = scan_tree(&d.subdirs[j], max_depth - 1);
            proof {
                lemma_child_records_snoc(
                    d.subdirs@.take(j as int),
                    d.subdirs@[j as int],
                    (max_depth - 1) as nat,
                );
                assert(d.subdirs@.take(j as int).push(d.subdirs@[j as int]) =~= d.subdirs@.take(
                    j as int + 1,
                ));
            }
            out.append(&mut sub);
            j = j + 1;
        }
        proof {
            assert(d.subdirs@.take(d.subdirs@.len() as int) =~= d.subdirs@);
        }
    }
    out
}

/// Scan from a resolved root: a missing root fails with `PathNotFound`, a
/// non-directory root with `NotADirectory`; a directory root always succeeds
/// with exactly the records of the depth-bounded scan.
pub fn scan(root: &RootEntry, max_depth: usize) -> (r: Result<Vec<BuiltProject>, ScanError>)
    requires
        match *root {
            RootEntry::Directory(d) => d.wf(),
            _ => true,
        },
    ensures
        match *root {
            RootEntry::Missing => r == Err::<Vec<BuiltProject>, ScanError>(ScanError::PathNotFound),
            RootEntry::NonDirectory => r == Err::<Vec<BuiltProject>, ScanError>(
                ScanError::NotADirectory,
            ),
            RootEntry::Directory(d) => r is Ok && r.unwrap()@ == records_of(d, max_depth as nat),
        },
{
    match root {
        RootEntry::Missing => Err(ScanError::PathNotFound),
        RootEntry::NonDirectory => Err(ScanError::NotADirectory),
        RootEntry::Directory(d) => Ok(scan_tree(d, max_depth)),
    }
}

} // verus!
