//! Classification of directories as known project roots, and construction of
//! the measurement record for a classified build-output directory.
//!
//! A directory is a Rust-style project root when a file named `Cargo.toml`
//! lies directly inside it; its build output is the direct subdirectory named
//! `target`. Otherwise it is a Unity-style project root when a direct
//! subdirectory `ProjectSettings` holds a file `ProjectSettings.asset`; its
//! build output is the direct subdirectory named `Library`. The Rust check is
//! evaluated first; the first match wins. An unreadable directory never
//! matches.
use crate::fs_model::lemma_wf_subdir;
use crate::fs_model::measured_last_modified;
use crate::fs_model::measured_size;
use crate::fs_model::DirTree;
use crate::fs_model::FileEntry;
use crate::fs_model::BYTES_PER_MB;
use vstd::prelude::*;

verus! {

/// A classified and measured build-output directory: its path, its aggregate
/// size in whole megabytes (rounded down), and the most recent modification
/// timestamp among its direct children (or its own, if childless).
#[derive(Debug)]
pub struct BuiltProject {
    pub path: String,
    pub size: u64,
    pub last_modified: u64,
}

/// Name of the file marking a Rust-style project root.
pub open spec fn cargo_marker() -> Seq<char> {
    "Cargo.toml"@
}

/// Name of the build-output subdirectory of a Rust-style project.
pub open spec fn target_dir_name() -> Seq<char> {
    "target"@
}

/// Name of the settings subdirectory marking a Unity-style project root.
pub open spec fn settings_dir_name() -> Seq<char> {
    "ProjectSettings"@
}

/// Name of the settings file marking a Unity-style project root.
pub open spec fn settings_file_name() -> Seq<char> {
    "ProjectSettings.asset"@
}

/// Name of the build-output subdirectory of a Unity-style project.
pub open spec fn library_dir_name() -> Seq<char> {
    "Library"@
}

/// A file with the given name lies directly inside `d`.
pub open spec fn has_file_named(d: DirTree, name: Seq<char>) -> bool {
    exists|i: int| 0 <= i < d.files@.len() && d.files@[i].name@ == name
}

/// A subdirectory with the given name lies directly inside `d`.
pub open spec fn has_subdir_named(d: DirTree, name: Seq<char>) -> bool {
    exists|i: int| 0 <= i < d.subdirs@.len() && d.subdirs@[i].name@ == name
}

/// The subdirectory of `d` with the given name (unique in a well-formed
/// snapshot).
pub open spec fn subdir_named(d: DirTree, name: Seq<char>) -> DirTree
    recommends
        has_subdir_named(d, name),
{
    d.subdirs@[choose|i: int| 0 <= i < d.subdirs@.len() && d.subdirs@[i].name@ == name]
}

/// `d` is readable and carries the Rust-style project marker.
pub open spec fn is_rust_root(d: DirTree) -> bool {
    d.readable && has_file_named(d, cargo_marker())
}

/// `d` is readable and carries the Unity-style project marker.
pub open spec fn is_unity_root(d: DirTree) -> bool {
    &&& d.readable
    &&& has_subdir_named(d, settings_dir_name())
    &&& has_file_named(subdir_named(d, settings_dir_name()), settings_file_name())
}

/// The classification of `d`: the build-output subdirectory of the first
/// matching project type, or nothing. An unreadable directory, a directory
/// with no marker, and a recognized project root whose build-output
/// subdirectory is absent all yield no match.
pub open spec fn classify_spec(d: DirTree) -> Option<DirTree> {
    if is_rust_root(d) {
        if has_subdir_named(d, target_dir_name()) {
            Some(subdir_named(d, target_dir_name()))
        } else {
            None
        }
    } else if is_unity_root(d) {
        if has_subdir_named(d, library_dir_name()) {
            Some(subdir_named(d, library_dir_name()))
        } else {
            None
        }
    } else {
        None
    }
}

/// The record that measuring the build-output directory `d` produces.
pub open spec fn record_for(d: DirTree) -> BuiltProject {
    BuiltProject {
        path: d.path,
        size: (d.total_size() / BYTES_PER_MB as int) as u64,
        last_modified: d.last_modified_of(),
    }
}

/// An index whose subdirectory carries `name` identifies `subdir_named`: in a
/// well-formed snapshot subdirectory names are distinct.
pub proof fn lemma_subdir_named_is(d: DirTree, name: Seq<char>, i: int)
    requires
        d.wf(),
        0 <= i < d.subdirs@.len(),
        d.subdirs@[i].name@ == name,
    ensures
        has_subdir_named(d, name),
        subdir_named(d, name) == d.subdirs@[i],
{
    assert(has_subdir_named(d, name));
    let j = choose|j: int| 0 <= j < d.subdirs@.len() && d.subdirs@[j].name@ == name;
    if i < j {
        assert(d.subdirs@[i].name@ != d.subdirs@[j].name@);
    } else if j < i {
        assert(d.subdirs@[j].name@ != d.subdirs@[i].name@);
    }
}

/// Law: a readable directory holding a `Cargo.toml` file classifies to its
/// `target` subdirectory when that subdirectory is present, and to no match
/// when it is absent.
pub proof fn lemma_classify_rust(d: DirTree)
    requires
        d.wf(),
        d.readable,
        has_file_named(d, cargo_marker()),
    ensures
        has_subdir_named(d, target_dir_name()) ==> classify_spec(d) == Some(
            subdir_named(d, target_dir_name()),
        ),
        !has_subdir_named(d, target_dir_name()) ==> classify_spec(d) is None,
{
}

/// Law: a readable directory without the Rust marker whose `ProjectSettings`
/// subdirectory holds `ProjectSettings.asset` classifies to its `Library`
/// subdirectory when that subdirectory is present, and to no match when it is
/// absent.
pub proof fn lemma_classify_unity(d: DirTree)
    requires
        d.wf(),
        !has_file_named(d, cargo_marker()),
        is_unity_root(d),
    ensures
        has_subdir_named(d, library_dir_name()) ==> classify_spec(d) == Some(
            subdir_named(d, library_dir_name()),
        ),
        !has_subdir_named(d, library_dir_name()) ==> classify_spec(d) is None,
{
}

/// Law: a build directory with no files anywhere under it measures zero
/// megabytes.
pub proof fn lemma_no_files_record_zero(d: DirTree)
    requires
        d.has_no_files(),
    ensures
        record_for(d).size == 0,
{
    crate::fs_model::lemma_no_files_size_zero(d);
}

/// Law: classification is idempotent. It is a pure function of the snapshot,
/// so any two classifications of an unchanged directory agree.
pub proof fn lemma_classify_idempotent(d: DirTree, first: Option<DirTree>, second: Option<DirTree>)
    requires
        first == classify_spec(d),
        second == classify_spec(d),
    ensures
        first == second,
{
}

/// A file with the given name lies among `af` iff it lies among `bf`, when
/// the two sequences hold the same files in some order.
proof fn lemma_file_named_exchange(af: Seq<FileEntry>, bf: Seq<FileEntry>, name: Seq<char>)
    requires
        af.to_multiset() == bf.to_multiset(),
        exists|i: int| 0 <= i < af.len() && af[i].name@ == name,
    ensures
        exists|i: int| 0 <= i < bf.len() && bf[i].name@ == name,
{
    broadcast use vstd::seq_lib::group_to_multiset_ensures;

    let i = choose|i: int| 0 <= i < af.len() && af[i].name@ == name;
    let e = af[i];
    assert(af.contains(e));
    assert(af.to_multiset().count(e) > 0);
    assert(bf.to_multiset().count(e) > 0);
    assert(bf.contains(e));
    let j = choose|j: int| 0 <= j < bf.len() && bf[j] == e;
    assert(bf[j].name@ == name);
}

/// In a well-formed snapshot, looking a subdirectory up by name does not
/// depend on the order the subdirectories are listed in.
proof fn lemma_subdir_named_exchange(a: DirTree, b: DirTree, name: Seq<char>)
    requires
        a.wf(),
        a.subdirs@.to_multiset() == b.subdirs@.to_multiset(),
    ensures
        has_subdir_named(a, name) <==> has_subdir_named(b, name),
        has_subdir_named(a, name) ==> subdir_named(b, name) == subdir_named(a, name),
{
    broadcast use vstd::seq_lib::group_to_multiset_ensures;

    if has_subdir_named(a, name) {
        let i = choose|i: int| 0 <= i < a.subdirs@.len() && a.subdirs@[i].name@ == name;
        let e = a.subdirs@[i];
        assert(a.subdirs@.contains(e));
        assert(a.subdirs@.to_multiset().count(e) > 0);
        assert(b.subdirs@.to_multiset().count(e) > 0);
        assert(b.subdirs@.contains(e));
        let j = choose|j: int| 0 <= j < b.subdirs@.len() && b.subdirs@[j] == e;
        assert(b.subdirs@[j].name@ == name);
        assert(has_subdir_named(b, name));
        // The subdirectory `b` resolves `name` to also lies in `a`, where the
        // name is unique; so the two lookups agree.
        let eb = subdir_named(b, name);
        assert(eb.name@ == name && b.subdirs@.contains(eb));
        assert(b.subdirs@.to_multiset().count(eb) > 0);
        assert(a.subdirs@.to_multiset().count(eb) > 0);
        assert(a.subdirs@.contains(eb));
        let k = choose|k: int| 0 <= k < a.subdirs@.len() && a.subdirs@[k] == eb;
        lemma_subdir_named_is(a, name, k);
    }
    if has_subdir_named(b, name) {
        let i = choose|i: int| 0 <= i < b.subdirs@.len() && b.subdirs@[i].name@ == name;
        let e = b.subdirs@[i];
        assert(b.subdirs@.contains(e));
        assert(b.subdirs@.to_multiset().count(e) > 0);
        assert(a.subdirs@.to_multiset().count(e) > 0);
        assert(a.subdirs@.contains(e));
        let j = choose|j: int| 0 <= j < a.subdirs@.len() && a.subdirs@[j] == e;
        assert(a.subdirs@[j].name@ == name);
        assert(has_subdir_named(a, name));
    }
}

/// Law: classification is order-independent. It agrees on two snapshots of
/// the same directory that list the files and the subdirectories in different
/// orders.
pub proof fn lemma_classify_order_independent(a: DirTree, b: DirTree)
    requires
        a.wf(),
        a.readable == b.readable,
        a.files@.to_multiset() == b.files@.to_multiset(),
        a.subdirs@.to_multiset() == b.subdirs@.to_multiset(),
    ensures
        classify_spec(a) == classify_spec(b),
{
    if has_file_named(a, cargo_marker()) {
        lemma_file_named_exchange(a.files@, b.files@, cargo_marker());
    }
    if has_file_named(b, cargo_marker()) {
        lemma_file_named_exchange(b.files@, a.files@, cargo_marker());
    }
    assert(is_rust_root(a) == is_rust_root(b));
    lemma_subdir_named_exchange(a, b, target_dir_name());
    lemma_subdir_named_exchange(a, b, settings_dir_name());
    lemma_subdir_named_exchange(a, b, library_dir_name());
    assert(is_unity_root(a) == is_unity_root(b));
}

/// Whether a file with the view of `name` lies directly inside `files`.
fn find_file_named(files: &Vec<FileEntry>, name: &String) -> (r: bool)
    ensures
        r == exists|i: int| 0 <= i < files@.len() && files@[i].name@ == name@,
{
    let mut i: usize = 0;
    while i < files.len()
        invariant
            0 <= i <= files@.len(),
            forall|k: int| #![trigger files@[k]] 0 <= k < i ==> files@[k].name@ != name@,
        decreases files@.len() - i,
    {
        if files[i].name == *name {
            assert(files@[i as int].name@ == name@);
            return true;
        }
        i = i + 1;
    }
    false
}

/// The index of the first subdirectory of `subdirs` named `name`, if any.
fn find_subdir_named(subdirs: &Vec<DirTree>, name: &String) -> (r: Option<usize>)
    ensures
        match r {
            Some(i) => i < subdirs@.len() && subdirs@[i as int].name@ == name@,
            None => !exists|k: int| 0 <= k < subdirs@.len() && subdirs@[k].name@ == name@,
        },
{
    let mut i: usize = 0;
    while i < subdirs.len()
        invariant
            0 <= i <= subdirs@.len(),
            forall|k: int| #![trigger subdirs@[k]] 0 <= k < i ==> subdirs@[k].name@ != name@,
        decreases subdirs@.len() - i,
    {
        if subdirs[i].name == *name {
            return Some(i);
        }
        i = i + 1;
    }
    None
}

/// Classification of the snapshot directory `d`: the build-output
/// subdirectory of the first matching project type, or nothing.
pub fn classify(d: &DirTree) -> (r: Option<&DirTree>)
    requires
        d.wf(),
    ensures
        match r {
            Some(b) => classify_spec(*d) == Some(*b) && b.wf(),
            None => classify_spec(*d) is None,
        },
{
    if !d.readable {
        return None;
    }
    let cargo = String::from_str("Cargo.toml");
    if find_file_named(&d.files, &cargo) {
        assert(is_rust_root(*d));
        let target = String::from_str("target");
        match find_subdir_named(&d.subdirs, &target) {
            Some(i) => {
                proof {
                    lemma_subdir_named_is(*d, target_dir_name(), i as int);
                    lemma_wf_subdir(*d, i as int);
                }
                Some(&d.subdirs[i])
            },
            None => {
                assert(!has_subdir_named(*d, target_dir_name()));
                None
            },
        }
    } else {
        assert(!is_rust_root(*d));
        let settings = String::from_str("ProjectSettings");
        match find_subdir_named(&d.subdirs, &settings) {
            Some(si) => {
                proof {
                    lemma_subdir_named_is(*d, settings_dir_name(), si as int);
                }
                let asset = String::from_str("ProjectSettings.asset");
                if find_file_named(&d.subdirs[si].files, &asset) {
                    assert(is_unity_root(*d));
                    let library = String::from_str("Library");
                    match find_subdir_named(&d.subdirs, &library) {
                        Some(li) => {
                            proof {
                                lemma_subdir_named_is(*d, library_dir_name(), li as int);
                                lemma_wf_subdir(*d, li as int);
                            }
                            Some(&d.subdirs[li])
                        },
                        None => {
                            assert(!has_subdir_named(*d, library_dir_name()));
                            None
                        },
                    }
                } else {
                    assert(!is_unity_root(*d));
                    None
                }
            },
            None => {
                assert(!has_subdir_named(*d, settings_dir_name()));
                assert(!is_unity_root(*d));
                None
            },
        }
    }
}

impl BuiltProject {
    /// Measure the build-output directory `dir`: its path, its aggregate size
    /// in whole megabytes, and its most recent direct-child modification
    /// timestamp.
    pub fn new(dir: &DirTree) -> (r: BuiltProject)
        requires
            dir.wf(),
        ensures
            r == record_for(*dir),
    {
        let size_bytes = measured_size(dir);
        BuiltProject {
            path: dir.path.clone(),
            size: size_bytes / BYTES_PER_MB,
            last_modified: measured_last_modified(dir),
        }
    }

    /// Classify the snapshot directory `d` and, on a match, measure its
    /// build-output subdirectory. No match — an unreadable directory, an
    /// unrecognized directory, or a recognized project root without its
    /// build-output subdirectory — yields nothing.
    pub fn check_at_path(d: &DirTree) -> (r: Option<BuiltProject>)
        requires
            d.wf(),
        ensures
            match classify_spec(*d) {
                Some(b) => r == Some(record_for(b)),
                None => r is None,
            },
    {
        match classify(d) {
            Some(build_dir) => Some(BuiltProject::new(build_dir)),
            None => None,
        }
    }
}

} // verus!
