//! Point-in-time model of a directory subtree, as observed by a scan.
//!
//! A `DirTree` is a snapshot: each node records the directory's path, its
//! entry name, its own modification timestamp, whether it could be read, the
//! regular files directly inside it, and its subdirectories. Timestamps are
//! seconds since an arbitrary epoch; sizes are bytes. An unreadable directory
//! is recorded with `readable == false` and empty contents.
use vstd::prelude::*;

verus! {

/// Bytes in one megabyte (the unit sizes are reported in).
pub const BYTES_PER_MB: u64 = 1048576;

/// A regular file directly inside a directory: its entry name, its size in
/// bytes, and its modification timestamp.
pub struct FileEntry {
    pub name: String,
    pub size: u64,
    pub modified: u64,
}

/// A directory node of the snapshot. `path` is the full filesystem path of
/// the directory; `name` is its final path segment.
pub struct DirTree {
    pub path: String,
    pub name: String,
    pub modified: u64,
    pub readable: bool,
    pub files: Vec<FileEntry>,
    pub subdirs: Vec<DirTree>,
}

impl DirTree {
    /// Sum of the sizes of all files transitively under this directory.
    /// Directories contribute no size of their own.
    pub open spec fn total_size(self) -> int
        decreases self,
    {
        files_size(self.files@) + dirs_size(self.subdirs@)
    }

    /// Validity of a snapshot node: entry names directly inside a directory
    /// are distinct (as on a real filesystem), the aggregate size fits the
    /// machine word it was read as, and the same holds of every subdirectory.
    pub open spec fn wf(self) -> bool
        decreases self,
    {
        &&& self.total_size() <= u64::MAX
        &&& (forall|i: int, j: int|
            0 <= i < j < self.files@.len() ==> self.files@[i].name@ != self.files@[j].name@)
        &&& (forall|i: int, j: int|
            0 <= i < j < self.subdirs@.len() ==> self.subdirs@[i].name@ != self.subdirs@[j].name@)
        &&& (forall|i: int|
            #![trigger self.subdirs@[i]]
            0 <= i < self.subdirs@.len() ==> self.subdirs@[i].wf())
    }

    /// Modification timestamps of the direct children (files, then
    /// subdirectories) of this directory.
    pub open spec fn child_stamps(self) -> Seq<u64> {
        self.files@.map_values(|f: FileEntry| f.modified)
            + self.subdirs@.map_values(|c: DirTree| c.modified)
    }

    /// The most recent modification timestamp among the direct children, or
    /// the directory's own timestamp if it has no children.
    pub open spec fn last_modified_of(self) -> u64 {
        if self.child_stamps().len() == 0 {
            self.modified
        } else {
            seq_max_u64(self.child_stamps())
        }
    }

    /// No file exists anywhere under this directory.
    pub open spec fn has_no_files(self) -> bool
        decreases self,
    {
        self.files@.len() == 0 && (forall|i: int|
            #![trigger self.subdirs@[i]]
            0 <= i < self.subdirs@.len() ==> self.subdirs@[i].has_no_files())
    }
}

/// Sum of the sizes of the files in `files`.
pub open spec fn files_size(files: Seq<FileEntry>) -> int
    decreases files.len(),
{
    if files.len() == 0 {
        0
    } else {
        files_size(files.drop_last()) + files.last().size
    }
}

/// Sum of `total_size` over the directories in `dirs`.
pub open spec fn dirs_size(dirs: Seq<DirTree>) -> int
    decreases dirs,
{
    if dirs.len() == 0 {
        0
    } else {
        dirs_size(dirs.drop_last()) + dirs.last().total_size()
    }
}

/// The largest element of a non-empty sequence of timestamps.
pub open spec fn seq_max_u64(s: Seq<u64>) -> u64
    recommends
        s.len() > 0,
    decreases s.len(),
{
    if s.len() == 0 {
        0
    } else if s.len() == 1 {
        s[0]
    } else if s.last() > seq_max_u64(s.drop_last()) {
        s.last()
    } else {
        seq_max_u64(s.drop_last())
    }
}

/// A subdirectory of a well-formed snapshot node is well-formed.
pub proof fn lemma_wf_subdir(d: DirTree, i: int)
    requires
        d.wf(),
        0 <= i < d.subdirs@.len(),
    ensures
        d.subdirs@[i].wf(),
{
}

pub proof fn lemma_files_size_nonneg(files: Seq<FileEntry>)
    ensures
        files_size(files) >= 0,
    decreases files.len(),
{
    if files.len() > 0 {
        lemma_files_size_nonneg(files.drop_last());
    }
}

pub proof fn lemma_dirs_size_nonneg(dirs: Seq<DirTree>)
    ensures
        dirs_size(dirs) >= 0,
    decreases dirs,
{
    if dirs.len() > 0 {
        lemma_dirs_size_nonneg(dirs.drop_last());
        lemma_files_size_nonneg(dirs.last().files@);
        lemma_dirs_size_nonneg(dirs.last().subdirs@);
        assert(dirs.last().total_size() == files_size(dirs.last().files@) + dirs_size(
            dirs.last().subdirs@,
        ));
    }
}

pub proof fn lemma_total_size_nonneg(d: DirTree)
    ensures
        d.total_size() >= 0,
{
    lemma_files_size_nonneg(d.files@);
    lemma_dirs_size_nonneg(d.subdirs@);
}

/// Appending one file adds its size to the sum.
pub proof fn lemma_files_size_take_succ(files: Seq<FileEntry>, i: int)
    requires
        0 <= i < files.len(),
    ensures
        files_size(files.take(i + 1)) == files_size(files.take(i)) + files[i].size,
{
    assert(files.take(i + 1).drop_last() =~= files.take(i));
    assert(files.take(i + 1).last() == files[i]);
}

/// A prefix of the files sums to no more than the whole.
pub proof fn lemma_files_size_take_le(files: Seq<FileEntry>, i: int)
    requires
        0 <= i <= files.len(),
    ensures
        files_size(files.take(i)) <= files_size(files),
    decreases files.len() - i,
{
    if i == files.len() {
        assert(files.take(i) =~= files);
    } else {
        lemma_files_size_take_succ(files, i);
        lemma_files_size_take_le(files, i + 1);
    }
}

/// Appending one directory adds its total size to the sum.
pub proof fn lemma_dirs_size_take_succ(dirs: Seq<DirTree>, i: int)
    requires
        0 <= i < dirs.len(),
    ensures
        dirs_size(dirs.take(i + 1)) == dirs_size(dirs.take(i)) + dirs[i].total_size(),
{
    assert(dirs.take(i + 1).drop_last() =~= dirs.take(i));
    assert(dirs.take(i + 1).last() == dirs[i]);
}

/// A prefix of the directories sums to no more than the whole.
pub proof fn lemma_dirs_size_take_le(dirs: Seq<DirTree>, i: int)
    requires
        0 <= i <= dirs.len(),
    ensures
        dirs_size(dirs.take(i)) <= dirs_size(dirs),
    decreases dirs.len() - i,
{
    if i == dirs.len() {
        assert(dirs.take(i) =~= dirs);
    } else {
        lemma_dirs_size_take_succ(dirs, i);
        lemma_total_size_nonneg(dirs[i]);
        lemma_dirs_size_take_le(dirs, i + 1);
    }
}

/// A directory with no files anywhere under it has aggregate size zero.
pub proof fn lemma_no_files_size_zero(d: DirTree)
    requires
        d.has_no_files(),
    ensures
        d.total_size() == 0,
    decreases d,
{
    lemma_no_files_dirs_size_zero(d.subdirs@);
}

proof fn lemma_no_files_dirs_size_zero(dirs: Seq<DirTree>)
    requires
        forall|i: int| 0 <= i < dirs.len() ==> (#[trigger] dirs[i]).has_no_files(),
    ensures
        dirs_size(dirs) == 0,
    decreases dirs,
{
    if dirs.len() > 0 {
        assert(forall|i: int|
            0 <= i < dirs.drop_last().len() ==> (#[trigger] dirs.drop_last()[i]).has_no_files());
        lemma_no_files_dirs_size_zero(dirs.drop_last());
        assert(dirs.last().has_no_files());
        lemma_no_files_size_zero(dirs.last());
    }
}

/// Extending a sequence of timestamps by one element updates its maximum in
/// the obvious way.
pub proof fn lemma_seq_max_push(s: Seq<u64>, x: u64)
    ensures
        s.len() == 0 ==> seq_max_u64(s.push(x)) == x,
        s.len() > 0 && x > seq_max_u64(s) ==> seq_max_u64(s.push(x)) == x,
        s.len() > 0 && x <= seq_max_u64(s) ==> seq_max_u64(s.push(x)) == seq_max_u64(s),
{
    assert(s.push(x).drop_last() =~= s);
    assert(s.push(x).last() == x);
}

/// The maximum of a non-empty sequence is one of its elements and bounds all
/// of them.
pub proof fn lemma_seq_max_properties(s: Seq<u64>)
    requires
        s.len() > 0,
    ensures
        s.contains(seq_max_u64(s)),
        forall|i: int| 0 <= i < s.len() ==> s[i] <= seq_max_u64(s),
    decreases s.len(),
{
    if s.len() == 1 {
        assert(s[0] == seq_max_u64(s));
    } else {
        lemma_seq_max_properties(s.drop_last());
        let m = seq_max_u64(s);
        if s.last() > seq_max_u64(s.drop_last()) {
            assert(s[s.len() - 1] == m);
        } else {
            let j = choose|j: int|
                0 <= j < s.drop_last().len() && s.drop_last()[j] == seq_max_u64(s.drop_last());
            assert(s[j] == m);
        }
        assert(forall|i: int| 0 <= i < s.len() - 1 ==> s[i] == s.drop_last()[i]);
    }
}

/// Law: the measured timestamp of a directory is the maximum modification
/// timestamp among its direct children, and the directory's own timestamp
/// when it has none.
pub proof fn lemma_last_modified_is_max(d: DirTree)
    ensures
        d.child_stamps().len() == 0 ==> d.last_modified_of() == d.modified,
        d.child_stamps().len() > 0 ==> d.child_stamps().contains(d.last_modified_of()),
        forall|i: int|
            0 <= i < d.child_stamps().len() ==> d.child_stamps()[i] <= d.last_modified_of(),
{
    if d.child_stamps().len() > 0 {
        lemma_seq_max_properties(d.child_stamps());
    }
}

/// Aggregate size in bytes of the snapshot `d`: the sum of the sizes of all
/// files transitively under it.
pub fn measured_size(d: &DirTree) -> (r: u64)
    requires
        d.wf(),
    ensures
        r as int == d.total_size(),
    decreases *d,
{
    proof {
        lemma_files_size_nonneg(d.files@);
        lemma_dirs_size_nonneg(d.subdirs@);
    }
    let mut sum: u64 = 0;
    let mut i: usize = 0;
    while i < d.files.len()
        invariant
            d.wf(),
            0 <= i <= d.files@.len(),
            sum as int == files_size(d.files@.take(i as int)),
        decreases d.files@.len() - i,
    {
        proof {
            lemma_files_size_take_succ(d.files@, i as int);
            lemma_files_size_take_le(d.files@, i + 1);
            lemma_dirs_size_nonneg(d.subdirs@);
        }
        sum = sum + d.files[i].size;
        i = i + 1;
    }
    proof {
        assert(d.files@.take(d.files@.len() as int) =~= d.files@);
    }
    let mut j: usize = 0;
    while j < d.subdirs.len()
        invariant
            d.wf(),
            0 <= j <= d.subdirs@.len(),
            sum as int == files_size(d.files@) + dirs_size(d.subdirs@.take(j as int)),
        decreases d.subdirs@.len() - j,
    {
        proof {
            lemma_dirs_size_take_succ(d.subdirs@, j as int);
            lemma_dirs_size_take_le(d.subdirs@, j + 1);
            lemma_wf_subdir(*d, j as int);
        }
        let sub = measured_size(&d.subdirs[j]);
        sum = sum + sub;
        j = j + 1;
    }
    proof {
        assert(d.subdirs@.take(d.subdirs@.len() as int) =~= d.subdirs@);
    }
    sum
}

/// The most recent modification timestamp among the direct children of `d`,
/// or `d`'s own timestamp if it has none.
pub fn measured_last_modified(d: &DirTree) -> (r: u64)
    ensures
        r == d.last_modified_of(),
{
    let ghost stamps = d.child_stamps();
    let flen = d.files.len();
    let mut best: u64 = d.modified;
    let mut i: usize = 0;
    while i < d.files.len()
        invariant
            flen == d.files@.len(),
            stamps == d.child_stamps(),
            0 <= i <= d.files@.len(),
            i > 0 ==> best == seq_max_u64(stamps.take(i as int)),
            i == 0 ==> best == d.modified,
        decreases d.files@.len() - i,
    {
        proof {
            assert(stamps.take(i as int).push(d.files@[i as int].modified) =~= stamps.take(
                i as int + 1,
            ));
            lemma_seq_max_push(stamps.take(i as int), d.files@[i as int].modified);
        }
        let stamp = d.files[i].modified;
        if i == 0 || stamp > best {
            best = stamp;
        }
        i = i + 1;
    }
    let mut j: usize = 0;
    while j < d.subdirs.len()
        invariant
            flen == d.files@.len(),
            stamps == d.child_stamps(),
            0 <= j <= d.subdirs@.len(),
            flen + j > 0 ==> best == seq_max_u64(stamps.take(flen + j as int)),
            flen + j == 0 ==> best == d.modified,
        decreases d.subdirs@.len() - j,
    {
        proof {
            assert(stamps.take(flen + j as int).push(d.subdirs@[j as int].modified) =~= stamps.take(
                flen + j as int + 1,
            ));
            lemma_seq_max_push(stamps.take(flen + j as int), d.subdirs@[j as int].modified);
        }
        let stamp = d.subdirs[j].modified;
        if (flen == 0 && j == 0) || stamp > best {
            best = stamp;
        }
        j = j + 1;
    }
    proof {
        assert(stamps.take(stamps.len() as int) =~= stamps);
    }
    best
}

} // verus!
