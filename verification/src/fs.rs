//! An explicit model of the slice of the filesystem that the engine
//! owns: files with contents and a write stamp, and directories.
//!
//! The deployment transaction, its backup and rollback, and the tests
//! all work against this model; the thin outer binary replays the same
//! steps against the real disk. The write stamp comes from a logical
//! clock and stands in for the modification time.

use vstd::prelude::*;
use vstd::string::*;
use vstd::pervasive::VecAdditionalExecFns;
use crate::strutil::{starts_with, str_eq, suffix_from, concat2};
use crate::errors::LibError;

verus! {

/// One file of the model: its full path, contents and write stamp.
pub struct FsFile {
    pub path: String,
    pub data: Vec<u8>,
    pub stamp: u64,
}

pub open spec fn distinct_paths(fs: Seq<FsFile>) -> bool {
    forall|i: int, j: int| 0 <= i < j < fs.len() ==> fs[i].path@ != fs[j].path@
}

pub open spec fn distinct_names(ds: Seq<String>) -> bool {
    forall|i: int, j: int| 0 <= i < j < ds.len() ==> ds[i]@ != ds[j]@
}

pub open spec fn seq_has_file(fs: Seq<FsFile>, p: Seq<char>) -> bool {
    exists|i: int| 0 <= i < fs.len() && fs[i].path@ == p
}

pub open spec fn seq_file_idx(fs: Seq<FsFile>, p: Seq<char>) -> int {
    choose|i: int| 0 <= i < fs.len() && fs[i].path@ == p
}

pub open spec fn seq_file_data(fs: Seq<FsFile>, p: Seq<char>) -> Seq<u8> {
    fs[seq_file_idx(fs, p)].data@
}

pub open spec fn seq_file_stamp(fs: Seq<FsFile>, p: Seq<char>) -> u64 {
    fs[seq_file_idx(fs, p)].stamp
}

pub open spec fn seq_has_name(ds: Seq<String>, p: Seq<char>) -> bool {
    exists|i: int| 0 <= i < ds.len() && ds[i]@ == p
}

/// `p` is `root` itself or lies underneath it.
pub open spec fn in_tree(root: Seq<char>, p: Seq<char>) -> bool {
    p == root || (p.len() > root.len() && p.subrange(0, root.len() as int) == root && p[root.len() as int]
        == '\\')
}

/// The path `p`, moved from the tree at `src` to the tree at `dst`.
pub open spec fn rebase(src: Seq<char>, dst: Seq<char>, p: Seq<char>) -> Seq<char> {
    dst + p.skip(src.len() as int)
}

proof fn lemma_lookup(fs: Seq<FsFile>, i: int, p: Seq<char>)
    requires
        distinct_paths(fs),
        0 <= i < fs.len(),
        fs[i].path@ == p,
    ensures
        seq_has_file(fs, p),
        seq_file_idx(fs, p) == i,
        seq_file_data(fs, p) == fs[i].data@,
        seq_file_stamp(fs, p) == fs[i].stamp,
{
    assert(seq_has_file(fs, p));
    let j = seq_file_idx(fs, p);
    if j != i {
        if j < i {
            assert(fs[j].path@ != fs[i].path@);
        } else {
            assert(fs[i].path@ != fs[j].path@);
        }
    }
}

/// Two trees, neither of whose roots lies in the other, share no path.
pub proof fn lemma_trees_disjoint(a: Seq<char>, b: Seq<char>, q: Seq<char>)
    requires
        !in_tree(a, b),
        !in_tree(b, a),
    ensures
        !(in_tree(a, q) && in_tree(b, q)),
{
    if in_tree(a, q) && in_tree(b, q) {
        if a.len() == b.len() {
            if q == a {
                assert(in_tree(b, a));
            } else if q == b {
                assert(in_tree(a, b));
            } else {
                assert(q.subrange(0, a.len() as int) == a);
                assert(q.subrange(0, b.len() as int) == b);
                assert(a == b);
                assert(in_tree(a, b));
            }
        } else if a.len() < b.len() {
            // `a` is a proper prefix of `b` with a separator after it
            assert(q != a);
            assert(q.subrange(0, a.len() as int) == a);
            if q == b {
                assert(in_tree(a, b));
            } else {
                assert(q.subrange(0, b.len() as int) == b);
                assert(b.subrange(0, a.len() as int) =~= q.subrange(0, a.len() as int));
                assert(b[a.len() as int] == q[a.len() as int]);
                assert(in_tree(a, b));
            }
        } else {
            assert(q != b);
            assert(q.subrange(0, b.len() as int) == b);
            if q == a {
                assert(in_tree(b, a));
            } else {
                assert(q.subrange(0, a.len() as int) == a);
                assert(a.subrange(0, b.len() as int) =~= q.subrange(0, b.len() as int));
                assert(a[b.len() as int] == q[b.len() as int]);
                assert(in_tree(b, a));
            }
        }
    }
}

/// Rebasing is inverted by rebasing back.
pub proof fn lemma_rebase_roundtrip(src: Seq<char>, dst: Seq<char>, p: Seq<char>)
    requires
        in_tree(src, p),
    ensures
        in_tree(dst, rebase(src, dst, p)),
        rebase(dst, src, rebase(src, dst, p)) == p,
{
    let q = rebase(src, dst, p);
    if p == src {
        assert(p.skip(src.len() as int) =~= Seq::<char>::empty());
        assert(q =~= dst);
    } else {
        assert(q.len() > dst.len());
        assert(q.subrange(0, dst.len() as int) =~= dst);
        assert(q[dst.len() as int] == p[src.len() as int]);
    }
    assert(q.skip(dst.len() as int) =~= p.skip(src.len() as int));
    assert(rebase(dst, src, q) =~= p);
}

/// The model filesystem: files, directories, and a logical clock.
pub struct Fs {
    files: Vec<FsFile>,
    dirs: Vec<String>,
    clock: u64,
}

impl Fs {
    /// The model's internal invariant: paths and directory names are
    /// stored once each.
    pub closed spec fn inv(self) -> bool {
        distinct_paths(self.files@) && distinct_names(self.dirs@)
    }

    pub closed spec fn has_file(self, p: Seq<char>) -> bool {
        seq_has_file(self.files@, p)
    }

    pub closed spec fn file_data(self, p: Seq<char>) -> Seq<u8> {
        seq_file_data(self.files@, p)
    }

    pub closed spec fn file_stamp(self, p: Seq<char>) -> u64 {
        seq_file_stamp(self.files@, p)
    }

    pub closed spec fn has_dir(self, p: Seq<char>) -> bool {
        seq_has_name(self.dirs@, p)
    }

    pub open spec fn node_exists(self, p: Seq<char>) -> bool {
        self.has_file(p) || self.has_dir(p)
    }

    /// Some file or directory lies at or under `root`.
    pub open spec fn tree_used(self, root: Seq<char>) -> bool {
        exists|p: Seq<char>| #[trigger] in_tree(root, p) && self.node_exists(p)
    }

    pub closed spec fn now(self) -> u64 {
        self.clock
    }

    /// The file and directory state at path `p` agrees with `other`'s.
    #[verifier::inline]
    pub open spec fn same_at(self, other: Fs, p: Seq<char>) -> bool {
        &&& self.has_file(p) == other.has_file(p)
        &&& (self.has_file(p) ==> self.file_data(p) == other.file_data(p) && self.file_stamp(p)
            == other.file_stamp(p))
        &&& self.has_dir(p) == other.has_dir(p)
    }

    /// An empty filesystem.
    pub fn new() -> (r: Fs)
        ensures
            r.inv(),
            forall|p: Seq<char>| !r.has_file(p) && !r.has_dir(p),
            r.now() == 0,
    {
        Fs { files: Vec::new(), dirs: Vec::new(), clock: 0 }
    }

    fn find_file(&self, path: &str) -> (r: Option<usize>)
        ensures
            match r {
                Some(i) => i < self.files@.len() && self.files@[i as int].path@ == path@,
                None => !self.has_file(path@),
            },
    {
        let mut i: usize = 0;
        let n = self.files.len();
        while i < n
            invariant
                i <= n,
                n == self.files@.len(),
                forall|j: int| 0 <= j < i ==> self.files@[j].path@ != path@,
            decreases n - i,
        {
            if str_eq(self.files[i].path.as_str(), path) {
                return Some(i);
            }
            i += 1;
        }
        None
    }

    fn find_dir(&self, path: &str) -> (r: Option<usize>)
        ensures
            match r {
                Some(i) => i < self.dirs@.len() && self.dirs@[i as int]@ == path@,
                None => !self.has_dir(path@),
            },
    {
        let mut i: usize = 0;
        let n = self.dirs.len();
        while i < n
            invariant
                i <= n,
                n == self.dirs@.len(),
                forall|j: int| 0 <= j < i ==> self.dirs@[j]@ != path@,
            decreases n - i,
        {
            if str_eq(self.dirs[i].as_str(), path) {
                return Some(i);
            }
            i += 1;
        }
        None
    }

    /// Whether a file lies at `path`.
    pub fn file_exists(&self, path: &str) -> (r: bool)
        requires
            self.inv(),
        ensures
            r == self.has_file(path@),
    {
        match self.find_file(path) {
            Some(i) => {
                proof {
                    lemma_lookup(self.files@, i as int, path@);
                }
                true
            },
            None => false,
        }
    }

    /// Whether a directory lies at `path`.
    pub fn dir_exists(&self, path: &str) -> (r: bool)
        ensures
            r == self.has_dir(path@),
    {
        match self.find_dir(path) {
            Some(_) => true,
            None => false,
        }
    }

    /// The contents of the file at `path`, when one lies there.
    pub fn read_file(&self, path: &str) -> (r: Option<Vec<u8>>)
        requires
            self.inv(),
        ensures
            r is Some <==> self.has_file(path@),
            r matches Some(d) ==> d@ == self.file_data(path@),
    {
        match self.find_file(path) {
            Some(i) => {
                proof {
                    lemma_lookup(self.files@, i as int, path@);
                }
                Some(copy_bytes(&self.files[i].data))
            },
            None => None,
        }
    }

    /// The write stamp of the file at `path`.
    pub fn file_mtime(&self, path: &str) -> (r: Option<u64>)
        requires
            self.inv(),
        ensures
            r is Some <==> self.has_file(path@),
            r matches Some(t) ==> t == self.file_stamp(path@),
    {
        match self.find_file(path) {
            Some(i) => {
                proof {
                    lemma_lookup(self.files@, i as int, path@);
                }
                Some(self.files[i].stamp)
            },
            None => None,
        }
    }

    /// Writes `data` to `path`, replacing any previous file there. The
    /// new file carries the current clock as its stamp.
    pub fn write_file(&mut self, path: &str, data: Vec<u8>)
        requires
            old(self).inv(),
        ensures
            final(self).inv(),
            final(self).has_file(path@),
            final(self).file_data(path@) == data@,
            final(self).file_stamp(path@) == old(self).now(),
            final(self).now() >= old(self).now(),
            forall|q: Seq<char>|
                q != path@ ==> final(self).has_file(q) == old(self).has_file(q),
            forall|q: Seq<char>|
                q != path@ && old(self).has_file(q) ==> final(self).file_data(q) == old(self).file_data(q) && final(self).file_stamp(q) == old(self).file_stamp(q),
            forall|q: Seq<char>| final(self).has_dir(q) == old(self).has_dir(q),
    {
        let stamp = self.clock;
        if self.clock < u64::MAX {
            self.clock = self.clock + 1;
        }
        let f = FsFile { path: path.to_owned(), data, stamp };
        let found = self.find_file(path);
        let ghost oldfiles = self.files@;
        match found {
            Some(i) => {
                self.files.set(i, f);
                proof {
                    assert(distinct_paths(self.files@)) by {
                        assert forall|a: int, b: int|
                            0 <= a < b < self.files@.len() implies self.files@[a].path@
                            != self.files@[b].path@ by {
                            assert(oldfiles[a].path@ != oldfiles[b].path@);
                        }
                    }
                    lemma_lookup(self.files@, i as int, path@);
                    assert forall|q: Seq<char>|
                        q != path@ implies self.has_file(q) == old(self).has_file(q) && (old(self).has_file(q) ==> self.file_data(q) == old(self).file_data(q)
                        && self.file_stamp(q) == old(self).file_stamp(q)) by {
                        if seq_has_file(oldfiles, q) {
                            let j = seq_file_idx(oldfiles, q);
                            lemma_lookup(oldfiles, j, q);
                            assert(j != i);
                            assert(self.files@[j].path@ == q);
                            lemma_lookup(self.files@, j, q);
                        }
                        if seq_has_file(self.files@, q) {
                            let j = seq_file_idx(self.files@, q);
                            assert(self.files@[j].path@ == q);
                            assert(j != i);
                            lemma_lookup(oldfiles, j, q);
                        }
                    }
                }
            },
            None => {
                self.files.push(f);
                proof {
                    assert(distinct_paths(self.files@)) by {
                        assert forall|a: int, b: int|
                            0 <= a < b < self.files@.len() implies self.files@[a].path@
                            != self.files@[b].path@ by {
                            if b < oldfiles.len() {
                                assert(oldfiles[a].path@ != oldfiles[b].path@);
                            } else {
                                assert(self.files@[b].path@ == path@);
                                assert(seq_has_file(oldfiles, oldfiles[a].path@));
                            }
                        }
                    }
                    lemma_lookup(self.files@, oldfiles.len() as int, path@);
                    assert forall|q: Seq<char>|
                        q != path@ implies self.has_file(q) == old(self).has_file(q) && (old(self).has_file(q) ==> self.file_data(q) == old(self).file_data(q)
                        && self.file_stamp(q) == old(self).file_stamp(q)) by {
                        if seq_has_file(oldfiles, q) {
                            let j = seq_file_idx(oldfiles, q);
                            lemma_lookup(oldfiles, j, q);
                            assert(self.files@[j].path@ == q);
                            lemma_lookup(self.files@, j, q);
                        }
                        if seq_has_file(self.files@, q) {
                            let j = seq_file_idx(self.files@, q);
                            assert(self.files@[j].path@ == q);
                            assert(j < oldfiles.len());
                            lemma_lookup(oldfiles, j, q);
                        }
                    }
                }
            },
        }
    }

    /// Removes the file at `path`, if any; says whether one was there.
    pub fn remove_file(&mut self, path: &str) -> (r: bool)
        requires
            old(self).inv(),
        ensures
            final(self).inv(),
            r == old(self).has_file(path@),
            !final(self).has_file(path@),
            final(self).now() == old(self).now(),
            forall|q: Seq<char>|
                q != path@ ==> final(self).has_file(q) == old(self).has_file(q),
            forall|q: Seq<char>|
                q != path@ && old(self).has_file(q) ==> final(self).file_data(q) == old(self).file_data(q) && final(self).file_stamp(q) == old(self).file_stamp(q),
            forall|q: Seq<char>| final(self).has_dir(q) == old(self).has_dir(q),
    {
        let found = self.find_file(path);
        let ghost oldfiles = self.files@;
        match found {
            Some(i) => {
                self.files.remove(i);
                proof {
                    oldfiles.remove_ensures(i as int);
                    lemma_lookup(oldfiles, i as int, path@);
                    assert(distinct_paths(self.files@)) by {
                        assert forall|a: int, b: int|
                            0 <= a < b < self.files@.len() implies self.files@[a].path@
                            != self.files@[b].path@ by {
                            let a0 = if a < i { a } else { a + 1 };
                            let b0 = if b < i { b } else { b + 1 };
                            assert(self.files@[a] == oldfiles[a0]);
                            assert(self.files@[b] == oldfiles[b0]);
                            assert(oldfiles[a0].path@ != oldfiles[b0].path@);
                        }
                    }
                    assert(!self.has_file(path@)) by {
                        if seq_has_file(self.files@, path@) {
                            let j = seq_file_idx(self.files@, path@);
                            let j0 = if j < i { j } else { j + 1 };
                            assert(self.files@[j] == oldfiles[j0]);
                            assert(j0 != i);
                            assert(oldfiles[j0].path@ != oldfiles[i as int].path@);
                        }
                    }
                    assert forall|q: Seq<char>|
                        q != path@ implies self.has_file(q) == old(self).has_file(q) && (old(self).has_file(q) ==> self.file_data(q) == old(self).file_data(q)
                        && self.file_stamp(q) == old(self).file_stamp(q)) by {
                        if seq_has_file(oldfiles, q) {
                            let j = seq_file_idx(oldfiles, q);
                            lemma_lookup(oldfiles, j, q);
                            assert(j != i);
                            let j1 = if j < i { j } else { j - 1 };
                            assert(self.files@[j1] == oldfiles[j]);
                            lemma_lookup(self.files@, j1, q);
                        }
                        if seq_has_file(self.files@, q) {
                            let j = seq_file_idx(self.files@, q);
                            assert(self.files@[j].path@ == q);
                            let j0 = if j < i { j } else { j + 1 };
                            assert(self.files@[j] == oldfiles[j0]);
                            lemma_lookup(oldfiles, j0, q);
                        }
                    }
                }
                true
            },
            None => false,
        }
    }

    /// Records the directory `path`; places that already exist stay as
    /// they are.
    pub fn create_dir(&mut self, path: &str)
        requires
            old(self).inv(),
        ensures
            final(self).inv(),
            final(self).has_dir(path@),
            final(self).now() == old(self).now(),
            forall|q: Seq<char>| q != path@ ==> final(self).has_dir(q) == old(self).has_dir(q),
            forall|q: Seq<char>| final(self).has_file(q) == old(self).has_file(q),
            forall|q: Seq<char>|
                old(self).has_file(q) ==> final(self).file_data(q) == old(self).file_data(q)
                    && final(self).file_stamp(q) == old(self).file_stamp(q),
    {
        let found = self.find_dir(path);
        let ghost olddirs = self.dirs@;
        match found {
            Some(i) => {
                proof {
                    assert(seq_has_name(self.dirs@, path@));
                }
            },
            None => {
                self.dirs.push(path.to_owned());
                proof {
                    assert(distinct_names(self.dirs@)) by {
                        assert forall|a: int, b: int|
                            0 <= a < b < self.dirs@.len() implies self.dirs@[a]@
                            != self.dirs@[b]@ by {
                            if b < olddirs.len() {
                                assert(olddirs[a]@ != olddirs[b]@);
                            } else {
                                assert(self.dirs@[b]@ == path@);
                                assert(seq_has_name(olddirs, olddirs[a]@));
                            }
                        }
                    }
                    assert(self.dirs@[olddirs.len() as int]@ == path@);
                    assert forall|q: Seq<char>|
                        q != path@ implies self.has_dir(q) == old(self).has_dir(q) by {
                        if seq_has_name(olddirs, q) {
                            let j = choose|j: int| 0 <= j < olddirs.len() && olddirs[j]@ == q;
                            assert(self.dirs@[j]@ == q);
                        }
                        if seq_has_name(self.dirs@, q) {
                            let j = choose|j: int| 0 <= j < self.dirs@.len() && self.dirs@[j]@ == q;
                            assert(j < olddirs.len());
                            assert(olddirs[j]@ == q);
                        }
                    }
                }
            },
        }
    }
}

/// A directory directly inside `parent`: one more component, no deeper.
pub open spec fn immediate_child(parent: Seq<char>, d: Seq<char>) -> bool {
    d.len() > parent.len() + 1 && d.subrange(0, parent.len() as int) == parent && d[parent.len() as int]
        == '\\' && (forall|k: int| parent.len() + 1 <= k < d.len() ==> d[k] != '\\')
}

fn in_tree_check(root: &str, p: &str) -> (r: bool)
    ensures
        r == in_tree(root@, p@),
{
    if str_eq(p, root) {
        return true;
    }
    let n = p.unicode_len();
    let m = root.unicode_len();
    if n > m && starts_with(p, root) && p.get_char(m) == '\\' {
        true
    } else {
        false
    }
}

pub(crate) fn immediate_child_check(parent: &str, d: &str) -> (r: bool)
    ensures
        r == immediate_child(parent@, d@),
{
    let n = d.unicode_len();
    let m = parent.unicode_len();
    if !(m < usize::MAX && n > m + 1 && starts_with(d, parent)) {
        return false;
    }
    if d.get_char(m) != '\\' {
        return false;
    }
    let mut k: usize = m + 1;
    while k < n
        invariant
            m + 1 <= k <= n,
            n == d@.len(),
            m == parent@.len(),
            forall|j: int| m + 1 <= j < k ==> d@[j] != '\\',
        decreases n - k,
    {
        if d.get_char(k) == '\\' {
            return false;
        }
        k += 1;
    }
    true
}

impl Fs {
    /// Whether any file or directory lies at or under `root`.
    pub fn tree_exists(&self, root: &str) -> (r: bool)
        ensures
            r == self.tree_used(root@),
    {
        let nf = self.files.len();
        let mut i: usize = 0;
        while i < nf
            invariant
                i <= nf,
                nf == self.files@.len(),
                forall|j: int| 0 <= j < i ==> !in_tree(root@, self.files@[j].path@),
            decreases nf - i,
        {
            if in_tree_check(root, self.files[i].path.as_str()) {
                proof {
                    assert(seq_has_file(self.files@, self.files@[i as int].path@));
                }
                return true;
            }
            i += 1;
        }
        let nd = self.dirs.len();
        let mut k: usize = 0;
        while k < nd
            invariant
                k <= nd,
                nd == self.dirs@.len(),
                forall|j: int| 0 <= j < k ==> !in_tree(root@, self.dirs@[j]@),
            decreases nd - k,
        {
            if in_tree_check(root, self.dirs[k].as_str()) {
                proof {
                    assert(seq_has_name(self.dirs@, self.dirs@[k as int]@));
                }
                return true;
            }
            k += 1;
        }
        proof {
            if self.tree_used(root@) {
                let p = choose|p: Seq<char>| #[trigger] in_tree(root@, p) && self.node_exists(p);
                if self.has_file(p) {
                    let j = seq_file_idx(self.files@, p);
                    assert(self.files@[j].path@ == p);
                } else {
                    let j = choose|j: int| 0 <= j < self.dirs@.len() && self.dirs@[j]@ == p;
                    assert(self.dirs@[j]@ == p);
                }
            }
        }
        false
    }

    /// The directories directly inside `parent`, in recorded order.
    pub fn subdirs(&self, parent: &str) -> (r: Vec<String>)
        ensures
            forall|k: int|
                0 <= k < r@.len() ==> self.has_dir(#[trigger] r@[k]@) && immediate_child(
                    parent@,
                    r@[k]@,
                ),
            forall|d: Seq<char>|
                self.has_dir(d) && immediate_child(parent@, d) ==> exists|k: int|
                    0 <= k < r@.len() && #[trigger] r@[k]@ == d,
    {
        let mut out: Vec<String> = Vec::new();
        let n = self.dirs.len();
        let mut i: usize = 0;
        while i < n
            invariant
                i <= n,
                n == self.dirs@.len(),
                forall|k: int|
                    0 <= k < out@.len() ==> seq_has_name(self.dirs@, #[trigger] out@[k]@)
                        && immediate_child(parent@, out@[k]@),
                forall|j: int|
                    0 <= j < i && immediate_child(parent@, #[trigger] self.dirs@[j]@) ==> exists|k: int|
                        0 <= k < out@.len() && out@[k]@ == self.dirs@[j]@,
            decreases n - i,
        {
            if immediate_child_check(parent, self.dirs[i].as_str()) {
                let ghost prev = out@;
                out.push(self.dirs[i].clone());
                proof {
                    assert(seq_has_name(self.dirs@, self.dirs@[i as int]@));
                    assert(out@[prev.len() as int]@ == self.dirs@[i as int]@);
                    assert forall|j: int|
                        0 <= j < i + 1 && immediate_child(
                            parent@,
                            #[trigger] self.dirs@[j]@,
                        ) implies exists|k: int|
                        0 <= k < out@.len() && out@[k]@ == self.dirs@[j]@ by {
                        if j < i {
                            let k = choose|k: int| 0 <= k < prev.len() && prev[k]@ == self.dirs@[j]@;
                            assert(out@[k]@ == self.dirs@[j]@);
                        } else {
                            assert(out@[prev.len() as int]@ == self.dirs@[j]@);
                        }
                    }
                }
            }
            i += 1;
        }
        proof {
            assert forall|d: Seq<char>|
                self.has_dir(d) && immediate_child(parent@, d) implies exists|k: int|
                0 <= k < out@.len() && #[trigger] out@[k]@ == d by {
                let j = choose|j: int| 0 <= j < self.dirs@.len() && self.dirs@[j]@ == d;
                assert(immediate_child(parent@, self.dirs@[j]@));
            }
        }
        out
    }

    /// Removes every file at or under `root` and hands them back.
    fn extract_tree(&mut self, root: &str) -> (out: Vec<FsFile>)
        requires
            old(self).inv(),
        ensures
            final(self).inv(),
            final(self).now() == old(self).now(),
            final(self).dirs@ == old(self).dirs@,
            forall|p: Seq<char>| in_tree(root@, p) ==> !final(self).has_file(p),
            forall|p: Seq<char>|
                !in_tree(root@, p) ==> final(self).has_file(p) == old(self).has_file(p) && (old(self).has_file(p) ==> final(self).file_data(p) == old(self).file_data(p) && final(self).file_stamp(p) == old(self).file_stamp(p)),
            distinct_paths(out@),
            forall|k: int|
                0 <= k < out@.len() ==> in_tree(root@, (#[trigger] out@[k]).path@) && old(self).has_file(out@[k].path@) && out@[k].data@ == old(self).file_data(out@[k].path@)
                    && out@[k].stamp == old(self).file_stamp(out@[k].path@),
            forall|p: Seq<char>|
                in_tree(root@, p) && old(self).has_file(p) ==> seq_has_file(out@, p),
    {
        let mut out: Vec<FsFile> = Vec::new();
        let mut i: usize = 0;
        while i < self.files.len()
            invariant
                self.inv(),
                distinct_paths(out@),
                i <= self.files@.len(),
                self.dirs@ == old(self).dirs@,
                self.clock == old(self).clock,
                forall|j: int| 0 <= j < i ==> !in_tree(root@, (#[trigger] self.files@[j]).path@),
                forall|p: Seq<char>|
                    old(self).has_file(p) == (seq_has_file(self.files@, p) || seq_has_file(
                        out@,
                        p,
                    )),
                forall|p: Seq<char>| !(seq_has_file(self.files@, p) && seq_has_file(out@, p)),
                forall|p: Seq<char>|
                    seq_has_file(self.files@, p) ==> seq_file_data(self.files@, p) == old(self).file_data(p) && seq_file_stamp(self.files@, p) == old(self).file_stamp(p),
                forall|k: int|
                    0 <= k < out@.len() ==> in_tree(root@, (#[trigger] out@[k]).path@) && old(self).has_file(out@[k].path@) && out@[k].data@ == old(self).file_data(
                        out@[k].path@,
                    ) && out@[k].stamp == old(self).file_stamp(out@[k].path@),
            decreases self.files@.len() - i,
        {
            let hit = in_tree_check(root, self.files[i].path.as_str());
            if hit {
                let ghost pre = self.files@;
                let ghost preout = out@;
                let f = self.files.remove(i);
                proof {
                    pre.remove_ensures(i as int);
                    lemma_lookup(pre, i as int, f.path@);
                }
                out.push(f);
                proof {
                    let ghost fi = preout.len() as int;
                    // the removed path is no longer among the files
                    assert(!seq_has_file(self.files@, out@[fi].path@)) by {
                        if seq_has_file(self.files@, out@[fi].path@) {
                            let j = seq_file_idx(self.files@, out@[fi].path@);
                            let j0 = if j < i { j } else { j + 1 };
                            assert(self.files@[j] == pre[j0]);
                            assert(pre[j0].path@ != pre[i as int].path@);
                        }
                    }
                    assert(distinct_paths(self.files@)) by {
                        assert forall|a: int, b: int|
                            0 <= a < b < self.files@.len() implies self.files@[a].path@
                            != self.files@[b].path@ by {
                            let a0 = if a < i { a } else { a + 1 };
                            let b0 = if b < i { b } else { b + 1 };
                            assert(self.files@[a] == pre[a0] && self.files@[b] == pre[b0]);
                        }
                    }
                    assert(distinct_paths(out@)) by {
                        assert forall|a: int, b: int|
                            0 <= a < b < out@.len() implies out@[a].path@ != out@[b].path@ by {
                            if b < fi {
                                assert(preout[a].path@ != preout[b].path@);
                            } else {
                                // a new path never collides with what was
                                // already taken out
                                assert(out@[b].path@ == pre[i as int].path@);
                                assert(seq_has_file(preout, preout[a].path@));
                                assert(seq_has_file(pre, pre[i as int].path@));
                            }
                        }
                    }
                    assert forall|p: Seq<char>|
                        old(self).has_file(p) == (seq_has_file(self.files@, p) || seq_has_file(
                            out@,
                            p,
                        )) by {
                        if old(self).has_file(p) {
                            if seq_has_file(pre, p) {
                                let j = seq_file_idx(pre, p);
                                if j == i {
                                    assert(out@[fi].path@ == p);
                                    assert(seq_has_file(out@, p));
                                } else {
                                    let j1 = if j < i { j } else { j - 1 };
                                    assert(self.files@[j1] == pre[j]);
                                    assert(seq_has_file(self.files@, p));
                                }
                            } else {
                                let k = seq_file_idx(preout, p);
                                assert(out@[k].path@ == p);
                                assert(seq_has_file(out@, p));
                            }
                        }
                        if seq_has_file(self.files@, p) {
                            let j = seq_file_idx(self.files@, p);
                            let j0 = if j < i { j } else { j + 1 };
                            assert(self.files@[j] == pre[j0]);
                            assert(seq_has_file(pre, p));
                        }
                        if seq_has_file(out@, p) {
                            let k = seq_file_idx(out@, p);
                            if k < fi {
                                assert(preout[k].path@ == p);
                                assert(seq_has_file(preout, p));
                            } else {
                                assert(pre[i as int].path@ == p);
                                assert(seq_has_file(pre, p));
                            }
                        }
                    }
                    assert forall|p: Seq<char>|
                        !(seq_has_file(self.files@, p) && seq_has_file(out@, p)) by {
                        if seq_has_file(self.files@, p) && seq_has_file(out@, p) {
                            let j = seq_file_idx(self.files@, p);
                            let j0 = if j < i { j } else { j + 1 };
                            assert(self.files@[j] == pre[j0]);
                            assert(seq_has_file(pre, p));
                            let k = seq_file_idx(out@, p);
                            if k < fi {
                                assert(preout[k].path@ == p);
                                assert(seq_has_file(preout, p));
                            } else {
                                assert(p == pre[i as int].path@);
                                assert(j0 != i);
                                assert(pre[j0].path@ != pre[i as int].path@);
                            }
                        }
                    }
                    assert forall|p: Seq<char>|
                        seq_has_file(self.files@, p) implies seq_file_data(self.files@, p) == old(self).file_data(p) && seq_file_stamp(self.files@, p) == old(self).file_stamp(
                        p,
                    ) by {
                        let j = seq_file_idx(self.files@, p);
                        assert(self.files@[j].path@ == p);
                        let j0 = if j < i { j } else { j + 1 };
                        assert(self.files@[j] == pre[j0]);
                        lemma_lookup(self.files@, j, p);
                        lemma_lookup(pre, j0, p);
                    }
                    assert forall|k: int|
                        0 <= k < out@.len() implies in_tree(root@, (#[trigger] out@[k]).path@)
                        && old(self).has_file(out@[k].path@) && out@[k].data@ == old(self).file_data(out@[k].path@) && out@[k].stamp == old(self).file_stamp(
                        out@[k].path@,
                    ) by {
                        if k == fi {
                            assert(out@[k] == pre[i as int]);
                            assert(seq_has_file(pre, pre[i as int].path@));
                        }
                    }
                }
            } else {
                i += 1;
            }
        }
        proof {
            assert forall|p: Seq<char>| in_tree(root@, p) implies !self.has_file(p) by {
                if seq_has_file(self.files@, p) {
                    let j = seq_file_idx(self.files@, p);
                    assert(self.files@[j].path@ == p);
                    assert(!in_tree(root@, self.files@[j].path@));
                }
            }
            assert forall|p: Seq<char>| !in_tree(root@, p) implies self.has_file(p) == old(self).has_file(p) && (old(self).has_file(p) ==> self.file_data(p) == old(self).file_data(p)
                && self.file_stamp(p) == old(self).file_stamp(p)) by {
                if old(self).has_file(p) && !seq_has_file(self.files@, p) {
                    assert(seq_has_file(out@, p));
                    let k = seq_file_idx(out@, p);
                    assert(out@[k].path@ == p);
                    assert(in_tree(root@, out@[k].path@));
                }
            }
            assert forall|p: Seq<char>|
                in_tree(root@, p) && old(self).has_file(p) implies seq_has_file(out@, p) by {
                if seq_has_file(self.files@, p) {
                    let j = seq_file_idx(self.files@, p);
                    assert(self.files@[j].path@ == p);
                    assert(!in_tree(root@, self.files@[j].path@));
                }
            }
        }
        out
    }

    /// Removes every directory at or under `root` and hands the names
    /// back.
    fn extract_tree_dirs(&mut self, root: &str) -> (out: Vec<String>)
        requires
            old(self).inv(),
        ensures
            final(self).inv(),
            final(self).now() == old(self).now(),
            final(self).files@ == old(self).files@,
            forall|p: Seq<char>| in_tree(root@, p) ==> !final(self).has_dir(p),
            forall|p: Seq<char>| !in_tree(root@, p) ==> final(self).has_dir(p) == old(self).has_dir(p),
            distinct_names(out@),
            forall|k: int|
                0 <= k < out@.len() ==> in_tree(root@, (#[trigger] out@[k])@) && old(self).has_dir(out@[k]@),
            forall|p: Seq<char>| in_tree(root@, p) && old(self).has_dir(p) ==> seq_has_name(out@, p),
    {
        let mut out: Vec<String> = Vec::new();
        let mut i: usize = 0;
        while i < self.dirs.len()
            invariant
                self.inv(),
                distinct_names(out@),
                i <= self.dirs@.len(),
                self.files@ == old(self).files@,
                self.clock == old(self).clock,
                forall|j: int| 0 <= j < i ==> !in_tree(root@, (#[trigger] self.dirs@[j])@),
                forall|p: Seq<char>|
                    old(self).has_dir(p) == (seq_has_name(self.dirs@, p) || seq_has_name(out@, p)),
                forall|p: Seq<char>| !(seq_has_name(self.dirs@, p) && seq_has_name(out@, p)),
                forall|k: int|
                    0 <= k < out@.len() ==> in_tree(root@, (#[trigger] out@[k])@) && old(self).has_dir(out@[k]@),
            decreases self.dirs@.len() - i,
        {
            let hit = in_tree_check(root, self.dirs[i].as_str());
            if hit {
                let ghost pre = self.dirs@;
                let ghost preout = out@;
                let d = self.dirs.remove(i);
                proof {
                    pre.remove_ensures(i as int);
                }
                out.push(d);
                proof {
                    let ghost fi = preout.len() as int;
                    assert(out@[fi]@ == pre[i as int]@);
                    assert(seq_has_name(pre, pre[i as int]@));
                    assert(!seq_has_name(self.dirs@, out@[fi]@)) by {
                        if seq_has_name(self.dirs@, out@[fi]@) {
                            let j = choose|j: int|
                                0 <= j < self.dirs@.len() && self.dirs@[j]@ == out@[fi]@;
                            let j0 = if j < i { j } else { j + 1 };
                            assert(self.dirs@[j] == pre[j0]);
                            assert(pre[j0]@ != pre[i as int]@);
                        }
                    }
                    assert(distinct_names(self.dirs@)) by {
                        assert forall|a: int, b: int|
                            0 <= a < b < self.dirs@.len() implies self.dirs@[a]@
                            != self.dirs@[b]@ by {
                            let a0 = if a < i { a } else { a + 1 };
                            let b0 = if b < i { b } else { b + 1 };
                            assert(self.dirs@[a] == pre[a0] && self.dirs@[b] == pre[b0]);
                        }
                    }
                    assert(distinct_names(out@)) by {
                        assert forall|a: int, b: int|
                            0 <= a < b < out@.len() implies out@[a]@ != out@[b]@ by {
                            if b < fi {
                                assert(preout[a]@ != preout[b]@);
                            } else {
                                assert(out@[b]@ == pre[i as int]@);
                                assert(seq_has_name(preout, preout[a]@));
                            }
                        }
                    }
                    assert forall|p: Seq<char>|
                        old(self).has_dir(p) == (seq_has_name(self.dirs@, p) || seq_has_name(
                            out@,
                            p,
                        )) by {
                        if old(self).has_dir(p) {
                            if seq_has_name(pre, p) {
                                let j = choose|j: int| 0 <= j < pre.len() && pre[j]@ == p;
                                if j == i {
                                    assert(out@[fi]@ == p);
                                    assert(seq_has_name(out@, p));
                                } else {
                                    let j1 = if j < i { j } else { j - 1 };
                                    assert(self.dirs@[j1] == pre[j]);
                                    assert(seq_has_name(self.dirs@, p));
                                }
                            } else {
                                let k = choose|k: int| 0 <= k < preout.len() && preout[k]@ == p;
                                assert(out@[k]@ == p);
                                assert(seq_has_name(out@, p));
                            }
                        }
                        if seq_has_name(self.dirs@, p) {
                            let j = choose|j: int| 0 <= j < self.dirs@.len() && self.dirs@[j]@ == p;
                            let j0 = if j < i { j } else { j + 1 };
                            assert(self.dirs@[j] == pre[j0]);
                            assert(seq_has_name(pre, p));
                        }
                        if seq_has_name(out@, p) {
                            let k = choose|k: int| 0 <= k < out@.len() && out@[k]@ == p;
                            if k < fi {
                                assert(preout[k]@ == p);
                                assert(seq_has_name(preout, p));
                            } else {
                                assert(pre[i as int]@ == p);
                                assert(seq_has_name(pre, p));
                            }
                        }
                    }
                    assert forall|p: Seq<char>|
                        !(seq_has_name(self.dirs@, p) && seq_has_name(out@, p)) by {
                        if seq_has_name(self.dirs@, p) && seq_has_name(out@, p) {
                            let j = choose|j: int| 0 <= j < self.dirs@.len() && self.dirs@[j]@ == p;
                            let j0 = if j < i { j } else { j + 1 };
                            assert(self.dirs@[j] == pre[j0]);
                            assert(seq_has_name(pre, p));
                            let k = choose|k: int| 0 <= k < out@.len() && out@[k]@ == p;
                            if k < fi {
                                assert(preout[k]@ == p);
                                assert(seq_has_name(preout, p));
                            } else {
                                assert(p == pre[i as int]@);
                                assert(j0 != i);
                                assert(pre[j0]@ != pre[i as int]@);
                            }
                        }
                    }
                    assert forall|k: int|
                        0 <= k < out@.len() implies in_tree(root@, (#[trigger] out@[k])@) && old(self).has_dir(out@[k]@) by {
                        if k == fi {
                            assert(out@[k]@ == pre[i as int]@);
                        }
                    }
                }
            } else {
                i += 1;
            }
        }
        proof {
            assert forall|p: Seq<char>| in_tree(root@, p) implies !self.has_dir(p) by {
                if seq_has_name(self.dirs@, p) {
                    let j = choose|j: int| 0 <= j < self.dirs@.len() && self.dirs@[j]@ == p;
                    assert(!in_tree(root@, self.dirs@[j]@));
                }
            }
            assert forall|p: Seq<char>| !in_tree(root@, p) implies self.has_dir(p) == old(self).has_dir(p) by {
                if old(self).has_dir(p) && !seq_has_name(self.dirs@, p) {
                    assert(seq_has_name(out@, p));
                    let k = choose|k: int| 0 <= k < out@.len() && out@[k]@ == p;
                    assert(in_tree(root@, out@[k]@));
                }
            }
            assert forall|p: Seq<char>|
                in_tree(root@, p) && old(self).has_dir(p) implies seq_has_name(out@, p) by {
                if seq_has_name(self.dirs@, p) {
                    let j = choose|j: int| 0 <= j < self.dirs@.len() && self.dirs@[j]@ == p;
                    assert(!in_tree(root@, self.dirs@[j]@));
                }
            }
        }
        out
    }

    /// Moves the whole tree at `src` to `dst`: every file and
    /// directory at or under `src` reappears at the corresponding path
    /// under `dst`, with contents and stamps kept, and nothing else
    /// changes. Fails, changing nothing, when anything already lies at
    /// or under `dst`.
    pub fn rename_tree(&mut self, src: &str, dst: &str) -> (r: Result<(), LibError>)
        requires
            old(self).inv(),
            !in_tree(src@, dst@),
            !in_tree(dst@, src@),
        ensures
            final(self).inv(),
            final(self).now() == old(self).now(),
            r is Err <==> old(self).tree_used(dst@),
            r matches Err(e) ==> e is RenameTargetExists && *final(self) == *old(self),
            r is Ok ==> forall|p: Seq<char>|
                !in_tree(src@, p) && !in_tree(dst@, p) ==> final(self).has_file(p) == old(self).has_file(p) && (old(self).has_file(p) ==> final(self).file_data(p) == old(self).file_data(p) && final(self).file_stamp(p) == old(self).file_stamp(p)) && final(self).has_dir(p) == old(self).has_dir(p),
            r is Ok ==> forall|p: Seq<char>|
                in_tree(src@, p) ==> !final(self).has_file(p) && !final(self).has_dir(p),
            r is Ok ==> forall|p: Seq<char>|
                #[trigger] in_tree(src@, p) ==> {
                    &&& final(self).has_file(rebase(src@, dst@, p)) == old(self).has_file(p)
                    &&& (old(self).has_file(p) ==> final(self).file_data(rebase(src@, dst@, p))
                        == old(self).file_data(p) && final(self).file_stamp(rebase(src@, dst@, p))
                        == old(self).file_stamp(p))
                    &&& final(self).has_dir(rebase(src@, dst@, p)) == old(self).has_dir(p)
                },
    {
        if self.tree_exists(dst) {
            return Err(LibError::RenameTargetExists);
        }
        let ghost pre = *self;
        let mut moved = self.extract_tree(src);
        let mut moved_dirs = self.extract_tree_dirs(src);
        let ghost mid = *self;
        proof {
            assert forall|p: Seq<char>|
                #[trigger] in_tree(src@, p) implies self.has_file(rebase(src@, dst@, p)) == (
            pre.has_file(p) && !seq_has_file(moved@, p)) by {
                lemma_rebase_roundtrip(src@, dst@, p);
                let q = rebase(src@, dst@, p);
                lemma_trees_disjoint(src@, dst@, q);
                assert(!pre.node_exists(q));
            }
            assert forall|q: Seq<char>| in_tree(dst@, q) implies !self.has_file(q) by {
                lemma_trees_disjoint(src@, dst@, q);
                assert(!pre.node_exists(q));
            }
        }
        while moved.len() > 0
            invariant
                self.inv(),
                distinct_paths(moved@),
                self.dirs@ == mid.dirs@,
                self.clock == mid.clock,
                !in_tree(src@, dst@),
                !in_tree(dst@, src@),
                !pre.tree_used(dst@),
                pre.inv(),
                forall|k: int|
                    0 <= k < moved@.len() ==> in_tree(src@, (#[trigger] moved@[k]).path@)
                        && pre.has_file(moved@[k].path@) && moved@[k].data@ == pre.file_data(
                        moved@[k].path@,
                    ) && moved@[k].stamp == pre.file_stamp(moved@[k].path@),
                forall|p: Seq<char>|
                    !in_tree(dst@, p) ==> self.has_file(p) == mid.has_file(p) && (mid.has_file(p)
                        ==> self.file_data(p) == mid.file_data(p) && self.file_stamp(p)
                        == mid.file_stamp(p)),
                forall|p: Seq<char>| in_tree(src@, p) ==> !mid.has_file(p),
                forall|p: Seq<char>|
                    #[trigger] in_tree(src@, p) ==> {
                        &&& self.has_file(rebase(src@, dst@, p)) == (pre.has_file(p)
                            && !seq_has_file(moved@, p))
                        &&& (self.has_file(rebase(src@, dst@, p)) ==> self.file_data(
                            rebase(src@, dst@, p),
                        ) == pre.file_data(p) && self.file_stamp(rebase(src@, dst@, p))
                            == pre.file_stamp(p))
                    },
                forall|q: Seq<char>|
                    in_tree(dst@, q) && self.has_file(q) ==> in_tree(
                        src@,
                        rebase(dst@, src@, q),
                    ) && q == rebase(src@, dst@, rebase(dst@, src@, q)),
            decreases moved@.len(),
        {
            let ghost premoved = moved@;
            let f = pop_some_file(&mut moved);
            let ghost fp = f.path@;
            let np = rebase_path(src, dst, f.path.as_str());
            let ghost q0 = np@;
            proof {
                lemma_rebase_roundtrip(src@, dst@, fp);
                assert(seq_has_file(premoved, fp));
                assert(!self.has_file(q0));
                lemma_trees_disjoint(src@, dst@, q0);
            }
            let ghost prefiles = self.files@;
            self.files.push(FsFile { path: np, data: f.data, stamp: f.stamp });
            proof {
                let ghost ni = prefiles.len() as int;
                assert(self.files@[ni].path@ == q0);
                assert(seq_has_file(self.files@, q0));
                assert(distinct_paths(self.files@)) by {
                    assert forall|a: int, b: int|
                        0 <= a < b < self.files@.len() implies self.files@[a].path@
                        != self.files@[b].path@ by {
                        if b < ni {
                            assert(prefiles[a].path@ != prefiles[b].path@);
                        } else {
                            assert(self.files@[b].path@ == q0);
                            assert(seq_has_file(prefiles, prefiles[a].path@));
                        }
                    }
                }
                lemma_lookup(self.files@, ni, q0);
                // files at other paths are untouched by the push
                assert forall|p: Seq<char>| p != q0 implies seq_has_file(self.files@, p)
                    == seq_has_file(prefiles, p) && (seq_has_file(prefiles, p)
                    ==> seq_file_data(self.files@, p) == seq_file_data(prefiles, p)
                    && seq_file_stamp(self.files@, p) == seq_file_stamp(prefiles, p)) by {
                    if seq_has_file(prefiles, p) {
                        let j = seq_file_idx(prefiles, p);
                        lemma_lookup(prefiles, j, p);
                        assert(self.files@[j].path@ == p);
                        lemma_lookup(self.files@, j, p);
                    }
                    if seq_has_file(self.files@, p) {
                        let j = seq_file_idx(self.files@, p);
                        assert(self.files@[j].path@ == p);
                        assert(j != ni);
                        assert(prefiles[j].path@ == p);
                        assert(seq_has_file(prefiles, p));
                    }
                }
                // the popped path leaves the pending list, everything else stays
                assert(premoved.drop_last() == moved@);
                assert forall|p: Seq<char>| p != fp implies seq_has_file(moved@, p)
                    == seq_has_file(premoved, p) by {
                    if seq_has_file(premoved, p) {
                        let k = seq_file_idx(premoved, p);
                        lemma_lookup(premoved, k, p);
                        assert(k != premoved.len() - 1);
                        assert(moved@[k].path@ == p);
                        assert(seq_has_file(moved@, p));
                    }
                    if seq_has_file(moved@, p) {
                        let k = seq_file_idx(moved@, p);
                        assert(moved@[k].path@ == p);
                        assert(premoved[k].path@ == p);
                        assert(seq_has_file(premoved, p));
                    }
                }
                assert(!seq_has_file(moved@, fp)) by {
                    if seq_has_file(moved@, fp) {
                        let k = seq_file_idx(moved@, fp);
                        assert(moved@[k].path@ == fp);
                        assert(premoved[k].path@ == fp);
                        assert(premoved[premoved.len() - 1].path@ == fp);
                        assert(k < premoved.len() - 1);
                        assert(premoved[k].path@ != premoved[premoved.len() - 1].path@);
                    }
                }
                assert forall|p: Seq<char>|
                    #[trigger] in_tree(src@, p) implies {
                    &&& self.has_file(rebase(src@, dst@, p)) == (pre.has_file(p) && !seq_has_file(
                        moved@,
                        p,
                    ))
                    &&& (self.has_file(rebase(src@, dst@, p)) ==> self.file_data(
                        rebase(src@, dst@, p),
                    ) == pre.file_data(p) && self.file_stamp(rebase(src@, dst@, p))
                        == pre.file_stamp(p))
                } by {
                    if p == fp {
                    } else {
                        lemma_rebase_injective(src@, dst@, p, fp);
                        assert(rebase(src@, dst@, p) != q0);
                    }
                }
                assert forall|q: Seq<char>|
                    in_tree(dst@, q) && self.has_file(q) implies in_tree(src@, rebase(dst@, src@, q))
                    && q == rebase(src@, dst@, rebase(dst@, src@, q)) by {
                    if q != q0 {
                    } else {
                        lemma_rebase_roundtrip(src@, dst@, fp);
                    }
                }
            }
        }
        let ghost fdone = *self;
        proof {
            assert forall|p: Seq<char>|
                #[trigger] in_tree(src@, p) implies self.has_dir(rebase(src@, dst@, p)) == (
            pre.has_dir(p) && !seq_has_name(moved_dirs@, p)) by {
                lemma_rebase_roundtrip(src@, dst@, p);
                let q = rebase(src@, dst@, p);
                lemma_trees_disjoint(src@, dst@, q);
                assert(!pre.node_exists(q));
                assert(!in_tree(src@, q) ==> self.has_dir(q) == mid.has_dir(q));
            }
            assert forall|q: Seq<char>| in_tree(dst@, q) implies !self.has_dir(q) by {
                lemma_trees_disjoint(src@, dst@, q);
                assert(!pre.node_exists(q));
            }
        }
        while moved_dirs.len() > 0
            invariant
                self.inv(),
                distinct_names(moved_dirs@),
                self.files@ == fdone.files@,
                self.clock == fdone.clock,
                !in_tree(src@, dst@),
                !in_tree(dst@, src@),
                !pre.tree_used(dst@),
                pre.inv(),
                forall|k: int|
                    0 <= k < moved_dirs@.len() ==> in_tree(src@, (#[trigger] moved_dirs@[k])@)
                        && pre.has_dir(moved_dirs@[k]@),
                forall|p: Seq<char>| !in_tree(dst@, p) ==> self.has_dir(p) == mid.has_dir(p),
                forall|p: Seq<char>| in_tree(src@, p) ==> !mid.has_dir(p),
                forall|p: Seq<char>|
                    #[trigger] in_tree(src@, p) ==> self.has_dir(rebase(src@, dst@, p)) == (
                    pre.has_dir(p) && !seq_has_name(moved_dirs@, p)),
                forall|q: Seq<char>|
                    in_tree(dst@, q) && self.has_dir(q) ==> in_tree(src@, rebase(dst@, src@, q))
                        && q == rebase(src@, dst@, rebase(dst@, src@, q)),
            decreases moved_dirs@.len(),
        {
            let ghost premoved = moved_dirs@;
            let d = pop_some_name(&mut moved_dirs);
            let ghost dp = d@;
            let nd = rebase_path(src, dst, d.as_str());
            let ghost q0 = nd@;
            proof {
                lemma_rebase_roundtrip(src@, dst@, dp);
                assert(seq_has_name(premoved, dp));
                assert(!self.has_dir(q0));
                lemma_trees_disjoint(src@, dst@, q0);
            }
            let ghost predirs = self.dirs@;
            self.dirs.push(nd);
            proof {
                let ghost ni = predirs.len() as int;
                assert(self.dirs@[ni]@ == q0);
                assert(seq_has_name(self.dirs@, q0));
                assert(distinct_names(self.dirs@)) by {
                    assert forall|a: int, b: int|
                        0 <= a < b < self.dirs@.len() implies self.dirs@[a]@ != self.dirs@[b]@ by {
                        if b < ni {
                            assert(predirs[a]@ != predirs[b]@);
                        } else {
                            assert(self.dirs@[b]@ == q0);
                            assert(seq_has_name(predirs, predirs[a]@));
                        }
                    }
                }
                assert forall|p: Seq<char>| p != q0 implies seq_has_name(self.dirs@, p)
                    == seq_has_name(predirs, p) by {
                    if seq_has_name(predirs, p) {
                        let j = choose|j: int| 0 <= j < predirs.len() && predirs[j]@ == p;
                        assert(self.dirs@[j]@ == p);
                    }
                    if seq_has_name(self.dirs@, p) {
                        let j = choose|j: int| 0 <= j < self.dirs@.len() && self.dirs@[j]@ == p;
                        assert(j != ni);
                        assert(predirs[j]@ == p);
                    }
                }
                assert(premoved.drop_last() == moved_dirs@);
                assert forall|p: Seq<char>| p != dp implies seq_has_name(moved_dirs@, p)
                    == seq_has_name(premoved, p) by {
                    if seq_has_name(premoved, p) {
                        let k = choose|k: int| 0 <= k < premoved.len() && premoved[k]@ == p;
                        assert(k != premoved.len() - 1);
                        assert(moved_dirs@[k]@ == p);
                    }
                    if seq_has_name(moved_dirs@, p) {
                        let k = choose|k: int| 0 <= k < moved_dirs@.len() && moved_dirs@[k]@ == p;
                        assert(premoved[k]@ == p);
                    }
                }
                assert(!seq_has_name(moved_dirs@, dp)) by {
                    if seq_has_name(moved_dirs@, dp) {
                        let k = choose|k: int| 0 <= k < moved_dirs@.len() && moved_dirs@[k]@ == dp;
                        assert(premoved[k]@ == dp);
                        assert(premoved[premoved.len() - 1]@ == dp);
                        assert(premoved[k]@ != premoved[premoved.len() - 1]@);
                    }
                }
                assert forall|p: Seq<char>|
                    #[trigger] in_tree(src@, p) implies self.has_dir(rebase(src@, dst@, p)) == (
                pre.has_dir(p) && !seq_has_name(moved_dirs@, p)) by {
                    if p == dp {
                    } else {
                        lemma_rebase_injective(src@, dst@, p, dp);
                        assert(rebase(src@, dst@, p) != q0);
                    }
                }
                assert forall|q: Seq<char>|
                    in_tree(dst@, q) && self.has_dir(q) implies in_tree(src@, rebase(dst@, src@, q))
                    && q == rebase(src@, dst@, rebase(dst@, src@, q)) by {
                    if q != q0 {
                    } else {
                        lemma_rebase_roundtrip(src@, dst@, dp);
                    }
                }
            }
        }
        proof {
            assert(forall|p: Seq<char>| !seq_has_file(moved@, p));
            assert(forall|p: Seq<char>| !seq_has_name(moved_dirs@, p));
            assert forall|p: Seq<char>|
                self.has_file(p) == fdone.has_file(p) && (self.has_file(p) ==> self.file_data(p)
                == fdone.file_data(p) && self.file_stamp(p) == fdone.file_stamp(p)) by {
                assert(self.files@ == fdone.files@);
            }
            assert forall|p: Seq<char>|
                !in_tree(src@, p) && !in_tree(dst@, p) implies self.same_at(pre, p) by {
                assert(fdone.has_file(p) == mid.has_file(p));
                assert(mid.has_file(p) == pre.has_file(p));
                assert(self.has_dir(p) == mid.has_dir(p));
                assert(mid.has_dir(p) == pre.has_dir(p));
            }
            assert forall|p: Seq<char>| in_tree(src@, p) implies !self.has_file(p)
                && !self.has_dir(p) by {
                lemma_trees_disjoint(src@, dst@, p);
                assert(fdone.has_file(p) == mid.has_file(p));
                assert(!mid.has_file(p));
                assert(self.has_dir(p) == mid.has_dir(p));
                assert(!mid.has_dir(p));
            }
            assert forall|p: Seq<char>| #[trigger] in_tree(src@, p) implies {
                &&& self.has_file(rebase(src@, dst@, p)) == pre.has_file(p)
                &&& (pre.has_file(p) ==> self.file_data(rebase(src@, dst@, p)) == pre.file_data(p)
                    && self.file_stamp(rebase(src@, dst@, p)) == pre.file_stamp(p))
                &&& self.has_dir(rebase(src@, dst@, p)) == pre.has_dir(p)
            } by {
                assert(fdone.has_file(rebase(src@, dst@, p)) == (pre.has_file(p) && !seq_has_file(
                    moved@,
                    p,
                )));
                assert(self.has_dir(rebase(src@, dst@, p)) == (pre.has_dir(p) && !seq_has_name(
                    moved_dirs@,
                    p,
                )));
            }
        }
        Ok(())
    }

    /// Removes every file and directory at or under `root`.
    pub fn remove_tree(&mut self, root: &str)
        requires
            old(self).inv(),
        ensures
            final(self).inv(),
            final(self).now() == old(self).now(),
            forall|p: Seq<char>|
                in_tree(root@, p) ==> !final(self).has_file(p) && !final(self).has_dir(p),
            forall|p: Seq<char>|
                !in_tree(root@, p) ==> final(self).has_file(p) == old(self).has_file(p),
            forall|p: Seq<char>|
                !in_tree(root@, p) && old(self).has_file(p) ==> final(self).file_data(p) == old(self).file_data(p) && final(self).file_stamp(p) == old(self).file_stamp(p),
            forall|p: Seq<char>|
                !in_tree(root@, p) ==> final(self).has_dir(p) == old(self).has_dir(p),
    {
        let _files = self.extract_tree(root);
        let _dirs = self.extract_tree_dirs(root);
    }

    /// Every file of the model, as path and contents.
    pub fn entries(&self) -> (r: Vec<(String, Vec<u8>)>)
        requires
            self.inv(),
        ensures
            forall|k: int|
                0 <= k < r@.len() ==> self.has_file((#[trigger] r@[k]).0@) && r@[k].1@
                    == self.file_data(r@[k].0@),
            forall|p: Seq<char>|
                self.has_file(p) ==> exists|k: int| 0 <= k < r@.len() && (#[trigger] r@[k]).0@ == p,
    {
        let mut out: Vec<(String, Vec<u8>)> = Vec::new();
        let n = self.files.len();
        let mut i: usize = 0;
        while i < n
            invariant
                self.inv(),
                i <= n,
                n == self.files@.len(),
                forall|k: int|
                    0 <= k < out@.len() ==> self.has_file((#[trigger] out@[k]).0@) && out@[k].1@
                        == self.file_data(out@[k].0@),
                forall|j: int|
                    0 <= j < i ==> exists|k: int|
                        0 <= k < out@.len() && (#[trigger] out@[k]).0@ == (
                        #[trigger] self.files@[j]).path@,
            decreases n - i,
        {
            let path = self.files[i].path.clone();
            let data = copy_bytes(&self.files[i].data);
            proof {
                lemma_lookup(self.files@, i as int, self.files@[i as int].path@);
                assert(path@ == self.files@[i as int].path@);
            }
            let ghost preout = out@;
            out.push((path, data));
            proof {
                assert((out@[preout.len() as int]).0@ == self.files@[i as int].path@);
                assert forall|j: int|
                    0 <= j < i + 1 implies exists|k: int|
                        0 <= k < out@.len() && (#[trigger] out@[k]).0@ == (
                        #[trigger] self.files@[j]).path@ by {
                    if j < i {
                        let k = choose|k: int|
                            0 <= k < preout.len() && (#[trigger] preout[k]).0@
                                == self.files@[j].path@;
                        assert((out@[k]).0@ == self.files@[j].path@);
                    } else {
                        assert((out@[preout.len() as int]).0@ == self.files@[j].path@);
                    }
                }
            }
            i += 1;
        }
        proof {
            assert forall|p: Seq<char>| self.has_file(p) implies exists|k: int|
                0 <= k < out@.len() && (#[trigger] out@[k]).0@ == p by {
                let j = seq_file_idx(self.files@, p);
                assert(self.files@[j].path@ == p);
            }
        }
        out
    }

    /// Every directory of the model.
    pub fn dir_entries(&self) -> (r: Vec<String>)
        ensures
            forall|k: int| 0 <= k < r@.len() ==> self.has_dir((#[trigger] r@[k])@),
    {
        let mut out: Vec<String> = Vec::new();
        let n = self.dirs.len();
        let mut i: usize = 0;
        while i < n
            invariant
                i <= n,
                n == self.dirs@.len(),
                forall|k: int| 0 <= k < out@.len() ==> self.has_dir((#[trigger] out@[k])@),
            decreases n - i,
        {
            out.push(self.dirs[i].clone());
            proof {
                assert(seq_has_name(self.dirs@, self.dirs@[i as int]@));
                assert(out@.last()@ == self.dirs@[i as int]@);
            }
            i += 1;
        }
        out
    }
}

/// Rebasing distinct paths of one tree gives distinct paths.
proof fn lemma_rebase_injective(src: Seq<char>, dst: Seq<char>, p1: Seq<char>, p2: Seq<char>)
    requires
        in_tree(src, p1),
        in_tree(src, p2),
        p1 != p2,
    ensures
        rebase(src, dst, p1) != rebase(src, dst, p2),
{
    if rebase(src, dst, p1) == rebase(src, dst, p2) {
        assert(p1.skip(src.len() as int) =~= rebase(src, dst, p1).skip(dst.len() as int));
        assert(p2.skip(src.len() as int) =~= rebase(src, dst, p2).skip(dst.len() as int));
        assert(p1 =~= src + p1.skip(src.len() as int)) by {
            if p1 != src {
                assert(p1.subrange(0, src.len() as int) == src);
            } else {
                assert(p1.skip(src.len() as int) =~= Seq::<char>::empty());
            }
        }
        assert(p2 =~= src + p2.skip(src.len() as int)) by {
            if p2 != src {
                assert(p2.subrange(0, src.len() as int) == src);
            } else {
                assert(p2.skip(src.len() as int) =~= Seq::<char>::empty());
            }
        }
    }
}

/// The path `p` of the tree at `src`, moved under `dst`.
fn rebase_path(src: &str, dst: &str, p: &str) -> (r: String)
    requires
        in_tree(src@, p@),
    ensures
        r@ == rebase(src@, dst@, p@),
{
    if str_eq(p, src) {
        let r = dst.to_owned();
        proof {
            assert(p@.skip(src@.len() as int) =~= Seq::<char>::empty());
            assert(r@ =~= rebase(src@, dst@, p@));
        }
        r
    } else {
        let m = src.unicode_len();
        let rest = suffix_from(p, m);
        concat2(dst, rest.as_str())
    }
}

fn pop_some_file(v: &mut Vec<FsFile>) -> (r: FsFile)
    requires
        old(v)@.len() > 0,
    ensures
        final(v)@ == old(v)@.drop_last(),
        r == old(v)@.last(),
{
    match v.pop() {
        Some(f) => f,
        None => {
            proof {
                assert(false);
            }
            FsFile { path: String::new(), data: Vec::new(), stamp: 0 }
        },
    }
}

fn pop_some_name(v: &mut Vec<String>) -> (r: String)
    requires
        old(v)@.len() > 0,
    ensures
        final(v)@ == old(v)@.drop_last(),
        r == old(v)@.last(),
{
    match v.pop() {
        Some(d) => d,
        None => {
            proof {
                assert(false);
            }
            String::new()
        },
    }
}

/// A fresh vector with the same bytes.
pub fn copy_bytes(v: &Vec<u8>) -> (r: Vec<u8>)
    ensures
        r@ == v@,
{
    let mut r: Vec<u8> = Vec::new();
    let n = v.len();
    let mut i: usize = 0;
    while i < n
        invariant
            i <= n,
            n == v@.len(),
            r@ == v@.subrange(0, i as int),
        decreases n - i,
    {
        r.push(v[i]);
        proof {
            assert(r@ =~= v@.subrange(0, i + 1));
        }
        i += 1;
    }
    proof {
        assert(r@ =~= v@);
    }
    r
}

} // verus!
