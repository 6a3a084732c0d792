//! What each project costs on disk, and where that cost sits.
//!
//! Sizes are logical (the sum of file lengths). Links are never followed: a
//! junction pointing back into the tree would count it again, or forever.
//! An entry that cannot be read is counted as skipped and reported beside
//! the total, so a short number says why it is short.
use vstd::prelude::*;

use crate::text::{lex_less, lemma_lex_order, str_less};

verus! {

broadcast use vstd::string::group_string_axioms;

/// Depth ceiling for one walk, so a pathological structure terminates.
pub const MAX_DEPTH: usize = 40;

/// A measured directory tree.
#[derive(Debug, Clone, Copy, PartialEq, Eq, Structural)]
pub struct Usage {
    /// Sum of file lengths, in bytes.
    pub bytes: u64,
    /// How many files contributed.
    pub files: u64,
    /// Entries that could not be read, and links not followed.
    pub skipped: u64,
}

/// `a + b`, or `u64::MAX` when that does not fit.
pub open spec fn sat(a: u64, b: int) -> u64 {
    if a + b > u64::MAX {
        u64::MAX
    } else {
        (a + b) as u64
    }
}

impl Usage {
    /// Nothing measured.
    pub fn zero() -> (r: Usage)
        ensures
            r == (Usage { bytes: 0, files: 0, skipped: 0 }),
    {
        Usage { bytes: 0, files: 0, skipped: 0 }
    }

    /// A file of `len` bytes counted (saturating).
    pub fn add_file(&mut self, len: u64)
        ensures
            *final(self) == (Usage { bytes: sat(old(self).bytes, len as int), files: sat(old(self).files, 1), skipped: old(self).skipped }),
    {
        self.bytes = self.bytes.saturating_add(len);
        self.files = self.files.saturating_add(1);
    }

    /// An entry skipped (saturating).
    pub fn skip(&mut self)
        ensures
            *final(self) == (Usage { bytes: old(self).bytes, files: old(self).files, skipped: sat(old(self).skipped, 1) }),
    {
        self.skipped = self.skipped.saturating_add(1);
    }
}

/// One immediate child of a directory, with its whole subtree measured.
#[derive(Debug, Clone)]
pub struct Child {
    /// File or directory name, no path.
    pub name: String,
    /// Full path, so the caller can drill into it.
    pub path: String,
    /// True for a directory that may be expanded further.
    pub is_dir: bool,
    /// The file's own length, or the subtree's total.
    pub usage: Usage,
}

/// What one directory entry turned out to be.
#[derive(Debug, Clone)]
pub enum Entry {
    /// The entry or its metadata could not be read.
    Unreadable,
    /// A link (junction, symlink, mount point): listed, never followed.
    Link,
    /// A directory to walk into.
    Dir(String),
    /// A file of this many bytes.
    File(u64),
}

/// A depth-first walk of a tree, driven from outside: [`DiskWalk::next`]
/// names a directory to read and [`DiskWalk::read`] takes its entries
/// (`None` when it cannot be read).
pub struct DiskWalk {
    stack: Vec<(String, usize)>,
    current: usize,
    reading: bool,
    total: Usage,
}

/// The directories still to walk, as plain values.
pub open spec fn stack_view(s: Seq<(String, usize)>) -> Seq<(Seq<char>, usize)> {
    s.map_values(|e: (String, usize)| (e.0@, e.1))
}

/// What a directory's entries add to a total, and the subdirectories they
/// name (in order, one level deeper).
pub open spec fn tally(entries: Seq<Entry>, u: Usage) -> Usage
    decreases entries.len(),
{
    if entries.len() == 0 {
        u
    } else {
        let before = tally(entries.drop_last(), u);
        match entries.last() {
            Entry::Unreadable => Usage { skipped: sat(before.skipped, 1), ..before },
            Entry::Link => Usage { skipped: sat(before.skipped, 1), ..before },
            Entry::Dir(_) => before,
            Entry::File(len) => Usage { bytes: sat(before.bytes, len as int), files: sat(before.files, 1), ..before },
        }
    }
}

/// The subdirectories among `entries`, in order, at `depth`.
pub open spec fn subdirs(entries: Seq<Entry>, depth: usize) -> Seq<(Seq<char>, usize)>
    decreases entries.len(),
{
    if entries.len() == 0 {
        Seq::empty()
    } else {
        subdirs(entries.drop_last(), depth) + match entries.last() {
            Entry::Dir(p) => seq![(p@, depth)],
            _ => Seq::empty(),
        }
    }
}

impl DiskWalk {
    /// The directories still to walk, the next one last.
    pub closed spec fn pending(&self) -> Seq<(Seq<char>, usize)> {
        stack_view(self.stack@)
    }

    /// The total so far.
    pub closed spec fn sum(&self) -> Usage {
        self.total
    }

    /// Whether a directory is out, waiting for its entries.
    pub closed spec fn waiting(&self) -> bool {
        self.reading
    }

    /// The depth of the subdirectories of the directory being read.
    pub closed spec fn depth(&self) -> usize {
        self.current
    }

    /// A walk of `root`.
    pub fn new(root: &str) -> (r: DiskWalk)
        ensures
            r.pending() == seq![(root@, 0usize)],
            r.sum() == (Usage { bytes: 0, files: 0, skipped: 0 }),
            !r.waiting(),
    {
        let mut stack: Vec<(String, usize)> = Vec::new();
        stack.push((root.to_owned(), 0));
        let r = DiskWalk { stack, current: 0, reading: false, total: Usage::zero() };
        assert(r.pending() =~= seq![(root@, 0usize)]);
        r
    }

    /// The next directory to read, most recently found first; any past the
    /// depth ceiling on the way are counted as skipped instead. `None` when
    /// the walk is done (or a directory is still out).
    pub fn next(&mut self) -> (r: Option<String>)
        ensures
            old(self).waiting() ==> r is None && *final(self) == *old(self),
            !old(self).waiting() ==> ({
                let n = final(self).pending().len();
                &&& n <= old(self).pending().len()
                &&& final(self).pending() == old(self).pending().take(n as int)
                &&& final(self).sum().bytes == old(self).sum().bytes
                &&& final(self).sum().files == old(self).sum().files
                &&& match r {
                    None => n == 0 && !final(self).waiting() && final(self).sum().skipped == sat(
                        old(self).sum().skipped,
                        old(self).pending().len() as int,
                    ) && forall|k: int| 0 <= k < old(self).pending().len() ==> (#[trigger] old(self).pending()[k]).1
                        > MAX_DEPTH,
                    Some(d) => n < old(self).pending().len() && final(self).waiting() && d@ == old(self).pending()[n as int].0
                        && old(self).pending()[n as int].1 <= MAX_DEPTH && final(self).depth() == old(self).pending()[n as int].1
                        + 1 && final(self).sum().skipped == sat(
                        old(self).sum().skipped,
                        old(self).pending().len() - n - 1,
                    ) && forall|k: int| n < k < old(self).pending().len() ==> (#[trigger] old(self).pending()[k]).1
                        > MAX_DEPTH,
                }
            }),
    {
        if self.reading {
            return None;
        }
        let ghost s0 = stack_view(self.stack@);
        let ghost u0 = self.total;
        while self.stack.len() > 0
            invariant
                !self.reading,
                !old(self).reading,
                s0 == stack_view(old(self).stack@),
                u0 == old(self).total,
                self.stack@.len() <= s0.len(),
                stack_view(self.stack@) == s0.take(self.stack@.len() as int),
                self.total.bytes == u0.bytes,
                self.total.files == u0.files,
                self.total.skipped == sat(u0.skipped, s0.len() - self.stack@.len()),
                forall|k: int| self.stack@.len() <= k < s0.len() ==> (#[trigger] s0[k]).1 > MAX_DEPTH,
            decreases self.stack.len(),
        {
            let ghost before = stack_view(self.stack@);
            let (dir, depth) = self.stack.pop().unwrap();
            assert(stack_view(self.stack@) =~= before.drop_last());
            assert(before.last() == (dir@, depth));
            assert(s0[self.stack@.len() as int] == before.last());
            if depth > MAX_DEPTH {
                self.total.skip();
            } else {
                self.current = depth + 1;
                self.reading = true;
                assert(stack_view(self.stack@) =~= s0.take(self.stack@.len() as int));
                return Some(dir);
            }
        }
        None
    }

    /// Takes the entries of the directory that is out: each unreadable entry
    /// and each link is skipped, each file counted, each subdirectory walked
    /// one level deeper; a directory that cannot be read is skipped.
    pub fn read(&mut self, entries: Option<Vec<Entry>>)
        ensures
            !old(self).waiting() ==> *final(self) == *old(self),
            old(self).waiting() ==> !final(self).waiting() && match entries {
                None => final(self).pending() == old(self).pending() && final(self).sum() == (Usage {
                    skipped: sat(old(self).sum().skipped, 1),
                    ..old(self).sum()
                }),
                Some(v) => final(self).pending() == old(self).pending() + subdirs(v@, old(self).depth())
                    && final(self).sum() == tally(v@, old(self).sum()),
            },
    {
        if !self.reading {
            return;
        }
        self.reading = false;
        let v = match entries {
            None => {
                self.total.skip();
                return;
            },
            Some(v) => v,
        };
        let depth = self.current;
        let ghost s0 = stack_view(self.stack@);
        let ghost u0 = self.total;
        let mut i: usize = 0;
        assert(v@.take(0) =~= Seq::<Entry>::empty());
        while i < v.len()
            invariant
                i <= v.len(),
                !self.reading,
                stack_view(self.stack@) == s0 + subdirs(v@.take(i as int), depth),
                self.total == tally(v@.take(i as int), u0),
            decreases v.len() - i,
        {
            assert(v@.take(i + 1).drop_last() =~= v@.take(i as int));
            assert(v@.take(i + 1).last() == v@[i as int]);
            match &v[i] {
                Entry::Unreadable => self.total.skip(),
                Entry::Link => self.total.skip(),
                Entry::Dir(p) => {
                    let ghost before = stack_view(self.stack@);
                    self.stack.push((p.clone(), depth));
                    assert(stack_view(self.stack@) =~= before + seq![(p@, depth)]);
                },
                Entry::File(len) => self.total.add_file(*len),
            }
            i += 1;
        }
        assert(v@.take(v.len() as int) =~= v@);
    }

    /// The total, once the walk is done.
    pub fn total(&self) -> (r: Usage)
        ensures
            r == self.sum(),
    {
        self.total
    }
}

// ---------------------------------------------------------------------------
// Ranking the children of a directory
// ---------------------------------------------------------------------------

/// Whether child `a` is shown before child `b`: more bytes first, then by
/// name, then as listed.
pub open spec fn ranks_before(bytes: Seq<u64>, names: Seq<Seq<char>>, a: usize, b: usize) -> bool {
    ||| bytes[a as int] > bytes[b as int]
    ||| bytes[a as int] == bytes[b as int] && lex_less(names[a as int], names[b as int])
    ||| bytes[a as int] == bytes[b as int] && names[a as int] == names[b as int] && a < b
}

/// The order the children are shown in: each index once, largest first
/// (the question is always "what is taking the space"), then by name.
pub open spec fn ranked(bytes: Seq<u64>, names: Seq<Seq<char>>, r: Seq<usize>) -> bool {
    &&& r.len() == bytes.len()
    &&& r.no_duplicates()
    &&& forall|j: int| 0 <= j < r.len() ==> (#[trigger] r[j]) < bytes.len()
    &&& forall|a: int, b: int| 0 <= a < b < r.len() ==> ranks_before(bytes, names, #[trigger] r[a], #[trigger] r[b])
}

proof fn lemma_ranks_order(bytes: Seq<u64>, names: Seq<Seq<char>>, a: usize, b: usize, c: usize)
    requires
        a < bytes.len(),
        b < bytes.len(),
        c < bytes.len(),
        names.len() == bytes.len(),
    ensures
        a != b ==> ranks_before(bytes, names, a, b) || ranks_before(bytes, names, b, a),
        ranks_before(bytes, names, a, b) ==> !ranks_before(bytes, names, b, a),
        ranks_before(bytes, names, a, b) && ranks_before(bytes, names, b, c) ==> ranks_before(bytes, names, a, c),
{
    lemma_lex_order(names[a as int], names[b as int], names[c as int]);
    lemma_lex_order(names[b as int], names[a as int], names[c as int]);
    lemma_lex_order(names[a as int], names[c as int], names[b as int]);
}

/// The display order of children with these sizes and names.
pub fn rank_children(bytes: &[u64], names: &[String]) -> (r: Vec<usize>)
    requires
        bytes.len() == names.len(),
    ensures
        ranked(bytes@, crate::command::views(names@), r@),
{
    let ghost nv = crate::command::views(names@);
    let mut out: Vec<usize> = Vec::new();
    let mut i: usize = 0;
    while i < bytes.len()
        invariant
            i <= bytes.len(),
            bytes.len() == names.len(),
            nv == crate::command::views(names@),
            out@.len() == i,
            out@.no_duplicates(),
            forall|j: int| 0 <= j < out@.len() ==> (#[trigger] out@[j]) < i,
            forall|a: int, b: int| 0 <= a < b < out@.len() ==> ranks_before(bytes@, nv, #[trigger] out@[a], #[trigger] out@[b]),
        decreases bytes.len() - i,
    {
        let mut p: usize = 0;
        while p < out.len() && (bytes[out[p]] > bytes[i] || (bytes[out[p]] == bytes[i] && !str_less(
            names[i].as_str(),
            names[out[p]].as_str(),
        )))
            invariant
                p <= out@.len(),
                i < bytes.len(),
                bytes.len() == names.len(),
                nv == crate::command::views(names@),
                forall|j: int| 0 <= j < out@.len() ==> (#[trigger] out@[j]) < i,
                forall|j: int| 0 <= j < p ==> ranks_before(bytes@, nv, #[trigger] out@[j], i),
            decreases out.len() - p,
        {
            proof {
                let o = out@[p as int];
                assert(nv[o as int] == names@[o as int]@);
                assert(nv[i as int] == names@[i as int]@);
                lemma_ranks_order(bytes@, nv, o, i, o);
                if bytes@[o as int] == bytes@[i as int] && !lex_less(nv[i as int], nv[o as int]) {
                    lemma_lex_order(nv[o as int], nv[i as int], nv[o as int]);
                    lemma_lex_order(nv[i as int], nv[o as int], nv[i as int]);
                }
            }
            p += 1;
        }
        proof {
            if p < out@.len() {
                let o = out@[p as int];
                assert(nv[o as int] == names@[o as int]@);
                assert(nv[i as int] == names@[i as int]@);
                assert(ranks_before(bytes@, nv, i, o));
            }
        }
        let ghost old_out = out@;
        out.insert(p, i);
        proof {
            assert(out@ =~= old_out.insert(p as int, i));
            assert forall|a: int, b: int| 0 <= a < b < out@.len() implies ranks_before(bytes@, nv, #[trigger] out@[a], #[trigger] out@[b]) by {
                if b < p {
                    assert(out@[a] == old_out[a] && out@[b] == old_out[b]);
                } else if b == p {
                    assert(out@[a] == old_out[a]);
                } else if a < p {
                    assert(out@[a] == old_out[a] && out@[b] == old_out[b - 1]);
                } else if a == p {
                    assert(out@[b] == old_out[b - 1]);
                    if b - 1 > p {
                        lemma_ranks_order(bytes@, nv, i, old_out[p as int], old_out[b - 1]);
                    }
                } else {
                    assert(out@[a] == old_out[a - 1] && out@[b] == old_out[b - 1]);
                }
            }
            assert forall|a: int, b: int| 0 <= a < b < out@.len() implies out@[a] != out@[b] by {
                if a == p {
                    assert(out@[b] == old_out[b - 1]);
                } else if b == p {
                    assert(out@[a] == old_out[a]);
                } else if a < p && b < p {
                    assert(out@[a] == old_out[a] && out@[b] == old_out[b]);
                } else if a < p {
                    assert(out@[a] == old_out[a] && out@[b] == old_out[b - 1]);
                } else {
                    assert(out@[a] == old_out[a - 1] && out@[b] == old_out[b - 1]);
                }
            }
            assert forall|j: int| 0 <= j < out@.len() implies (#[trigger] out@[j]) < i + 1 by {
                if j < p {
                    assert(out@[j] == old_out[j]);
                } else if j > p {
                    assert(out@[j] == old_out[j - 1]);
                }
            }
        }
        i += 1;
    }
    out
}

} // verus!
