//! The process tree behind a supervised launch, and the bounded history of
//! its samples.
//!
//! `npm run dev` is a launcher: it starts `node`, which starts Vite, which
//! starts esbuild workers. The pid held for a run sits idle while its
//! descendants do the work, so a sample covers the whole tree below it.
use vstd::prelude::*;

verus! {

/// How many samples are retained per project: two minutes at one a second.
pub const HISTORY: usize = 120;

/// Whether the process table lists `pid`.
pub open spec fn listed(table: Seq<(u32, Option<u32>)>, pid: u32) -> bool {
    exists|i: int| 0 <= i < table.len() && (#[trigger] table[i]).0 == pid
}

/// Whether the table lists `c` as a child of `p`.
pub open spec fn child_of(table: Seq<(u32, Option<u32>)>, c: u32, p: u32) -> bool {
    exists|i: int| 0 <= i < table.len() && (#[trigger] table[i]).0 == c && table[i].1 == Some(p)
}

/// Whether `r` is the tree rooted at `root`: empty when the root is not
/// listed; otherwise the root first, each pid once, every later pid a child
/// of an earlier one, and every child of a member a member too.
pub open spec fn is_tree(table: Seq<(u32, Option<u32>)>, root: u32, r: Seq<u32>) -> bool {
    if !listed(table, root) {
        r.len() == 0
    } else {
        &&& r.len() > 0
        &&& r[0] == root
        &&& r.no_duplicates()
        &&& forall|i: int| 0 < i < r.len() ==> exists|j: int| 0 <= j < i && child_of(table, #[trigger] r[i], r[j])
        &&& forall|i: int, c: u32| 0 <= i < r.len() && #[trigger] child_of(table, c, r[i]) ==> r.contains(c)
    }
}

/// The pids a process table lists, in order.
pub open spec fn pids_of(table: Seq<(u32, Option<u32>)>) -> Seq<u32> {
    table.map_values(|e: (u32, Option<u32>)| e.0)
}

/// A list of distinct pids, each the root or listed, is no longer than the
/// table plus one.
proof fn lemma_tree_bound(table: Seq<(u32, Option<u32>)>, root: u32, found: Seq<u32>)
    requires
        found.no_duplicates(),
        forall|i: int| 0 <= i < found.len() ==> found[i] == root || listed(table, #[trigger] found[i]),
    ensures
        found.len() <= table.len() + 1,
{
    broadcast use vstd::seq_lib::seq_to_set_is_finite;
    let ps = pids_of(table);
    let s = ps.to_set().insert(root);
    found.unique_seq_to_set();
    ps.lemma_cardinality_of_set();
    assert forall|x: u32| found.to_set().contains(x) implies s.contains(x) by {
        let i = choose|i: int| 0 <= i < found.len() && found[i] == x;
        if x != root {
            assert(listed(table, found[i]));
            let k = choose|k: int| 0 <= k < table.len() && (#[trigger] table[k]).0 == x;
            assert(ps[k] == x);
            assert(ps.to_set().contains(x));
        }
    }
    vstd::set_lib::lemma_len_subset(found.to_set(), s);
}

/// Whether `v` holds `x`.
fn holds(v: &Vec<u32>, x: u32) -> (r: bool)
    ensures
        r == v@.contains(x),
{
    let mut i: usize = 0;
    while i < v.len()
        invariant
            i <= v.len(),
            forall|m: int| 0 <= m < i ==> v@[m] != x,
        decreases v.len() - i,
    {
        if v[i] == x {
            return true;
        }
        i += 1;
    }
    false
}

/// Every pid in the tree rooted at `root`, the root included, from a process
/// table of `(pid, parent)` pairs. Empty when the root is not listed, which
/// is how a caller learns the tree has exited. A parent cycle, which pid
/// reuse can produce, is walked once.
pub fn tree_pids(table: &[(u32, Option<u32>)], root: u32) -> (r: Vec<u32>)
    ensures
        is_tree(table@, root, r@),
{
    let mut k: usize = 0;
    while k < table.len() && table[k].0 != root
        invariant
            k <= table.len(),
            forall|m: int| 0 <= m < k ==> (#[trigger] table@[m]).0 != root,
        decreases table.len() - k,
    {
        k += 1;
    }
    if k == table.len() {
        return Vec::new();
    }
    assert(table@[k as int].0 == root);
    let mut found: Vec<u32> = vec![root];
    let mut done: usize = 0;
    while done < found.len()
        invariant
            listed(table@, root),
            found@.len() > 0,
            found@[0] == root,
            found@.no_duplicates(),
            done <= found@.len(),
            forall|i: int| 0 <= i < found@.len() ==> found@[i] == root || listed(table@, #[trigger] found@[i]),
            forall|i: int| 0 < i < found@.len() ==> exists|j: int| 0 <= j < i && child_of(table@, #[trigger] found@[i], found@[j]),
            forall|m: int, c: u32| 0 <= m < done && #[trigger] child_of(table@, c, found@[m]) ==> found@.contains(c),
        decreases table@.len() + 1 - done,
    {
        proof {
            lemma_tree_bound(table@, root, found@);
        }
        let p = found[done];
        let mut i: usize = 0;
        while i < table.len()
            invariant
                listed(table@, root),
                found@.len() > 0,
                found@[0] == root,
                found@.no_duplicates(),
                done < found@.len(),
                p == found@[done as int],
                i <= table.len(),
                forall|i2: int| 0 <= i2 < found@.len() ==> found@[i2] == root || listed(table@, #[trigger] found@[i2]),
                forall|i2: int| 0 < i2 < found@.len() ==> exists|j: int| 0 <= j < i2 && child_of(table@, #[trigger] found@[i2], found@[j]),
                forall|m: int, c: u32| 0 <= m < done && #[trigger] child_of(table@, c, found@[m]) ==> found@.contains(c),
                forall|m: int| 0 <= m < i && (#[trigger] table@[m]).1 == Some(p) ==> found@.contains(table@[m].0),
            decreases table.len() - i,
        {
            if table[i].1 == Some(p) {
                let c = table[i].0;
                if !holds(&found, c) {
                    let ghost before = found@;
                    found.push(c);
                    proof {
                        assert(child_of(table@, c, p)) by {
                            assert(table@[i as int].0 == c && table@[i as int].1 == Some(p));
                        }
                        assert(listed(table@, c)) by {
                            assert(table@[i as int].0 == c);
                        }
                        assert forall|i2: int| 0 < i2 < found@.len() implies exists|j: int| 0 <= j < i2 && child_of(table@, #[trigger] found@[i2], found@[j]) by {
                            if i2 < before.len() {
                                assert(found@[i2] == before[i2]);
                                let j = choose|j: int| 0 <= j < i2 && child_of(table@, before[i2], before[j]);
                                assert(found@[j] == before[j]);
                            } else {
                                assert(found@[i2] == c);
                                assert(found@[done as int] == p);
                            }
                        }
                        assert forall|x: u32| before.contains(x) implies found@.contains(x) by {
                            let w = choose|w: int| 0 <= w < before.len() && before[w] == x;
                            assert(found@[w] == x);
                        }
                        assert(found@.contains(c)) by {
                            assert(found@[before.len() as int] == c);
                        }
                        assert forall|a: int, b: int| 0 <= a < b < found@.len() implies found@[a] != found@[b] by {
                            if b == before.len() {
                                if found@[a] == c {
                                    assert(before[a] == c);
                                }
                            }
                        }
                    }
                }
            }
            i += 1;
        }
        proof {
            assert forall|m: int, c: u32| 0 <= m < done + 1 && #[trigger] child_of(table@, c, found@[m]) implies found@.contains(c) by {
                if m == done {
                    let w = choose|w: int| 0 <= w < table@.len() && (#[trigger] table@[w]).0 == c && table@[w].1 == Some(found@[m]);
                    assert(table@[w].1 == Some(p));
                }
            }
        }
        done += 1;
    }
    found
}

/// The retained samples of one run, oldest first, never more than
/// [`HISTORY`] of them: recording past the bound drops the oldest.
#[derive(Debug)]
pub struct History<T> {
    items: Vec<T>,
}

impl<T> View for History<T> {
    type V = Seq<T>;

    closed spec fn view(&self) -> Seq<T> {
        self.items@
    }
}

impl<T> History<T> {
    #[verifier::type_invariant]
    spec fn bounded(self) -> bool {
        self.items@.len() <= HISTORY
    }

    /// An empty history.
    pub fn new() -> (r: History<T>)
        ensures
            r@ == Seq::<T>::empty(),
    {
        History { items: Vec::new() }
    }

    /// Records a sample, dropping the oldest once the bound is reached.
    pub fn record(&mut self, sample: T)
        ensures
            final(self)@ == if old(self)@.len() >= HISTORY {
                old(self)@.drop_first().push(sample)
            } else {
                old(self)@.push(sample)
            },
            final(self)@.len() <= HISTORY,
    {
        proof {
            use_type_invariant(&*self);
        }
        let mut items = Vec::new();
        std::mem::swap(&mut items, &mut self.items);
        if items.len() >= HISTORY {
            items.remove(0);
        }
        items.push(sample);
        let mut next = History { items };
        std::mem::swap(self, &mut next);
    }

    /// The samples, oldest first.
    pub fn samples(&self) -> (r: &[T])
        ensures
            r@ == self@,
            r@.len() <= HISTORY,
    {
        proof {
            use_type_invariant(self);
        }
        self.items.as_slice()
    }

    /// The most recent sample.
    pub fn latest(&self) -> (r: Option<&T>)
        ensures
            match r {
                None => self@.len() == 0,
                Some(x) => self@.len() > 0 && *x == self@.last(),
            },
    {
        if self.items.len() == 0 {
            None
        } else {
            Some(&self.items[self.items.len() - 1])
        }
    }
}

/// However many samples are recorded, a history holds at most the newest
/// [`HISTORY`] of them, the newest last.
pub proof fn history_keeps_the_newest<T>(before: Seq<T>, sample: T)
    requires
        before.len() <= HISTORY,
    ensures
        ({
            let after = if before.len() >= HISTORY {
                before.drop_first().push(sample)
            } else {
                before.push(sample)
            };
            &&& after.len() <= HISTORY
            &&& after.last() == sample
            &&& after.len() == if before.len() >= HISTORY { before.len() } else { before.len() + 1 }
        }),
{
}


// ---------------------------------------------------------------------------
// Totals over a tree
// ---------------------------------------------------------------------------

/// What one live process of a tree reports.
#[derive(Debug, Clone, Copy)]
pub struct ProcessUsage {
    /// Resident memory in bytes.
    pub memory_bytes: u64,
    /// Bytes read from disk.
    pub read_bytes: u64,
    /// Bytes written to disk.
    pub written_bytes: u64,
    /// Threads, where the platform reports them (0 otherwise).
    pub threads: u32,
}

/// The totals over the live processes of a tree.
#[derive(Debug, Clone, Copy)]
pub struct TreeTotals {
    /// Resident memory, summed.
    pub memory_bytes: u64,
    /// Bytes read, summed.
    pub disk_read_bytes: u64,
    /// Bytes written, summed.
    pub disk_write_bytes: u64,
    /// Processes counted.
    pub process_count: u32,
    /// Threads, summed.
    pub thread_count: u32,
}

/// The sum of one reading over the processes.
pub open spec fn usage_sum(procs: Seq<ProcessUsage>, reading: spec_fn(ProcessUsage) -> nat) -> nat
    decreases procs.len(),
{
    if procs.len() == 0 {
        0
    } else {
        usage_sum(procs.drop_last(), reading) + reading(procs.last())
    }
}

/// `n`, or `max` when it is larger.
pub open spec fn at_most(n: nat, max: nat) -> nat {
    if n > max {
        max
    } else {
        n
    }
}

/// Totals a tree's processes. Each total saturates at its type's maximum
/// rather than wrapping.
pub fn tree_totals(procs: &[ProcessUsage]) -> (r: TreeTotals)
    ensures
        r.memory_bytes == at_most(usage_sum(procs@, |p: ProcessUsage| p.memory_bytes as nat), u64::MAX as nat),
        r.disk_read_bytes == at_most(usage_sum(procs@, |p: ProcessUsage| p.read_bytes as nat), u64::MAX as nat),
        r.disk_write_bytes == at_most(usage_sum(procs@, |p: ProcessUsage| p.written_bytes as nat), u64::MAX as nat),
        r.thread_count == at_most(usage_sum(procs@, |p: ProcessUsage| p.threads as nat), u32::MAX as nat),
        r.process_count == at_most(procs@.len(), u32::MAX as nat),
{
    let ghost mem = |p: ProcessUsage| p.memory_bytes as nat;
    let ghost rd = |p: ProcessUsage| p.read_bytes as nat;
    let ghost wr = |p: ProcessUsage| p.written_bytes as nat;
    let ghost th = |p: ProcessUsage| p.threads as nat;
    let mut t = TreeTotals { memory_bytes: 0, disk_read_bytes: 0, disk_write_bytes: 0, process_count: 0, thread_count: 0 };
    let mut i: usize = 0;
    while i < procs.len()
        invariant
            i <= procs.len(),
            mem == (|p: ProcessUsage| p.memory_bytes as nat),
            rd == (|p: ProcessUsage| p.read_bytes as nat),
            wr == (|p: ProcessUsage| p.written_bytes as nat),
            th == (|p: ProcessUsage| p.threads as nat),
            t.memory_bytes == at_most(usage_sum(procs@.take(i as int), mem), u64::MAX as nat),
            t.disk_read_bytes == at_most(usage_sum(procs@.take(i as int), rd), u64::MAX as nat),
            t.disk_write_bytes == at_most(usage_sum(procs@.take(i as int), wr), u64::MAX as nat),
            t.thread_count == at_most(usage_sum(procs@.take(i as int), th), u32::MAX as nat),
            t.process_count == at_most(i as nat, u32::MAX as nat),
        decreases procs.len() - i,
    {
        let p = procs[i];
        assert(procs@.take(i + 1).drop_last() =~= procs@.take(i as int));
        assert(procs@.take(i + 1).last() == p);
        t = TreeTotals {
            memory_bytes: t.memory_bytes.saturating_add(p.memory_bytes),
            disk_read_bytes: t.disk_read_bytes.saturating_add(p.read_bytes),
            disk_write_bytes: t.disk_write_bytes.saturating_add(p.written_bytes),
            process_count: t.process_count.saturating_add(1),
            thread_count: t.thread_count.saturating_add(p.threads),
        };
        i += 1;
    }
    assert(procs@.take(procs.len() as int) =~= procs@);
    t
}

/// Whole seconds from `started_ms` to `now_ms`, never negative.
pub fn uptime_secs(now_ms: i64, started_ms: i64) -> (r: u64)
    ensures
        r == (if now_ms <= started_ms {
            0
        } else {
            ((now_ms - started_ms) / 1000) as u64
        }),
{
    if now_ms <= started_ms {
        return 0;
    }
    let elapsed: i128 = now_ms as i128 - started_ms as i128;
    assert(elapsed <= u64::MAX);
    (elapsed / 1000) as u64
}

} // verus!
