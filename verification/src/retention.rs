//! How much run output is kept on disk.
//!
//! Three bounds, each covering what the others cannot: one run's file stops
//! growing at a size cap; a project keeps only its newest run logs; and the
//! whole log tree is trimmed oldest-first to a total budget, so the run you
//! want to read (almost always the last one) survives.
use vstd::prelude::*;

use crate::path::extension_spec;
use crate::text::{chars_of, decimal, decimal_chars, string_of, utf8_len};

verus! {

broadcast use vstd::string::group_string_axioms;

/// The size at which one run's log file stops growing: 32 MiB.
pub const MAX_FILE_BYTES: u64 = 33554432;

/// The default budget for the whole log tree: 256 MiB.
pub const MAX_TOTAL_LOG_BYTES: u64 = 268435456;

/// How many run logs a project keeps.
pub const LOGS_KEPT_PER_PROJECT: usize = 10;

// ---------------------------------------------------------------------------
// Ordering by age
// ---------------------------------------------------------------------------

/// Whether position `a` comes before `b`: a smaller key, or the same key and
/// a smaller index.
pub open spec fn before(keys: Seq<u128>, a: usize, b: usize) -> bool {
    keys[a as int] < keys[b as int] || (keys[a as int] == keys[b as int] && a < b)
}

/// Whether `r` lists each index of `keys` once, ordered by key, ties in
/// index order.
pub open spec fn ordered_indices(keys: Seq<u128>, r: Seq<usize>) -> bool {
    &&& r.len() == keys.len()
    &&& r.no_duplicates()
    &&& forall|j: int| 0 <= j < r.len() ==> (#[trigger] r[j]) < keys.len()
    &&& forall|a: int, b: int| 0 <= a < b < r.len() ==> before(keys, #[trigger] r[a], #[trigger] r[b])
}

/// The indices of `keys`, ordered by key with ties in index order (a stable
/// sort).
pub fn order_ascending(keys: &[u128]) -> (r: Vec<usize>)
    ensures
        ordered_indices(keys@, r@),
{
    let mut out: Vec<usize> = Vec::new();
    let mut i: usize = 0;
    while i < keys.len()
        invariant
            i <= keys.len(),
            out@.len() == i,
            out@.no_duplicates(),
            forall|j: int| 0 <= j < out@.len() ==> (#[trigger] out@[j]) < i,
            forall|a: int, b: int| 0 <= a < b < out@.len() ==> before(keys@, #[trigger] out@[a], #[trigger] out@[b]),
        decreases keys.len() - i,
    {
        let mut p: usize = 0;
        while p < out.len() && keys[out[p]] <= keys[i]
            invariant
                p <= out@.len(),
                i < keys.len(),
                forall|j: int| 0 <= j < out@.len() ==> (#[trigger] out@[j]) < i,
                forall|j: int| 0 <= j < p ==> keys@[(#[trigger] out@[j]) as int] <= keys@[i as int],
            decreases out.len() - p,
        {
            p += 1;
        }
        let ghost old_out = out@;
        out.insert(p, i);
        proof {
            assert(out@ =~= old_out.insert(p as int, i));
            assert forall|a: int, b: int| 0 <= a < b < out@.len() implies before(keys@, #[trigger] out@[a], #[trigger] out@[b]) by {
                if b < p {
                    assert(out@[a] == old_out[a] && out@[b] == old_out[b]);
                } else if b == p {
                    assert(out@[a] == old_out[a]);
                    assert(keys@[old_out[a] as int] <= keys@[i as int]);
                } else if a < p {
                    assert(out@[a] == old_out[a] && out@[b] == old_out[b - 1]);
                } else if a == p {
                    assert(out@[b] == old_out[b - 1]);
                    if p < old_out.len() {
                        assert(keys@[old_out[p as int] as int] > keys@[i as int]);
                        if b - 1 > p {
                            assert(before(keys@, old_out[p as int], old_out[b - 1]));
                        }
                    }
                } else {
                    assert(out@[a] == old_out[a - 1] && out@[b] == old_out[b - 1]);
                }
            }
            assert forall|a: int, b: int| 0 <= a < b < out@.len() implies out@[a] != out@[b] by {
                if a == p {
                    assert(out@[b] == old_out[b - 1]);
                } else if b == p {
                    assert(out@[a] == old_out[a]);
                } else if a < p && b < p {
                    assert(out@[a] == old_out[a] && out@[b] == old_out[b]);
                } else if a < p {
                    assert(out@[a] == old_out[a] && out@[b] == old_out[b - 1]);
                } else {
                    assert(out@[a] == old_out[a - 1] && out@[b] == old_out[b - 1]);
                }
            }
            assert forall|j: int| 0 <= j < out@.len() implies (#[trigger] out@[j]) < i + 1 by {
                if j < p {
                    assert(out@[j] == old_out[j]);
                } else if j > p {
                    assert(out@[j] == old_out[j - 1]);
                }
            }
        }
        i += 1;
    }
    out
}

// ---------------------------------------------------------------------------
// One project's run logs
// ---------------------------------------------------------------------------

/// Whether a file is a run log: its extension is exactly `log`.
pub open spec fn is_log_file(name: Seq<char>) -> bool {
    extension_spec(name) == Some("log"@)
}

/// The positions of the run logs among `files`, in order.
pub open spec fn log_positions(files: Seq<(u128, Seq<char>)>) -> Seq<usize>
    decreases files.len(),
{
    if files.len() == 0 {
        Seq::empty()
    } else {
        log_positions(files.drop_last()) + if is_log_file(files.last().1) {
            seq![(files.len() - 1) as usize]
        } else {
            Seq::<usize>::empty()
        }
    }
}

/// Age keys that rank the newest first: later times get smaller keys.
pub open spec fn newest_first_keys(files: Seq<(u128, Seq<char>)>, logs: Seq<usize>) -> Seq<u128> {
    logs.map_values(|k: usize| (u128::MAX - files[k as int].0) as u128)
}

/// Which of a project's files to delete so that only its newest `keep` run
/// logs remain, as indices into `files` ((modified time, name) pairs): the
/// run logs ranked newest first (ties in listing order), past the first
/// `keep`. Anything that is not a run log is never chosen.
pub open spec fn prune_choice(files: Seq<(u128, Seq<char>)>, keep: usize, r: Seq<usize>) -> bool {
    let logs = log_positions(files);
    exists|order: Seq<usize>|
        #[trigger] ordered_indices(newest_first_keys(files, logs), order) && r == if keep >= order.len() {
            Seq::empty()
        } else {
            order.skip(keep as int).map_values(|j: usize| logs[j as int])
        }
}

/// The view of a file list.
pub open spec fn files_view(files: Seq<(u128, String)>) -> Seq<(u128, Seq<char>)> {
    files.map_values(|f: (u128, String)| (f.0, f.1@))
}

/// Whether a file is a run log: its extension is exactly `log`.
pub fn is_run_log(name: &str) -> (r: bool)
    ensures
        r == is_log_file(name@),
{
    proof {
        reveal_strlit("log");
    }
    match crate::path::extension(name) {
        Some(e) => crate::text::str_equal(e.as_str(), "log"),
        None => false,
    }
}

/// The run logs of one project to delete, keeping the newest `keep`.
pub fn logs_to_prune(files: &[(u128, String)], keep: usize) -> (r: Vec<usize>)
    ensures
        prune_choice(files_view(files@), keep, r@),
{
    let ghost fv = files_view(files@);
    let mut logs: Vec<usize> = Vec::new();
    let mut keys: Vec<u128> = Vec::new();
    let mut i: usize = 0;
    assert(fv.take(0) =~= Seq::<(u128, Seq<char>)>::empty());
    while i < files.len()
        invariant
            i <= files.len(),
            fv == files_view(files@),
            logs@ == log_positions(fv.take(i as int)),
            keys@ == newest_first_keys(fv, logs@),
            forall|j: int| 0 <= j < logs@.len() ==> (#[trigger] logs@[j]) < i,
        decreases files.len() - i,
    {
        let ghost t = fv.take(i + 1);
        assert(t.drop_last() =~= fv.take(i as int));
        assert(t.last() == (files@[i as int].0, files@[i as int].1@));
        if is_run_log(files[i].1.as_str()) {
            let ghost before = logs@;
            logs.push(i);
            keys.push(u128::MAX - files[i].0);
            assert(logs@ =~= before + seq![i]);
            assert(keys@ =~= newest_first_keys(fv, logs@));
        } else {
            assert(logs@ =~= log_positions(fv.take(i as int)) + Seq::<usize>::empty());
        }
        i += 1;
    }
    assert(fv.take(files.len() as int) =~= fv);
    let order = order_ascending(keys.as_slice());
    let mut out: Vec<usize> = Vec::new();
    let mut j: usize = keep;
    if j > order.len() {
        j = order.len();
    }
    let start = j;
    while j < order.len()
        invariant
            start <= j <= order.len(),
            start == if keep > order@.len() { order@.len() } else { keep as nat },
            out@ == order@.subrange(start as int, j as int).map_values(|x: usize| logs@[x as int]),
            ordered_indices(keys@, order@),
            keys@.len() == logs@.len(),
        decreases order.len() - j,
    {
        let ghost before = out@;
        out.push(logs[order[j]]);
        assert(order@.subrange(start as int, j + 1) =~= order@.subrange(start as int, j as int).push(order@[j as int]));
        assert(out@ =~= order@.subrange(start as int, j + 1).map_values(|x: usize| logs@[x as int]));
        j += 1;
    }
    if keep < order.len() {
        assert(order@.subrange(start as int, order@.len() as int) =~= order@.skip(keep as int));
    } else {
        assert(out@ =~= Seq::<usize>::empty());
    }
    out
}

// ---------------------------------------------------------------------------
// The whole log tree
// ---------------------------------------------------------------------------

/// The sum of the sizes.
pub open spec fn size_sum(sizes: Seq<u64>) -> nat
    decreases sizes.len(),
{
    if sizes.len() == 0 {
        0
    } else {
        size_sum(sizes.drop_last()) + sizes.last() as nat
    }
}

/// The total size of the run logs, capped at `u64::MAX`.
pub fn tree_total(sizes: &[u64]) -> (r: u64)
    ensures
        r == if size_sum(sizes@) > u64::MAX { u64::MAX } else { size_sum(sizes@) as u64 },
{
    let mut t: u64 = 0;
    let mut i: usize = 0;
    assert(sizes@.take(0) =~= Seq::<u64>::empty());
    while i < sizes.len()
        invariant
            i <= sizes.len(),
            t == if size_sum(sizes@.take(i as int)) > u64::MAX { u64::MAX } else { size_sum(sizes@.take(i as int)) as u64 },
        decreases sizes.len() - i,
    {
        assert(sizes@.take(i + 1).drop_last() =~= sizes@.take(i as int));
        t = t.saturating_add(sizes[i]);
        i += 1;
    }
    assert(sizes@.take(sizes.len() as int) =~= sizes@);
    t
}

/// Whether, having reclaimed `reclaimed` of a tree of `total` bytes, the tree
/// is still over `max_total` and the next oldest log should go.
pub fn still_over_budget(total: u64, reclaimed: u64, max_total: u64) -> (r: bool)
    ensures
        r == (total - reclaimed > max_total),
{
    reclaimed < total && total - reclaimed > max_total
}

// ---------------------------------------------------------------------------
// One run's file
// ---------------------------------------------------------------------------

/// The bytes a log line takes in the file: the stream tag, the text, and a
/// fixed-width timestamp with separators and a newline.
pub open spec fn line_cost(stream: Seq<char>, text: Seq<char>) -> int {
    3 + utf8_len(stream) + utf8_len(text) + 25
}

/// What writing one more line to a run's file does.
#[derive(Debug, Clone, Copy, PartialEq, Eq, Structural)]
pub enum FileWrite {
    /// The file is at its cap: note that in the file and stop writing it.
    Cap,
    /// Write the line; the file grows by this many bytes (saturating).
    Write { bytes: u64 },
}

/// The decision for one line, given the bytes already written: at the cap
/// the file is closed with a note (the cap is a ceiling, checked before the
/// write); otherwise the line is written and counted.
pub fn file_write(written: u64, stream: &str, text: &str) -> (r: FileWrite)
    ensures
        written >= MAX_FILE_BYTES ==> r == FileWrite::Cap,
        written < MAX_FILE_BYTES ==> r == (FileWrite::Write {
            bytes: if line_cost(stream@, text@) > u64::MAX { u64::MAX } else { line_cost(stream@, text@) as u64 },
        }),
{
    if written >= MAX_FILE_BYTES {
        return FileWrite::Cap;
    }
    let s = crate::text::utf8_size(stream);
    let t = crate::text::utf8_size(text);
    proof {
        crate::text::lemma_utf8_len_nonneg(stream@);
        crate::text::lemma_utf8_len_nonneg(text@);
    }
    let cost = (28u64).saturating_add(s).saturating_add(t);
    FileWrite::Write { bytes: cost }
}


/// One line of a run's file: its timestamp, the stream in brackets, then the
/// text, so an exported log reads standalone.
pub open spec fn file_line_spec(stamp: Seq<char>, stream: Seq<char>, text: Seq<char>) -> Seq<char> {
    stamp + " ["@ + stream + "] "@ + text
}

/// The note a capped file ends with: the run goes on, its output no longer
/// reaches the disk.
pub open spec fn cap_note_spec(stamp: Seq<char>) -> Seq<char> {
    stamp + " [deck] log file capped at "@ + decimal((MAX_FILE_BYTES / 1048576) as nat)
        + " MiB -- this run is still going, but its output is no longer being written to disk"@
}

/// Appends the characters of `s` to `out`.
fn append_str(out: &mut Vec<char>, s: &str)
    ensures
        final(out)@ == old(out)@ + s@,
{
    let mut v = chars_of(s);
    out.append(&mut v);
}

/// One line of a run's file.
pub fn file_line(stamp: &str, stream: &str, text: &str) -> (r: String)
    ensures
        r@ == file_line_spec(stamp@, stream@, text@),
{
    let mut out: Vec<char> = Vec::new();
    append_str(&mut out, stamp);
    append_str(&mut out, " [");
    append_str(&mut out, stream);
    append_str(&mut out, "] ");
    append_str(&mut out, text);
    assert(out@ =~= file_line_spec(stamp@, stream@, text@));
    string_of(&out)
}

/// The note a capped file ends with.
pub fn cap_note(stamp: &str) -> (r: String)
    ensures
        r@ == cap_note_spec(stamp@),
{
    let mut out: Vec<char> = Vec::new();
    append_str(&mut out, stamp);
    append_str(&mut out, " [deck] log file capped at ");
    let mut n = decimal_chars(MAX_FILE_BYTES / 1048576);
    out.append(&mut n);
    append_str(&mut out, " MiB -- this run is still going, but its output is no longer being written to disk");
    assert(out@ =~= cap_note_spec(stamp@));
    string_of(&out)
}

} // verus!
