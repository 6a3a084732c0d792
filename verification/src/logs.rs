//! The in-memory tail of a run's output.
//!
//! Memory is a bounded ring: it keeps a fixed number of recent lines and
//! counts what it dropped, so a viewer can say "1,204 earlier lines" instead
//! of silently losing them. Sequence numbers run over everything ever pushed.
use std::collections::VecDeque;

use vstd::prelude::*;

use crate::log::{LogLine, LogStream};
use crate::text::{chars_of, char_width, string_of, utf8_len, utf8_width};

verus! {

broadcast use vstd::string::group_string_axioms;

/// How many lines the ring holds per run.
pub const RING_CAPACITY: usize = 5000;

/// Longest single line retained, in UTF-8 bytes.
pub const MAX_LINE_BYTES: usize = 16384;

/// The longest prefix of `t` that fits in [`MAX_LINE_BYTES`] bytes.
pub open spec fn fits(t: Seq<char>, k: int) -> bool {
    0 <= k <= t.len() && utf8_len(t.take(k)) <= MAX_LINE_BYTES && (k == t.len() || utf8_len(t.take(k + 1)) > MAX_LINE_BYTES)
}

/// A line as the ring stores it: an over-long line is cut at the last
/// character boundary within [`MAX_LINE_BYTES`] and marked as truncated.
pub open spec fn bounded_text(t: Seq<char>) -> Seq<char> {
    if utf8_len(t) <= MAX_LINE_BYTES {
        t
    } else {
        t.take(choose|k: int| fits(t, k)) + " ... [line truncated]"@
    }
}

proof fn lemma_utf8_take_step(t: Seq<char>, k: int)
    requires
        0 <= k < t.len(),
    ensures
        utf8_len(t.take(k + 1)) == utf8_len(t.take(k)) + utf8_width(t[k]),
{
    assert(t.take(k + 1).drop_last() =~= t.take(k));
}

proof fn lemma_utf8_take_monotone(t: Seq<char>, a: int, b: int)
    requires
        0 <= a <= b <= t.len(),
    ensures
        utf8_len(t.take(a)) + (b - a) <= utf8_len(t.take(b)),
    decreases b - a,
{
    if a < b {
        lemma_utf8_take_monotone(t, a, b - 1);
        lemma_utf8_take_step(t, b - 1);
    }
}

proof fn lemma_fits_unique(t: Seq<char>, k: int, j: int)
    requires
        fits(t, k),
        fits(t, j),
    ensures
        k == j,
{
    if k < j {
        lemma_utf8_take_monotone(t, k + 1, j);
    } else if j < k {
        lemma_utf8_take_monotone(t, j + 1, k);
    }
}

/// `text` bounded to [`MAX_LINE_BYTES`].
pub fn bound_line(text: &str) -> (r: String)
    ensures
        r@ == bounded_text(text@),
{
    let v = chars_of(text);
    let mut k: usize = 0;
    let mut bytes: usize = 0;
    while k < v.len() && bytes + char_width(v[k]) <= MAX_LINE_BYTES
        invariant
            k <= v.len(),
            v@ == text@,
            bytes == utf8_len(v@.take(k as int)),
            bytes <= MAX_LINE_BYTES,
        decreases v.len() - k,
    {
        proof {
            lemma_utf8_take_step(v@, k as int);
        }
        bytes += char_width(v[k]);
        k += 1;
    }
    if k == v.len() {
        assert(v@.take(k as int) =~= v@);
        return string_of(&v);
    }
    proof {
        lemma_utf8_take_step(v@, k as int);
        assert(fits(v@, k as int));
        lemma_utf8_take_monotone(v@, k + 1, v.len() as int);
        assert(v@.take(v.len() as int) =~= v@);
        let c = choose|j: int| fits(v@, j);
        lemma_fits_unique(v@, k as int, c);
    }
    let mut out = crate::text::slice_chars(&v, 0, k);
    let mut tail = chars_of(" ... [line truncated]");
    out.append(&mut tail);
    string_of(&out)
}

/// A copy of a line.
fn copy_line(l: &LogLine) -> (r: LogLine)
    ensures
        r == *l,
{
    LogLine { seq: l.seq, stream: l.stream, text: l.text.clone(), at_ms: l.at_ms }
}

/// The retained lines after `line` joins `kept`: appended, with the oldest
/// evicted first when the ring is full.
pub open spec fn ring_step(kept: Seq<LogLine>, line: LogLine) -> Seq<LogLine> {
    if kept.len() < RING_CAPACITY {
        kept.push(line)
    } else {
        kept.drop_first().push(line)
    }
}

/// The retained lines after each of `lines` joins an empty ring in turn.
pub open spec fn ring_after(lines: Seq<LogLine>) -> Seq<LogLine>
    decreases lines.len(),
{
    if lines.len() == 0 {
        Seq::empty()
    } else {
        ring_step(ring_after(lines.drop_last()), lines.last())
    }
}

/// However many lines a new ring is given, it retains the newest
/// [`RING_CAPACITY`] of them (all of them while there are fewer), oldest
/// first; every other line is counted as dropped. The `k`-th line pushed
/// carries sequence number `k` (see [`LogRing::push`]), so the retained lines
/// are numbered on from the dropped count.
pub proof fn a_ring_keeps_the_newest_lines(lines: Seq<LogLine>)
    ensures
        ring_after(lines).len() == (if lines.len() < RING_CAPACITY { lines.len() } else { RING_CAPACITY as nat }),
        ring_after(lines) == lines.skip(lines.len() - ring_after(lines).len()),
        lines.len() - ring_after(lines).len() == (if lines.len() < RING_CAPACITY {
            0
        } else {
            lines.len() - RING_CAPACITY
        }),
        (forall|k: int| 0 <= k < lines.len() ==> (#[trigger] lines[k]).seq == k) ==> forall|k: int|
            0 <= k < ring_after(lines).len() ==> (#[trigger] ring_after(lines)[k]).seq == lines.len() - ring_after(
                lines,
            ).len() + k,
    decreases lines.len(),
{
    if lines.len() > 0 {
        let init = lines.drop_last();
        a_ring_keeps_the_newest_lines(init);
        let kept = ring_after(init);
        if kept.len() < RING_CAPACITY {
            assert(kept.push(lines.last()) =~= lines.skip(lines.len() - (kept.len() + 1)));
        } else {
            assert(kept.drop_first().push(lines.last()) =~= lines.skip(lines.len() - RING_CAPACITY));
        }
    }
}

/// The retained tail of a run's output, plus its counters.
pub struct LogRing {
    lines: VecDeque<LogLine>,
    next_seq: u64,
    dropped: u64,
}

impl LogRing {
    /// The retained lines, oldest first.
    pub closed spec fn retained(&self) -> Seq<LogLine> {
        self.lines@
    }

    /// How many lines were ever pushed.
    pub closed spec fn pushed(&self) -> nat {
        self.next_seq as nat
    }

    /// How many lines were evicted.
    pub closed spec fn evicted(&self) -> nat {
        self.dropped as nat
    }

    /// The ring never exceeds its capacity, accounts for every line pushed,
    /// and holds consecutive sequence numbers ending at the newest.
    #[verifier::type_invariant]
    spec fn well_formed(self) -> bool {
        &&& self.lines@.len() <= RING_CAPACITY
        &&& self.dropped + self.lines@.len() == self.next_seq
        &&& forall|k: int| 0 <= k < self.lines@.len() ==> (#[trigger] self.lines@[k]).seq == self.dropped + k
    }

    /// An empty ring.
    pub fn new() -> (r: LogRing)
        ensures
            r.retained() == Seq::<LogLine>::empty(),
            r.pushed() == 0,
            r.evicted() == 0,
    {
        LogRing { lines: VecDeque::new(), next_seq: 0, dropped: 0 }
    }

    /// Appends a line, evicting the oldest when full. Returns the stored line,
    /// which carries the next sequence number and the bounded text.
    pub fn push(&mut self, stream: LogStream, text: &str, at_ms: i64) -> (r: LogLine)
        requires
            old(self).pushed() < u64::MAX,
        ensures
            r.seq == old(self).pushed(),
            r.stream == stream,
            r.text@ == bounded_text(text@),
            r.at_ms == at_ms,
            final(self).pushed() == old(self).pushed() + 1,
            final(self).retained() == ring_step(old(self).retained(), r),
            final(self).evicted() + final(self).retained().len() == final(self).pushed(),
            old(self).retained().len() < RING_CAPACITY ==> final(self).retained() == old(self).retained().push(r)
                && final(self).evicted() == old(self).evicted(),
            old(self).retained().len() >= RING_CAPACITY ==> final(self).retained() == old(self).retained().drop_first().push(r)
                && final(self).evicted() == old(self).evicted() + 1,
    {
        proof {
            use_type_invariant(&*self);
        }
        let line = LogLine { seq: self.next_seq, stream, text: bound_line(text), at_ms };
        let out = copy_line(&line);
        let mut ring = LogRing::new();
        std::mem::swap(&mut ring, self);
        proof {
            use_type_invariant(&ring);
        }
        let LogRing { mut lines, next_seq, dropped } = ring;
        let ghost before = lines@;
        let mut dropped = dropped;
        if lines.len() >= RING_CAPACITY {
            lines.pop_front();
            dropped = dropped + 1;
            assert(lines@ =~= before.drop_first());
        }
        lines.push_back(line);
        let next = next_seq + 1;
        proof {
            assert forall|k: int| 0 <= k < lines@.len() implies (#[trigger] lines@[k]).seq == dropped + k by {
                if before.len() >= RING_CAPACITY {
                    if k < lines@.len() - 1 {
                        assert(lines@[k] == before[k + 1]);
                    }
                } else {
                    if k < lines@.len() - 1 {
                        assert(lines@[k] == before[k]);
                    }
                }
            }
        }
        *self = LogRing { lines, next_seq: next, dropped };
        out
    }

    /// Appends a line originating from the supervisor itself.
    pub fn push_deck(&mut self, text: &str, at_ms: i64) -> (r: LogLine)
        requires
            old(self).pushed() < u64::MAX,
        ensures
            r.seq == old(self).pushed(),
            r.stream == LogStream::Deck,
            r.text@ == bounded_text(text@),
            final(self).pushed() == old(self).pushed() + 1,
            old(self).retained().len() < RING_CAPACITY ==> final(self).retained() == old(self).retained().push(r),
            old(self).retained().len() >= RING_CAPACITY ==> final(self).retained() == old(self).retained().drop_first().push(r),
    {
        self.push(LogStream::Deck, text, at_ms)
    }

    /// The retained tail, oldest first.
    pub fn snapshot(&self) -> (r: Vec<LogLine>)
        ensures
            r@ == self.retained(),
            r@.len() <= RING_CAPACITY,
            forall|k: int| 0 <= k < r@.len() ==> (#[trigger] r@[k]).seq == self.evicted() + k,
    {
        proof {
            use_type_invariant(self);
        }
        let mut r: Vec<LogLine> = Vec::new();
        let mut i: usize = 0;
        while i < self.lines.len()
            invariant
                i <= self.lines@.len(),
                r@ == self.lines@.take(i as int),
            decreases self.lines@.len() - i,
        {
            r.push(copy_line(&self.lines[i]));
            assert(self.lines@.take(i + 1) =~= self.lines@.take(i as int).push(self.lines@[i as int]));
            i += 1;
        }
        assert(self.lines@.take(self.lines@.len() as int) =~= self.lines@);
        r
    }

    /// Retained lines with a sequence number at or above `after`, so a
    /// reconnecting viewer can resume without re-fetching everything.
    pub fn since(&self, after: u64) -> (r: Vec<LogLine>)
        ensures
            r@ == self.retained().filter(|l: LogLine| l.seq >= after),
    {
        let ghost pred = |l: LogLine| l.seq >= after;
        let mut r: Vec<LogLine> = Vec::new();
        let mut i: usize = 0;
        assert(self.lines@.take(0).filter(pred) =~= Seq::<LogLine>::empty());
        while i < self.lines.len()
            invariant
                i <= self.lines@.len(),
                pred == (|l: LogLine| l.seq >= after),
                r@ == self.lines@.take(i as int).filter(pred),
            decreases self.lines@.len() - i,
        {
            proof {
                reveal_with_fuel(Seq::<_>::filter, 1);
                assert(self.lines@.take(i + 1).drop_last() =~= self.lines@.take(i as int));
            }
            if self.lines[i].seq >= after {
                r.push(copy_line(&self.lines[i]));
            }
            i += 1;
        }
        assert(self.lines@.take(self.lines@.len() as int) =~= self.lines@);
        r
    }

    /// How many lines have been evicted.
    pub fn dropped_count(&self) -> (r: u64)
        ensures
            r == self.evicted(),
            r + self.retained().len() == self.pushed(),
    {
        proof {
            use_type_invariant(self);
        }
        self.dropped
    }

    /// Total lines ever pushed.
    pub fn total_count(&self) -> (r: u64)
        ensures
            r == self.pushed(),
    {
        self.next_seq
    }
}

} // verus!
