//! Prompt Studio's pure logic: filtering a log tail down to the lines worth
//! showing, and merging a hand-off prompt into a repository's `NEXT.md`
//! without destroying what is already there.
use vstd::prelude::*;

use crate::command::views;
use crate::text::{chars_of, contains_seq, str_contains, str_lowercase, string_of, to_lowercase, trim_end};

verus! {

broadcast use vstd::string::group_string_axioms;

/// How many raw lines stand in when no line carries an error mark.
pub const RAW_FALLBACK: usize = 20;

/// One source's tail plus whether its lines carried error marks.
///
/// `matched` false means the lines are a plain raw tail because nothing
/// matched, and must not be labelled as errors.
#[derive(Debug, Clone, PartialEq, Eq)]
pub struct TailReading {
    /// The tail itself, oldest first.
    pub lines: Vec<String>,
    /// Whether the lines carried error marks (rather than being a fallback).
    pub matched: bool,
}

/// The lines of `s` still to come, given the characters `cur` of the line
/// being read: a `\n` ends a line (and a `\r` just before it is dropped); a
/// final line without `\n` counts only if it is not empty. This is what
/// `str::lines` yields.
pub open spec fn lines_from(s: Seq<char>, cur: Seq<char>) -> Seq<Seq<char>>
    decreases s.len(),
{
    if s.len() == 0 {
        if cur.len() == 0 {
            Seq::empty()
        } else {
            seq![cur]
        }
    } else if s[0] == '\n' {
        seq![strip_cr(cur)] + lines_from(s.drop_first(), Seq::empty())
    } else {
        lines_from(s.drop_first(), cur.push(s[0]))
    }
}

/// `l` without one trailing carriage return.
pub open spec fn strip_cr(l: Seq<char>) -> Seq<char> {
    if l.len() > 0 && l.last() == '\r' {
        l.drop_last()
    } else {
        l
    }
}

/// The lines of `s`, as `str::lines` yields them.
pub open spec fn lines_spec(s: Seq<char>) -> Seq<Seq<char>> {
    lines_from(s, Seq::empty())
}

/// Whether a lower-cased line carries one of the error marks. `warn` is
/// deliberately not one: warnings flood real logs.
pub open spec fn has_error_mark(lower: Seq<char>) -> bool {
    ||| contains_seq(lower, "error"@)
    ||| contains_seq(lower, "panic"@)
    ||| contains_seq(lower, "exception"@)
    ||| contains_seq(lower, "fatal"@)
    ||| contains_seq(lower, "failed"@)
    ||| contains_seq(lower, "failure"@)
    ||| contains_seq(lower, "traceback"@)
}

/// Whether a line is error-worthy: its lower-case form carries a mark.
pub open spec fn error_worthy(line: Seq<char>) -> bool {
    has_error_mark(str_lowercase(line))
}

/// The last `n` items of `s` (all of them when there are fewer).
pub open spec fn last_n<T>(s: Seq<T>, n: int) -> Seq<T> {
    if s.len() <= n {
        s
    } else {
        s.skip(s.len() - n)
    }
}

/// The error lines of `text` and whether any matched: up to `max` error-worthy
/// lines, newest last; if none is, the last `min(RAW_FALLBACK, max)` lines.
pub open spec fn error_lines_spec(text: Seq<char>, max: int) -> (Seq<Seq<char>>, bool) {
    let all = lines_spec(text);
    let hits = all.filter(|l: Seq<char>| error_worthy(l));
    if hits.len() == 0 {
        (last_n(all, if max < RAW_FALLBACK { max } else { RAW_FALLBACK as int }), false)
    } else {
        (last_n(hits, max), true)
    }
}

/// The lines of `text`, split as `str::lines` splits them.
pub fn split_lines(text: &str) -> (r: Vec<String>)
    ensures
        views(r@) == lines_spec(text@),
{
    let v = chars_of(text);
    let mut out: Vec<String> = Vec::new();
    let mut cur: Vec<char> = Vec::new();
    let mut i: usize = 0;
    assert(v@.skip(0) =~= v@);
    while i < v.len()
        invariant
            i <= v.len(),
            v@ == text@,
            lines_spec(text@) == views(out@) + lines_from(v@.skip(i as int), cur@),
        decreases v.len() - i,
    {
        let ghost rest = v@.skip(i as int);
        assert(rest[0] == v@[i as int]);
        assert(rest.drop_first() =~= v@.skip(i + 1));
        if v[i] == '\n' {
            let ghost before = views(out@);
            let mut line = cur;
            if line.len() > 0 && line[line.len() - 1] == '\r' {
                line.pop();
            }
            assert(line@ == strip_cr(cur@));
            out.push(string_of(&line));
            assert(views(out@) =~= before.push(strip_cr(cur@)));
            assert(before + (seq![strip_cr(cur@)] + lines_from(v@.skip(i + 1), Seq::empty()))
                =~= before.push(strip_cr(cur@)) + lines_from(v@.skip(i + 1), Seq::empty()));
            cur = Vec::new();
        } else {
            cur.push(v[i]);
        }
        i += 1;
    }
    if cur.len() > 0 {
        let ghost before = views(out@);
        out.push(string_of(&cur));
        assert(views(out@) =~= before.push(cur@));
    } else {
        assert(views(out@) + lines_from(v@.skip(i as int), cur@) =~= views(out@));
    }
    out
}

/// Whether a line is error-worthy.
fn is_error_worthy(line: &str) -> (r: bool)
    ensures
        r == error_worthy(line@),
{
    let lower = to_lowercase(line);
    let l = lower.as_str();
    str_contains(l, "error") || str_contains(l, "panic") || str_contains(l, "exception")
        || str_contains(l, "fatal") || str_contains(l, "failed") || str_contains(l, "failure")
        || str_contains(l, "traceback")
}

/// Copies of the last `n` strings of `s`.
fn tail_of(s: &Vec<String>, n: usize) -> (r: Vec<String>)
    ensures
        views(r@) == last_n(views(s@), n as int),
{
    let start: usize = if s.len() <= n { 0 } else { s.len() - n };
    let mut r: Vec<String> = Vec::new();
    let mut i: usize = start;
    while i < s.len()
        invariant
            start <= i <= s.len(),
            views(r@) == views(s@).subrange(start as int, i as int),
        decreases s.len() - i,
    {
        let ghost before = views(r@);
        r.push(s[i].clone());
        assert(views(r@) =~= before.push(s@[i as int]@));
        assert(views(s@).subrange(start as int, i + 1) =~= views(s@).subrange(start as int, i as int).push(s@[i as int]@));
        i += 1;
    }
    assert(views(s@).subrange(start as int, s.len() as int) =~= last_n(views(s@), n as int));
    r
}

/// The error-worthy tail of `text`: up to `max` lines carrying an error mark,
/// newest last; when none does, the raw tail (at most [`RAW_FALLBACK`] lines)
/// with `matched` false, so the caller can say so.
pub fn error_lines(text: &str, max: usize) -> (r: TailReading)
    ensures
        (views(r.lines@), r.matched) == error_lines_spec(text@, max as int),
{
    let all = split_lines(text);
    let ghost pred = |l: Seq<char>| error_worthy(l);
    let mut hits: Vec<String> = Vec::new();
    let mut i: usize = 0;
    assert(views(all@).take(0).filter(pred) =~= Seq::<Seq<char>>::empty());
    while i < all.len()
        invariant
            i <= all.len(),
            pred == (|l: Seq<char>| error_worthy(l)),
            views(hits@) == views(all@).take(i as int).filter(pred),
        decreases all.len() - i,
    {
        let ghost before = views(hits@);
        proof {
            reveal_with_fuel(Seq::<_>::filter, 1);
            assert(views(all@).take(i + 1).drop_last() =~= views(all@).take(i as int));
        }
        if is_error_worthy(all[i].as_str()) {
            hits.push(all[i].clone());
            assert(views(hits@) =~= before.push(all@[i as int]@));
        }
        i += 1;
    }
    assert(views(all@).take(all.len() as int) =~= views(all@));
    if hits.len() == 0 {
        let n: usize = if max < RAW_FALLBACK { max } else { RAW_FALLBACK };
        TailReading { lines: tail_of(&all, n), matched: false }
    } else {
        TailReading { lines: tail_of(&hits, max), matched: true }
    }
}

/// The heading placed above a handed-off prompt.
pub open spec fn handoff_heading(stamp: Seq<char>) -> Seq<char> {
    "## Handed off from Launch Deck ("@ + stamp + ")"@
}

/// `NEXT.md` after a hand-off: the existing text (trailing whitespace trimmed),
/// a rule, the dated heading and the prompt; or, with no file yet, a fresh
/// `# NEXT` file holding the heading and the prompt.
pub open spec fn handoff_spec(existing: Option<Seq<char>>, prompt: Seq<char>, stamp: Seq<char>) -> Seq<char> {
    match existing {
        Some(body) => trim_end(body) + "\n\n---\n\n"@ + handoff_heading(stamp) + "\n\n"@ + prompt + "\n"@,
        None => "# NEXT\n\n"@ + handoff_heading(stamp) + "\n\n"@ + prompt + "\n"@,
    }
}

/// Appends the characters of `s`.
fn push_str(out: &mut Vec<char>, s: &str)
    ensures
        final(out)@ == old(out)@ + s@,
{
    let mut v = chars_of(s);
    out.append(&mut v);
}

/// Merges a hand-off `prompt` into an existing `NEXT.md`: the backlog above
/// survives untouched and the prompt lands at the bottom under a dated
/// heading. `existing = None` creates the file fresh.
pub fn append_handoff(existing: Option<&str>, prompt: &str, stamp: &str) -> (r: String)
    ensures
        r@ == handoff_spec(
            match existing {
                Some(b) => Some(b@),
                None => None,
            },
            prompt@,
            stamp@,
        ),
{
    let mut out: Vec<char> = Vec::new();
    match existing {
        Some(body) => {
            let b = chars_of(body);
            let mut end: usize = b.len();
            assert(b@.take(end as int) =~= b@);
            while end > 0 && crate::text::is_whitespace(b[end - 1])
                invariant
                    end <= b.len(),
                    b@ == body@,
                    trim_end(b@.take(end as int)) == trim_end(body@),
                decreases end,
            {
                assert(b@.take(end as int).drop_last() =~= b@.take(end - 1));
                end -= 1;
            }
            let mut k: usize = 0;
            while k < end
                invariant
                    k <= end <= b.len(),
                    out@ == b@.take(k as int),
                decreases end - k,
            {
                out.push(b[k]);
                assert(b@.take(k + 1) =~= b@.take(k as int).push(b@[k as int]));
                k += 1;
            }
            assert(trim_end(b@.take(end as int)) == b@.take(end as int));
            push_str(&mut out, "\n\n---\n\n");
        },
        None => {
            push_str(&mut out, "# NEXT\n\n");
        },
    }
    push_str(&mut out, "## Handed off from Launch Deck (");
    push_str(&mut out, stamp);
    push_str(&mut out, ")");
    push_str(&mut out, "\n\n");
    push_str(&mut out, prompt);
    push_str(&mut out, "\n");
    let r = string_of(&out);
    proof {
        match existing {
            Some(b) => {
                assert(r@ =~= handoff_spec(Some(b@), prompt@, stamp@));
            },
            None => {
                assert(r@ =~= handoff_spec(None, prompt@, stamp@));
            },
        }
    }
    r
}


// ---------------------------------------------------------------------------
// The last run's log
// ---------------------------------------------------------------------------

/// Whether a directory entry can be the newest file: it is a regular file
/// whose modification time could be read.
pub open spec fn dated_file(e: (bool, Option<u128>)) -> bool {
    e.0 && e.1 is Some
}

/// The newest file among directory entries, each given as whether it is a
/// regular file and its modification time when readable: the position of a
/// file with the latest time, the last such one on a tie; `None` when no
/// entry qualifies.
pub fn newest_entry(entries: &[(bool, Option<u128>)]) -> (r: Option<usize>)
    ensures
        match r {
            None => forall|j: int| 0 <= j < entries@.len() ==> !dated_file(#[trigger] entries@[j]),
            Some(i) => {
                &&& i < entries@.len()
                &&& dated_file(entries@[i as int])
                &&& forall|j: int|
                    0 <= j < entries@.len() && dated_file(#[trigger] entries@[j]) ==> entries@[j].1.unwrap()
                        <= entries@[i as int].1.unwrap()
                &&& forall|j: int|
                    i < j < entries@.len() && dated_file(#[trigger] entries@[j]) ==> entries@[j].1.unwrap()
                        < entries@[i as int].1.unwrap()
            },
        },
{
    let mut best: Option<usize> = None;
    let mut i: usize = 0;
    while i < entries.len()
        invariant
            i <= entries@.len(),
            match best {
                None => forall|j: int| 0 <= j < i ==> !dated_file(#[trigger] entries@[j]),
                Some(b) => {
                    &&& b < i
                    &&& dated_file(entries@[b as int])
                    &&& forall|j: int|
                        0 <= j < i && dated_file(#[trigger] entries@[j]) ==> entries@[j].1.unwrap()
                            <= entries@[b as int].1.unwrap()
                    &&& forall|j: int|
                        b < j < i && dated_file(#[trigger] entries@[j]) ==> entries@[j].1.unwrap()
                            < entries@[b as int].1.unwrap()
                },
            },
        decreases entries.len() - i,
    {
        let (is_file, modified) = entries[i];
        if is_file {
            if let Some(m) = modified {
                let take = match best {
                    None => true,
                    Some(b) => match entries[b].1 {
                        Some(bm) => m >= bm,
                        None => true,
                    },
                };
                if take {
                    best = Some(i);
                }
            }
        }
        i += 1;
    }
    best
}

/// Where reading the tail of a file of `len` bytes starts so that at most
/// `max_bytes` are read: `None` when the whole file fits.
pub fn tail_start(len: u64, max_bytes: u64) -> (r: Option<u64>)
    ensures
        r == (if len > max_bytes {
            Some((len - max_bytes) as u64)
        } else {
            None
        }),
{
    if len > max_bytes {
        Some(len - max_bytes)
    } else {
        None
    }
}

/// The text of a file's tail: when the read began mid-file (`cut`), the
/// partial first line up to and including the first newline is dropped.
pub open spec fn tail_text_spec(text: Seq<char>, cut: bool) -> Seq<char> {
    let k = crate::manual::find_from(text, 0, '\n');
    if cut && k >= 0 {
        text.skip(k + 1)
    } else {
        text
    }
}

/// The tail text, without the partial first line when the read began
/// mid-file.
pub fn tail_text(text: &str, cut: bool) -> (r: String)
    ensures
        r@ == tail_text_spec(text@, cut),
{
    let v = chars_of(text);
    if !cut {
        return string_of(&v);
    }
    let mut k: usize = 0;
    while k < v.len() && v[k] != '\n'
        invariant
            k <= v.len(),
            v@ == text@,
            crate::manual::find_from(v@, 0, '\n') == crate::manual::find_from(v@, k as int, '\n'),
        decreases v.len() - k,
    {
        k += 1;
    }
    if k == v.len() {
        return string_of(&v);
    }
    let rest = crate::text::slice_chars(&v, k + 1, v.len());
    assert(rest@ =~= v@.skip(k + 1));
    string_of(&rest)
}

} // verus!
