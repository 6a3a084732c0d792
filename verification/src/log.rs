//! Log lines, ANSI stripping, and the outcome of a run.
use vstd::prelude::*;

use crate::text::{
    chars_of, chars_contain, chars_start_with, contains_seq, is_ws, lower_ascii_seq, lower_chars,
    starts_with_seq, string_of, trim_start,
};

verus! {

broadcast use vstd::string::group_string_axioms;

/// Which stream a line came from.
#[derive(Debug, Clone, Copy, PartialEq, Eq, Structural)]
pub enum LogStream {
    /// Standard output.
    Stdout,
    /// Standard error.
    Stderr,
    /// Emitted by the supervisor itself rather than the child.
    Deck,
}

/// The short lower-case name of a stream.
pub open spec fn stream_name(s: LogStream) -> Seq<char> {
    match s {
        LogStream::Stdout => "stdout"@,
        LogStream::Stderr => "stderr"@,
        LogStream::Deck => "deck"@,
    }
}

impl LogStream {
    /// Short lower-case name, used as the filter key in the UI.
    pub fn as_str(self) -> (r: &'static str)
        ensures
            r@ == stream_name(self),
    {
        match self {
            LogStream::Stdout => "stdout",
            LogStream::Stderr => "stderr",
            LogStream::Deck => "deck",
        }
    }
}

/// One line of output from a run.
#[derive(Debug, Clone)]
pub struct LogLine {
    /// Monotonic per-run sequence number.
    pub seq: u64,
    /// Which stream produced the line.
    pub stream: LogStream,
    /// Line content, with ANSI escapes preserved.
    pub text: String,
    /// When the line was read, in milliseconds since the Unix epoch.
    pub at_ms: i64,
}

impl LogLine {
    /// A line originating from the supervisor rather than a child.
    pub fn deck(seq: u64, text: String, at_ms: i64) -> (r: LogLine)
        ensures
            r.seq == seq,
            r.stream == LogStream::Deck,
            r.text@ == text@,
            r.at_ms == at_ms,
    {
        LogLine { seq, stream: LogStream::Deck, text, at_ms }
    }

    /// Whether the line looks like an error, for highlighting only.
    ///
    /// Anchored on leading markers, so "0 errors" does not light up.
    pub fn looks_like_error(&self) -> (r: bool)
        ensures
            r == looks_like_error_spec(self.text@),
    {
        let stripped = strip_ansi(self.text.as_str());
        let sv = chars_of(stripped.as_str());
        let mut k: usize = 0;
        assert(sv@.skip(0) =~= sv@);
        while k < sv.len() && crate::text::is_whitespace(sv[k])
            invariant
                k <= sv.len(),
                trim_start(sv@) == trim_start(sv@.skip(k as int)),
            decreases sv.len() - k,
        {
            assert(sv@.skip(k as int).drop_first() =~= sv@.skip(k + 1));
            k += 1;
        }
        let rest = crate::text::slice_chars(&sv, k, sv.len());
        assert(rest@ =~= sv@.skip(k as int));
        assert(trim_start(rest@) == rest@);
        let lower = lower_chars(&rest);
        assert(rest@ == trim_start(sv@));
        assert(lower@ == lower_ascii_seq(trim_start(strip_spec(self.text@))));
        let prefixes = error_prefixes();
        let mut i: usize = 0;
        while i < prefixes.len()
            invariant
                i <= prefixes.len(),
                lower@ == lower_ascii_seq(trim_start(strip_spec(self.text@))),
                prefixes@.map_values(|p: Vec<char>| p@) == error_prefix_seqs(),
                forall|m: int| 0 <= m < i ==> !starts_with_seq(lower@, #[trigger] error_prefix_seqs()[m]),
            decreases prefixes.len() - i,
        {
            assert(prefixes@[i as int]@ == error_prefix_seqs()[i as int]);
            if chars_start_with(&lower, &prefixes[i]) {
                assert(lower@ == lower_ascii_seq(trim_start(strip_spec(self.text@))));
                assert(starts_with_seq(lower@, error_prefix_seqs()[i as int]));
                return true;
            }
            i += 1;
        }
        let b1 = chars_of("[error");
        let b2 = chars_of("[fatal");
        let b3 = chars_of("error ");
        let b4 = chars_of("] error");
        chars_start_with(&lower, &b1) || chars_start_with(&lower, &b2) || chars_start_with(&lower, &b3)
            || chars_contain(&lower, &b4)
    }
}

/// Line prefixes that mark an error.
pub open spec fn error_prefix_seqs() -> Seq<Seq<char>> {
    seq![
        "error"@,
        "error:"@,
        "err!"@,
        "fatal"@,
        "panic"@,
        "exception"@,
        "traceback"@,
        "uncaught"@,
        "unhandled"@,
        "failed"@,
    ]
}

fn error_prefixes() -> (r: Vec<Vec<char>>)
    ensures
        r@.map_values(|p: Vec<char>| p@) == error_prefix_seqs(),
{
    let r = vec![
        chars_of("error"),
        chars_of("error:"),
        chars_of("err!"),
        chars_of("fatal"),
        chars_of("panic"),
        chars_of("exception"),
        chars_of("traceback"),
        chars_of("uncaught"),
        chars_of("unhandled"),
        chars_of("failed"),
    ];
    assert(r@.map_values(|p: Vec<char>| p@) =~= error_prefix_seqs());
    r
}

/// Whether a line, ANSI-stripped, left-trimmed and lower-cased, opens with an
/// error marker or holds a bracketed `] error`.
pub open spec fn looks_like_error_spec(text: Seq<char>) -> bool {
    let lower = lower_ascii_seq(trim_start(strip_spec(text)));
    ||| exists|m: int| 0 <= m < error_prefix_seqs().len() && starts_with_seq(lower, #[trigger] error_prefix_seqs()[m])
    ||| starts_with_seq(lower, "[error"@)
    ||| starts_with_seq(lower, "[fatal"@)
    ||| starts_with_seq(lower, "error "@)
    ||| contains_seq(lower, "] error"@)
}

// ---------------------------------------------------------------------------
// ANSI stripping
// ---------------------------------------------------------------------------

/// Whether `c` ends a CSI sequence.
pub open spec fn is_csi_final(c: char) -> bool {
    '\u{40}' <= c <= '\u{7e}'
}

/// Position of the first CSI final byte in `s`, or -1.
pub open spec fn csi_end(s: Seq<char>) -> int
    decreases s.len(),
{
    if s.len() == 0 {
        -1
    } else if is_csi_final(s[0]) {
        0
    } else {
        let r = csi_end(s.drop_first());
        if r < 0 { -1 } else { r + 1 }
    }
}

/// Position of the first BEL or ESC in `s`, or -1.
pub open spec fn osc_end(s: Seq<char>) -> int
    decreases s.len(),
{
    if s.len() == 0 {
        -1
    } else if s[0] == '\u{7}' || s[0] == '\u{1b}' {
        0
    } else {
        let r = osc_end(s.drop_first());
        if r < 0 { -1 } else { r + 1 }
    }
}

proof fn lemma_csi_end(s: Seq<char>, k: int)
    requires
        0 <= k <= s.len(),
        forall|m: int| 0 <= m < k ==> !is_csi_final(s[m]),
        k < s.len() ==> is_csi_final(s[k]),
    ensures
        csi_end(s) == (if k < s.len() { k } else { -1 }),
    decreases k,
{
    if k > 0 {
        lemma_csi_end(s.drop_first(), k - 1);
    }
}

proof fn lemma_osc_end(s: Seq<char>, k: int)
    requires
        0 <= k <= s.len(),
        forall|m: int| 0 <= m < k ==> s[m] != '\u{7}' && s[m] != '\u{1b}',
        k < s.len() ==> (s[k] == '\u{7}' || s[k] == '\u{1b}'),
    ensures
        osc_end(s) == (if k < s.len() { k } else { -1 }),
    decreases k,
{
    if k > 0 {
        lemma_osc_end(s.drop_first(), k - 1);
    }
}

pub proof fn lemma_ends_bounded(s: Seq<char>)
    ensures
        -1 <= csi_end(s) < s.len(),
        -1 <= osc_end(s) < s.len(),
    decreases s.len(),
{
    if s.len() > 0 {
        lemma_ends_bounded(s.drop_first());
    }
}

/// `s` with CSI sequences (`ESC [ ... final`), OSC sequences (`ESC ] ...`
/// ended by BEL or `ESC \`) and two-character escapes removed.
pub open spec fn strip_spec(s: Seq<char>) -> Seq<char>
    decreases s.len(),
{
    if s.len() == 0 {
        Seq::empty()
    } else if s[0] != '\u{1b}' {
        seq![s[0]] + strip_spec(s.drop_first())
    } else {
        let r = s.drop_first();
        proof {
            lemma_ends_bounded(r.drop_first());
        }
        if r.len() > 0 && r[0] == '[' {
            let body = r.drop_first();
            let k = csi_end(body);
            if k < 0 {
                Seq::empty()
            } else {
                strip_spec(body.skip(k + 1))
            }
        } else if r.len() > 0 && r[0] == ']' {
            let body = r.drop_first();
            let k = osc_end(body);
            if k < 0 {
                Seq::empty()
            } else if body[k] == '\u{1b}' && k + 1 < body.len() && body[k + 1] == '\\' {
                strip_spec(body.skip(k + 2))
            } else {
                strip_spec(body.skip(k + 1))
            }
        } else if r.len() > 0 && (r[0] == 'c' || r[0] == '7' || r[0] == '8' || r[0] == '=' || r[0]
            == '>') {
            strip_spec(r.drop_first())
        } else {
            strip_spec(r)
        }
    }
}

/// Whether `a` is a subsequence of `b`: `b` with some characters left out.
pub open spec fn subsequence(a: Seq<char>, b: Seq<char>) -> bool
    decreases b.len(),
{
    if a.len() == 0 {
        true
    } else if b.len() == 0 {
        false
    } else if a[0] == b[0] && subsequence(a.drop_first(), b.drop_first()) {
        true
    } else {
        subsequence(a, b.drop_first())
    }
}

/// Whether `s` holds no escape character.
pub open spec fn escape_free(s: Seq<char>) -> bool {
    forall|i: int| 0 <= i < s.len() ==> s[i] != '\u{1b}'
}

proof fn lemma_subsequence_of_suffix(a: Seq<char>, b: Seq<char>, k: int)
    requires
        0 <= k <= b.len(),
        subsequence(a, b.skip(k)),
    ensures
        subsequence(a, b),
    decreases k,
{
    if k > 0 {
        assert(b.drop_first().skip(k - 1) =~= b.skip(k));
        lemma_subsequence_of_suffix(a, b.drop_first(), k - 1);
        if a.len() > 0 {
            assert(subsequence(a, b.drop_first()));
        }
    } else {
        assert(b.skip(0) =~= b);
    }
}

proof fn lemma_strip_facts(s: Seq<char>)
    ensures
        escape_free(strip_spec(s)),
        subsequence(strip_spec(s), s),
        escape_free(s) ==> strip_spec(s) == s,
    decreases s.len(),
{
    if s.len() == 0 {
        return;
    }
    let r = s.drop_first();
    lemma_ends_bounded(r.drop_first());
    if s[0] != '\u{1b}' {
        lemma_strip_facts(r);
        let t = strip_spec(r);
        let out = seq![s[0]] + t;
        assert(out.drop_first() =~= t);
        assert(out[0] == s[0]);
        assert(subsequence(out, s));
        assert forall|i: int| 0 <= i < out.len() implies out[i] != '\u{1b}' by {
            if i > 0 {
                assert(out[i] == t[i - 1]);
            }
        }
        if escape_free(s) {
            assert forall|i: int| 0 <= i < r.len() implies r[i] != '\u{1b}' by {
                assert(r[i] == s[i + 1]);
            }
            assert(out =~= s);
        }
    } else {
        assert(!escape_free(s)) by {
            assert(s[0] == '\u{1b}');
        }
        let empty = Seq::<char>::empty();
        if r.len() > 0 && r[0] == '[' {
            let body = r.drop_first();
            let k = csi_end(body);
            if k >= 0 {
                lemma_strip_facts(body.skip(k + 1));
                assert(body.skip(k + 1) =~= s.skip(k + 3));
                lemma_subsequence_of_suffix(strip_spec(body.skip(k + 1)), s, k + 3);
            }
        } else if r.len() > 0 && r[0] == ']' {
            let body = r.drop_first();
            let k = osc_end(body);
            if k >= 0 {
                if body[k] == '\u{1b}' && k + 1 < body.len() && body[k + 1] == '\\' {
                    lemma_strip_facts(body.skip(k + 2));
                    assert(body.skip(k + 2) =~= s.skip(k + 4));
                    lemma_subsequence_of_suffix(strip_spec(body.skip(k + 2)), s, k + 4);
                } else {
                    lemma_strip_facts(body.skip(k + 1));
                    assert(body.skip(k + 1) =~= s.skip(k + 3));
                    lemma_subsequence_of_suffix(strip_spec(body.skip(k + 1)), s, k + 3);
                }
            }
        } else if r.len() > 0 && (r[0] == 'c' || r[0] == '7' || r[0] == '8' || r[0] == '=' || r[0] == '>') {
            lemma_strip_facts(r.drop_first());
            assert(r.drop_first() =~= s.skip(2));
            lemma_subsequence_of_suffix(strip_spec(r.drop_first()), s, 2);
        } else {
            lemma_strip_facts(r);
            assert(r =~= s.skip(1));
            lemma_subsequence_of_suffix(strip_spec(r), s, 1);
        }
        assert(escape_free(empty));
    }
}

/// Stripping leaves no escape character behind, only ever removes
/// characters (the result is a subsequence of the input), leaves text without
/// escapes exactly as it is, and so changes nothing the second time.
pub proof fn stripping_removes_every_escape_and_nothing_else(s: Seq<char>)
    ensures
        escape_free(strip_spec(s)),
        subsequence(strip_spec(s), s),
        escape_free(s) ==> strip_spec(s) == s,
        strip_spec(strip_spec(s)) == strip_spec(s),
{
    lemma_strip_facts(s);
    lemma_strip_facts(strip_spec(s));
}

/// Removes ANSI escape sequences from a string.
pub fn strip_ansi(input: &str) -> (r: String)
    ensures
        r@ == strip_spec(input@),
{
    let t = chars_of(input);
    let n = t.len();
    let mut out: Vec<char> = Vec::new();
    let mut i: usize = 0;
    assert(t@.skip(0) =~= t@);
    assert(Seq::<char>::empty() + strip_spec(t@) =~= strip_spec(t@));
    while i < n
        invariant
            n == t.len(),
            i <= n,
            t@ == input@,
            out@ + strip_spec(t@.skip(i as int)) == strip_spec(t@),
        decreases n - i,
    {
        let ghost s = t@.skip(i as int);
        assert(s[0] == t@[i as int]);
        assert(s.drop_first() =~= t@.skip(i + 1));
        let ch = t[i];
        if ch != '\u{1b}' {
            let ghost o = out@;
            out.push(ch);
            assert(o + (seq![ch] + strip_spec(t@.skip(i + 1))) =~= out@ + strip_spec(t@.skip(i + 1)));
            i += 1;
        } else if i + 1 < n && t[i + 1] == '[' {
            assert(s.drop_first()[0] == t@[i + 1]);
            let ghost body = s.drop_first().drop_first();
            assert(body =~= t@.skip(i + 2));
            let mut j: usize = i + 2;
            while j < n && !('\u{40}' <= t[j] && t[j] <= '\u{7e}')
                invariant
                    i + 2 <= j <= n,
                    n == t.len(),
                    body == t@.skip(i + 2),
                    forall|m: int| i + 2 <= m < j ==> !is_csi_final(t@[m]),
                decreases n - j,
            {
                j += 1;
            }
            proof {
                assert forall|m: int| 0 <= m < j - (i + 2) implies !is_csi_final(body[m]) by {
                    assert(body[m] == t@[m + i + 2]);
                }
                if j < n {
                    assert(body[j - (i + 2)] == t@[j as int]);
                }
                lemma_csi_end(body, j - (i + 2));
            }
            if j >= n {
                assert(t@.skip(n as int) =~= Seq::<char>::empty());
                i = n;
            } else {
                assert(body.skip(j - (i + 2) + 1) =~= t@.skip(j + 1));
                i = j + 1;
            }
        } else if i + 1 < n && t[i + 1] == ']' {
            assert(s.drop_first()[0] == t@[i + 1]);
            let ghost body = s.drop_first().drop_first();
            assert(body =~= t@.skip(i + 2));
            let mut j: usize = i + 2;
            while j < n && t[j] != '\u{7}' && t[j] != '\u{1b}'
                invariant
                    i + 2 <= j <= n,
                    n == t.len(),
                    body == t@.skip(i + 2),
                    forall|m: int| i + 2 <= m < j ==> t@[m] != '\u{7}' && t@[m] != '\u{1b}',
                decreases n - j,
            {
                j += 1;
            }
            proof {
                assert forall|m: int| 0 <= m < j - (i + 2) implies body[m] != '\u{7}' && body[m] != '\u{1b}' by {
                    assert(body[m] == t@[m + i + 2]);
                }
                if j < n {
                    assert(body[j - (i + 2)] == t@[j as int]);
                }
                lemma_osc_end(body, j - (i + 2));
            }
            if j >= n {
                assert(t@.skip(n as int) =~= Seq::<char>::empty());
                i = n;
            } else if t[j] == '\u{1b}' && j + 1 < n && t[j + 1] == '\\' {
                assert(body[j - (i + 2) + 1] == t@[j + 1]);
                assert(body.skip(j - (i + 2) + 2) =~= t@.skip(j + 2));
                i = j + 2;
            } else {
                proof {
                    if j + 1 < n {
                        assert(body[j - (i + 2) + 1] == t@[j + 1]);
                    }
                }
                assert(body.skip(j - (i + 2) + 1) =~= t@.skip(j + 1));
                i = j + 1;
            }
        } else if i + 1 < n && (t[i + 1] == 'c' || t[i + 1] == '7' || t[i + 1] == '8' || t[i + 1]
            == '=' || t[i + 1] == '>') {
            assert(s.drop_first()[0] == t@[i + 1]);
            assert(s.drop_first().drop_first() =~= t@.skip(i + 2));
            i = i + 2;
        } else {
            proof {
                if i + 1 < n {
                    assert(s.drop_first()[0] == t@[i + 1]);
                }
            }
            i = i + 1;
        }
    }
    assert(t@.skip(n as int) =~= Seq::<char>::empty());
    assert(out@ + Seq::<char>::empty() =~= out@);
    string_of(&out)
}

/// How a run ended.
#[derive(Debug, Clone, Copy, PartialEq, Eq, Structural)]
pub enum RunOutcome {
    /// Still going.
    Running,
    /// Exited with code 0.
    Succeeded,
    /// Exited with a non-zero code.
    Failed,
    /// Stopped because the user asked.
    Stopped,
    /// Terminated after ignoring a graceful stop.
    Killed,
    /// Could not be started at all.
    FailedToStart,
    /// The run's end was never recorded.
    Interrupted,
}

impl RunOutcome {
    /// Whether this outcome is an unwanted ending; a requested stop is not.
    pub fn is_failure(self) -> (r: bool)
        ensures
            r <==> (self == RunOutcome::Failed || self == RunOutcome::FailedToStart),
    {
        match self {
            RunOutcome::Failed | RunOutcome::FailedToStart => true,
            _ => false,
        }
    }

    /// Whether the run has finished.
    pub fn is_terminal(self) -> (r: bool)
        ensures
            r <==> self != RunOutcome::Running,
    {
        match self {
            RunOutcome::Running => false,
            _ => true,
        }
    }
}

} // verus!
