//! What the supervisor decides: whether a start or stop may go ahead, how
//! a program is spawned, when a stopping process is flooding instead of
//! exiting, how a run ended, and why it exited.
//!
//! A bare "exit code 1" tells the user nothing. Port conflicts and missing
//! modules are the common causes, and both announce themselves in the log.
//! This only ever adds an explanation; it never changes an exit status.
use vstd::prelude::*;

use crate::command::{first_pos, views, Lifecycle};
use crate::error::DeckError;
use crate::log::RunOutcome;
use crate::program::{inv_view, Invocation};
use crate::runtime::{RunState, StopMode};
use crate::log::{strip_ansi, strip_spec, LogLine};
use crate::text::{
    chars_contain, chars_of, contains_seq, decimal, decimal_chars, digit_value, digits_value,
    is_digit, lower_ascii_seq, lower_chars, occurs_at, string_of, trim, trim_chars, utf8_len,
    utf8_width, char_width,
};

verus! {

broadcast use vstd::string::group_string_axioms;

// ---------------------------------------------------------------------------
// Port numbers in error lines
// ---------------------------------------------------------------------------

/// The port a finished run of digits names, if it is a plausible service
/// port (two or more digits, a `u16`, at least 80); otherwise `best` stands.
pub open spec fn settle(d: Seq<char>, best: Option<u16>) -> Option<u16> {
    if d.len() >= 2 && 80 <= digits_value(d) <= 65535 {
        Some(digits_value(d) as u16)
    } else {
        best
    }
}

/// The last plausible port among the digit runs of `s[i..]`, given the digits
/// `d` of the run being read and the best port found so far.
pub open spec fn port_scan(s: Seq<char>, i: int, d: Seq<char>, best: Option<u16>) -> Option<u16>
    decreases s.len() - i,
{
    if i < 0 || i >= s.len() {
        settle(d, best)
    } else if is_digit(s[i]) {
        port_scan(s, i + 1, d.push(s[i]), best)
    } else {
        port_scan(s, i + 1, Seq::empty(), settle(d, best))
    }
}

/// Pulls a port number out of an error line: the `3000` of `127.0.0.1:3000`,
/// the `5173` of `port 5173`. Numbers below 80 and single digits are skipped;
/// of several candidates the last wins.
pub fn extract_port(text: &str) -> (r: Option<u16>)
    ensures
        r == port_scan(text@, 0, Seq::empty(), None),
{
    let v = chars_of(text);
    let ghost mut d: Seq<char> = Seq::empty();
    let mut dlen: usize = 0;
    let mut val: u32 = 0;
    let mut best: Option<u16> = None;
    let mut i: usize = 0;
    while i < v.len()
        invariant
            i <= v.len(),
            v@ == text@,
            dlen == d.len(),
            dlen <= i,
            digits_value(d) >= 0,
            digits_value(d) <= 65535 ==> val == digits_value(d),
            digits_value(d) > 65535 ==> val == 65536,
            port_scan(text@, 0, Seq::empty(), None) == port_scan(v@, i as int, d, best),
        decreases v.len() - i,
    {
        let c = v[i];
        if '0' <= c && c <= '9' {
            let dig: u32 = (c as u32) - ('0' as u32);
            proof {
                assert(digit_value(c) == dig);
                assert(d.push(c).drop_last() =~= d);
                assert(digits_value(d.push(c)) == digits_value(d) * 10 + dig);
            }
            if val > 65535 {
                val = 65536;
            } else {
                let nv = val * 10 + dig;
                val = if nv > 65535 { 65536 } else { nv };
            }
            proof {
                d = d.push(c);
            }
            dlen += 1;
        } else {
            if dlen >= 2 && val >= 80 && val <= 65535 {
                best = Some(val as u16);
            }
            proof {
                d = Seq::empty();
            }
            dlen = 0;
            val = 0;
        }
        i += 1;
    }
    if dlen >= 2 && val >= 80 && val <= 65535 {
        best = Some(val as u16);
    }
    best
}

// ---------------------------------------------------------------------------
// Quoted names
// ---------------------------------------------------------------------------

/// The first position at or after `k` where `m` occurs in `t`, or -1.
pub open spec fn occurrence_from(t: Seq<char>, m: Seq<char>, k: int) -> int
    decreases t.len() - k + 1,
{
    if k < 0 || k + m.len() > t.len() {
        -1
    } else if occurs_at(t, m, k) {
        k
    } else {
        occurrence_from(t, m, k + 1)
    }
}

/// The first position of a single or double quote in `s`, or -1.
pub open spec fn first_quote(s: Seq<char>) -> int
    decreases s.len(),
{
    if s.len() == 0 {
        -1
    } else if s[0] == '\'' || s[0] == '"' {
        0
    } else {
        let r = first_quote(s.drop_first());
        if r < 0 {
            -1
        } else {
            r + 1
        }
    }
}

/// The quoted word following `marker` in `text`, cut at its first `.` (a
/// submodule failure names the whole path; the installable package is the
/// first segment), when it is non-empty and at most 64 bytes.
pub open spec fn quoted_spec(text: Seq<char>, marker: Seq<char>) -> Option<Seq<char>> {
    let k = occurrence_from(text, marker, 0);
    if k < 0 {
        None
    } else {
        let rest = text.skip(k + marker.len());
        let q = first_quote(rest);
        if q < 0 {
            None
        } else {
            let inner = rest.skip(q + 1);
            let e = first_pos(inner, rest[q]);
            if e < 0 {
                None
            } else {
                let name = trim(inner.take(e));
                let dot = first_pos(name, '.');
                let head = if dot < 0 { name } else { name.take(dot) };
                if head.len() > 0 && utf8_len(head) <= 64 {
                    Some(head)
                } else {
                    None
                }
            }
        }
    }
}

proof fn lemma_first_quote(s: Seq<char>, k: int)
    requires
        0 <= k <= s.len(),
        forall|m: int| 0 <= m < k ==> s[m] != '\'' && s[m] != '"',
        k < s.len() ==> (s[k] == '\'' || s[k] == '"'),
    ensures
        first_quote(s) == (if k < s.len() { k } else { -1 }),
    decreases k,
{
    if k > 0 {
        lemma_first_quote(s.drop_first(), k - 1);
    }
}

proof fn lemma_occurrence(t: Seq<char>, m: Seq<char>, k: int, found: int)
    requires
        0 <= k,
        found >= -1,
        forall|j: int| k <= j < found ==> !occurs_at(t, m, j),
        found == -1 ==> forall|j: int| k <= j && j + m.len() <= t.len() ==> !occurs_at(t, m, j),
        found >= 0 ==> k <= found && occurs_at(t, m, found),
    ensures
        occurrence_from(t, m, k) == found,
    decreases t.len() - k + 1,
{
    if k + m.len() <= t.len() && !occurs_at(t, m, k) {
        lemma_occurrence(t, m, k + 1, found);
    } else if k + m.len() <= t.len() {
        if found == -1 {
            assert(!occurs_at(t, m, k));
        } else if found > k {
            assert(!occurs_at(t, m, k));
        }
    } else {
        if found >= 0 {
            assert(!occurs_at(t, m, found));
        }
    }
}

/// The first position where `m` occurs in `t`.
pub(crate) fn find_marker(t: &Vec<char>, m: &Vec<char>) -> (r: Option<usize>)
    ensures
        match r {
            None => occurrence_from(t@, m@, 0) == -1,
            Some(k) => occurrence_from(t@, m@, 0) == k && k + m.len() <= t.len(),
        },
{
    if m.len() > t.len() {
        proof {
            lemma_occurrence(t@, m@, 0, -1);
        }
        return None;
    }
    let last = t.len() - m.len();
    let mut k: usize = 0;
    loop
        invariant
            m.len() <= t.len(),
            last == t.len() - m.len(),
            k <= last,
            forall|j: int| 0 <= j < k ==> !occurs_at(t@, m@, j),
        decreases last - k,
    {
        if crate::text::chars_occur_at(t, m, k) {
            proof {
                lemma_occurrence(t@, m@, 0, k as int);
            }
            return Some(k);
        }
        if k == last {
            proof {
                lemma_occurrence(t@, m@, 0, -1);
            }
            return None;
        }
        k += 1;
    }
}

/// The number of UTF-8 bytes in `v`.
fn byte_len(v: &[char]) -> (r: usize)
    requires
        v.len() <= 64,
    ensures
        r == utf8_len(v@),
{
    let mut n: usize = 0;
    let mut i: usize = 0;
    while i < v.len()
        invariant
            i <= v.len() <= 64,
            n == utf8_len(v@.take(i as int)),
            n <= 4 * i,
        decreases v.len() - i,
    {
        assert(v@.take(i + 1).drop_last() =~= v@.take(i as int));
        n += char_width(v[i]);
        i += 1;
    }
    assert(v@.take(v.len() as int) =~= v@);
    n
}

/// The quoted word following `marker`: Python quotes a missing module's name
/// (`No module named 'mutagen'`), the only part of that message worth
/// repeating back.
pub fn quoted_after(text: &str, marker: &str) -> (r: Option<String>)
    ensures
        match quoted_spec(text@, marker@) {
            None => r is None,
            Some(n) => r matches Some(s) && s@ == n,
        },
{
    let t = chars_of(text);
    let m = chars_of(marker);
    let k = match find_marker(&t, &m) {
        None => {
            return None;
        },
        Some(k) => k,
    };
    let start = k + m.len();
    let rest = crate::text::slice_chars(&t, start, t.len());
    assert(rest@ =~= t@.skip(start as int));
    let mut q: usize = 0;
    while q < rest.len() && rest[q] != '\'' && rest[q] != '"'
        invariant
            q <= rest.len(),
            forall|j: int| 0 <= j < q ==> rest@[j] != '\'' && rest@[j] != '"',
        decreases rest.len() - q,
    {
        q += 1;
    }
    proof {
        lemma_first_quote(rest@, q as int);
    }
    if q == rest.len() {
        return None;
    }
    let quote = rest[q];
    let inner = crate::text::slice_chars(&rest, q + 1, rest.len());
    assert(inner@ =~= rest@.skip(q + 1));
    let mut e: usize = 0;
    while e < inner.len() && inner[e] != quote
        invariant
            e <= inner.len(),
            forall|j: int| 0 <= j < e ==> inner@[j] != quote,
        decreases inner.len() - e,
    {
        e += 1;
    }
    proof {
        crate::command::lemma_first_pos(inner@, quote, e as int);
    }
    if e == inner.len() {
        return None;
    }
    let raw = crate::text::slice_chars(&inner, 0, e);
    assert(raw@ =~= inner@.take(e as int));
    let name = trim_chars(&raw);
    let mut dot: usize = 0;
    while dot < name.len() && name[dot] != '.'
        invariant
            dot <= name.len(),
            forall|j: int| 0 <= j < dot ==> name@[j] != '.',
        decreases name.len() - dot,
    {
        dot += 1;
    }
    proof {
        crate::command::lemma_first_pos(name@, '.', dot as int);
    }
    let head = crate::text::slice_chars(&name, 0, dot);
    assert(dot == name.len() ==> head@ =~= name@);
    assert(dot < name.len() ==> head@ =~= name@.take(dot as int));
    if head.len() == 0 || head.len() > 64 {
        proof {
            if head.len() > 64 {
                lemma_utf8_len_at_least(head@);
            }
        }
        return None;
    }
    if byte_len(&head) > 64 {
        return None;
    }
    Some(string_of(&head))
}

proof fn lemma_utf8_len_at_least(s: Seq<char>)
    ensures
        utf8_len(s) >= s.len(),
    decreases s.len(),
{
    if s.len() > 0 {
        lemma_utf8_len_at_least(s.drop_last());
    }
}


// ---------------------------------------------------------------------------
// Exit reasons
// ---------------------------------------------------------------------------

/// How many of the newest log lines are searched for a reason.
pub const REASON_WINDOW: usize = 60;

/// The explanation one normalised (ANSI-stripped, ASCII-lower-cased) log line
/// gives for a failed exit, if any.
pub open spec fn line_reason(t: Seq<char>) -> Option<Seq<char>> {
    if contains_seq(t, "eaddrinuse"@) || contains_seq(t, "address already in use"@) || contains_seq(
        t,
        "only one usage of each socket address"@,
    ) || (contains_seq(t, "port"@) && contains_seq(t, "already in use"@)) {
        Some(
            match port_scan(t, 0, Seq::empty(), None) {
                Some(p) => "port "@ + decimal(p as nat) + " is already in use"@,
                None => "a port it needs is already in use"@,
            },
        )
    } else if contains_seq(t, "no module named"@) {
        Some(
            match quoted_spec(t, "no module named"@) {
                Some(m) => "the Python module `"@ + m + "` is not installed"@,
                None => "a Python module it imports is not installed"@,
            },
        )
    } else if contains_seq(t, "cannot find module"@) || contains_seq(t, "module not found"@) {
        Some("a dependency is missing -- try Install"@)
    } else if contains_seq(t, "command not found"@) || contains_seq(t, "is not recognized as"@) {
        Some("the command is not installed or not on PATH"@)
    } else if contains_seq(t, "permission denied"@) || contains_seq(t, "access is denied"@) {
        Some("permission denied"@)
    } else if contains_seq(t, "out of memory"@) || contains_seq(t, "heap out of memory"@) {
        Some("the process ran out of memory"@)
    } else {
        None
    }
}

/// A log line as the reason heuristics read it.
pub open spec fn normalised(text: Seq<char>) -> Seq<char> {
    lower_ascii_seq(strip_spec(text))
}

/// The reason given by the newest of `tail[stop..k]` that gives one.
pub open spec fn reason_back(tail: Seq<LogLine>, k: int, stop: int) -> Option<Seq<char>>
    decreases k - stop,
{
    if k <= stop || k <= 0 {
        None
    } else {
        match line_reason(normalised(tail[k - 1].text@)) {
            Some(r) => Some(r),
            None => reason_back(tail, k - 1, stop),
        }
    }
}

/// Why a run exited, from the newest [`REASON_WINDOW`] lines of its log;
/// nothing for a clean exit.
pub open spec fn exit_reason_spec(tail: Seq<LogLine>, exit_code: Option<i32>) -> Option<Seq<char>> {
    if exit_code == Some(0i32) {
        None
    } else {
        reason_back(tail, tail.len() as int, if tail.len() > REASON_WINDOW { tail.len() - REASON_WINDOW } else { 0 })
    }
}

/// Whether a normalised line reports a port already taken.
pub open spec fn reports_port_clash(t: Seq<char>) -> bool {
    contains_seq(t, "eaddrinuse"@) || contains_seq(t, "address already in use"@) || contains_seq(
        t,
        "only one usage of each socket address"@,
    ) || (contains_seq(t, "port"@) && contains_seq(t, "already in use"@))
}

/// Whether a normalised line reports a missing dependency: a Python module,
/// a Node module, or a program that is not installed.
pub open spec fn reports_missing_piece(t: Seq<char>) -> bool {
    contains_seq(t, "no module named"@) || contains_seq(t, "cannot find module"@) || contains_seq(
        t,
        "module not found"@,
    ) || contains_seq(t, "command not found"@) || contains_seq(t, "is not recognized as"@)
}

/// Whether a normalised line reports a permission failure.
pub open spec fn reports_permission_failure(t: Seq<char>) -> bool {
    contains_seq(t, "permission denied"@) || contains_seq(t, "access is denied"@)
}

/// Whether a normalised line reports running out of memory.
pub open spec fn reports_memory_failure(t: Seq<char>) -> bool {
    contains_seq(t, "out of memory"@)
}

/// The diagnosis a log line gives follows what it reports, tried in order:
/// a port clash names the port (or says a port is taken); a missing
/// dependency is named as such; a permission failure is "permission denied";
/// running out of memory says so; a line reporting none of these explains
/// nothing. Every diagnosis is a non-empty sentence.
pub proof fn a_line_is_diagnosed_by_what_it_reports(t: Seq<char>)
    ensures
        reports_port_clash(t) ==> (line_reason(t) matches Some(r) && (r == "a port it needs is already in use"@
            || exists|p: u16| r == "port "@ + decimal(p as nat) + " is already in use"@)),
        !reports_port_clash(t) && contains_seq(t, "no module named"@) ==> (line_reason(t) matches Some(r) && (r
            == "a Python module it imports is not installed"@ || exists|m: Seq<char>| r == "the Python module `"@
            + m + "` is not installed"@)),
        !reports_port_clash(t) && !contains_seq(t, "no module named"@) && (contains_seq(t, "cannot find module"@)
            || contains_seq(t, "module not found"@)) ==> line_reason(t) == Some("a dependency is missing -- try Install"@),
        !reports_port_clash(t) && !contains_seq(t, "no module named"@) && !contains_seq(t, "cannot find module"@)
            && !contains_seq(t, "module not found"@) && (contains_seq(t, "command not found"@) || contains_seq(
            t,
            "is not recognized as"@,
        )) ==> line_reason(t) == Some("the command is not installed or not on PATH"@),
        !reports_port_clash(t) && !reports_missing_piece(t) && reports_permission_failure(t) ==> line_reason(t)
            == Some("permission denied"@),
        !reports_port_clash(t) && !reports_missing_piece(t) && !reports_permission_failure(t)
            && reports_memory_failure(t) ==> line_reason(t) == Some("the process ran out of memory"@),
        !reports_port_clash(t) && !reports_missing_piece(t) && !reports_permission_failure(t)
            && !reports_memory_failure(t) ==> line_reason(t) is None,
{
    if reports_port_clash(t) {
        match port_scan(t, 0, Seq::empty(), None) {
            Some(p) => {
                assert(line_reason(t) == Some("port "@ + decimal(p as nat) + " is already in use"@));
            },
            None => {},
        }
    } else if contains_seq(t, "no module named"@) {
        match quoted_spec(t, "no module named"@) {
            Some(m) => {
                assert(line_reason(t) == Some("the Python module `"@ + m + "` is not installed"@));
            },
            None => {},
        }
    } else if !reports_missing_piece(t) && !reports_permission_failure(t) && !reports_memory_failure(t) {
        assert(!contains_seq(t, "heap out of memory"@)) by {
            if contains_seq(t, "heap out of memory"@) {
                let i = choose|i: int| crate::text::occurs_at(t, "heap out of memory"@, i);
                lemma_heap_is_out_of_memory(t, i);
            }
        }
    }
}

proof fn lemma_heap_is_out_of_memory(t: Seq<char>, i: int)
    requires
        crate::text::occurs_at(t, "heap out of memory"@, i),
    ensures
        contains_seq(t, "out of memory"@),
{
    reveal_strlit("heap out of memory");
    reveal_strlit("out of memory");
    let h = "heap out of memory"@;
    assert(t.subrange(i, i + 18) == h);
    assert(t.subrange(i + 5, i + 18) =~= h.subrange(5, 18));
    assert(h.subrange(5, 18) =~= "out of memory"@);
    assert(crate::text::occurs_at(t, "out of memory"@, i + 5));
}

/// A failed exit is explained by the newest line of its log, among the
/// newest [`REASON_WINDOW`], that explains anything: when line `j` is that
/// line, its diagnosis is the run's (so such a line reporting only a
/// permission failure gives "permission denied"); a log whose newest
/// [`REASON_WINDOW`] lines explain nothing gives none, whatever older lines
/// say, and a clean exit is never diagnosed.
pub proof fn a_failed_exit_takes_the_newest_diagnosis(tail: Seq<LogLine>, exit_code: Option<i32>, j: int)
    ensures
        exit_code == Some(0i32) ==> exit_reason_spec(tail, exit_code) is None,
        ({
            &&& exit_code != Some(0i32)
            &&& 0 <= j < tail.len()
            &&& tail.len() - j <= REASON_WINDOW
            &&& forall|k: int| j < k < tail.len() ==> line_reason(normalised(#[trigger] tail[k].text@)) is None
        } ==> {
            let t = normalised(tail[j].text@);
            &&& line_reason(t) is Some ==> exit_reason_spec(tail, exit_code) == line_reason(t)
            &&& !reports_port_clash(t) && !reports_missing_piece(t) && reports_permission_failure(t)
                ==> exit_reason_spec(tail, exit_code) == Some("permission denied"@)
        }),
        exit_code != Some(0i32) && (forall|k: int|
            0 <= k < tail.len() && tail.len() - k <= REASON_WINDOW ==> line_reason(normalised(#[trigger] tail[k].text@))
                is None) ==> exit_reason_spec(tail, exit_code) is None,
{
    if exit_code != Some(0i32) {
        let stop: int = if tail.len() > REASON_WINDOW { tail.len() - REASON_WINDOW } else { 0 };
        if 0 <= j < tail.len() && tail.len() - j <= REASON_WINDOW && forall|k: int|
            j < k < tail.len() ==> line_reason(normalised(#[trigger] tail[k].text@)) is None {
            a_line_is_diagnosed_by_what_it_reports(normalised(tail[j].text@));
            if line_reason(normalised(tail[j].text@)) is Some {
                lemma_reason_back_at(tail, tail.len() as int, stop, j);
            }
        }
        if forall|k: int|
            0 <= k < tail.len() && tail.len() - k <= REASON_WINDOW ==> line_reason(normalised(#[trigger] tail[k].text@))
                is None {
            lemma_reason_back_none(tail, tail.len() as int, stop);
        }
    }
}

proof fn lemma_reason_back_at(tail: Seq<LogLine>, k: int, stop: int, j: int)
    requires
        0 <= stop <= j < k <= tail.len(),
        line_reason(normalised(tail[j].text@)) is Some,
        forall|i: int| j < i < tail.len() ==> line_reason(normalised(#[trigger] tail[i].text@)) is None,
    ensures
        reason_back(tail, k, stop) == line_reason(normalised(tail[j].text@)),
    decreases k - stop,
{
    if k - 1 > j {
        assert(line_reason(normalised(tail[k - 1].text@)) is None);
        lemma_reason_back_at(tail, k - 1, stop, j);
    }
}

proof fn lemma_reason_back_none(tail: Seq<LogLine>, k: int, stop: int)
    requires
        0 <= stop,
        k <= tail.len(),
        forall|j: int| stop <= j < tail.len() ==> line_reason(normalised(#[trigger] tail[j].text@)) is None,
    ensures
        reason_back(tail, k, stop) is None,
    decreases k - stop,
{
    if k > stop && k > 0 {
        assert(line_reason(normalised(tail[k - 1].text@)) is None);
        lemma_reason_back_none(tail, k - 1, stop);
    }
}

/// Whether the normalised line `t` contains `s`.
fn has(t: &Vec<char>, s: &str) -> (r: bool)
    ensures
        r == contains_seq(t@, s@),
{
    chars_contain(t, &chars_of(s))
}

/// The explanation a normalised line gives.
fn reason_for_line(t: &Vec<char>) -> (r: Option<String>)
    ensures
        match line_reason(t@) {
            None => r is None,
            Some(x) => r matches Some(s) && s@ == x,
        },
{
    if has(t, "eaddrinuse") || has(t, "address already in use") || has(t, "only one usage of each socket address")
        || (has(t, "port") && has(t, "already in use")) {
        let text = string_of(t);
        return Some(
            match extract_port(text.as_str()) {
                Some(p) => {
                    let mut v = chars_of("port ");
                    let mut d = decimal_chars(p as u64);
                    v.append(&mut d);
                    let mut tail = chars_of(" is already in use");
                    v.append(&mut tail);
                    string_of(&v)
                },
                None => "a port it needs is already in use".to_owned(),
            },
        );
    }
    if has(t, "no module named") {
        let text = string_of(t);
        return Some(
            match quoted_after(text.as_str(), "no module named") {
                Some(m) => {
                    let mut v = chars_of("the Python module `");
                    let mut mv = chars_of(m.as_str());
                    v.append(&mut mv);
                    let mut tail = chars_of("` is not installed");
                    v.append(&mut tail);
                    string_of(&v)
                },
                None => "a Python module it imports is not installed".to_owned(),
            },
        );
    }
    if has(t, "cannot find module") || has(t, "module not found") {
        return Some("a dependency is missing -- try Install".to_owned());
    }
    if has(t, "command not found") || has(t, "is not recognized as") {
        return Some("the command is not installed or not on PATH".to_owned());
    }
    if has(t, "permission denied") || has(t, "access is denied") {
        return Some("permission denied".to_owned());
    }
    if has(t, "out of memory") || has(t, "heap out of memory") {
        return Some("the process ran out of memory".to_owned());
    }
    None
}

/// Why a run exited, read from the tail of its log (oldest line first):
/// port conflicts (naming the port), missing modules (naming a Python
/// module), missing programs, permissions and memory. The newest line that
/// explains anything wins; a clean exit gets no diagnosis.
pub fn detect_exit_reason(tail: &[LogLine], exit_code: Option<i32>) -> (r: Option<String>)
    ensures
        match exit_reason_spec(tail@, exit_code) {
            None => r is None,
            Some(x) => r matches Some(s) && s@ == x,
        },
{
    if exit_code == Some(0i32) {
        return None;
    }
    let stop: usize = if tail.len() > REASON_WINDOW { tail.len() - REASON_WINDOW } else { 0 };
    let mut k: usize = tail.len();
    while k > stop
        invariant
            stop <= k <= tail.len(),
            exit_code != Some(0i32),
            stop == (if tail.len() > REASON_WINDOW { tail.len() - REASON_WINDOW } else { 0 }),
            exit_reason_spec(tail@, exit_code) == reason_back(tail@, k as int, stop as int),
        decreases k - stop,
    {
        let stripped = strip_ansi(tail[k - 1].text.as_str());
        let t = lower_chars(&chars_of(stripped.as_str()));
        match reason_for_line(&t) {
            Some(r) => {
                return Some(r);
            },
            None => {},
        }
        k -= 1;
    }
    None
}

// ---------------------------------------------------------------------------
// Starting and stopping
// ---------------------------------------------------------------------------

/// Refuses to start a project whose tracked state still has a process.
pub fn check_start(existing: Option<&RunState>, name: &str) -> (r: Result<(), DeckError>)
    ensures
        match existing {
            Some(RunState::Running { pid, .. }) => r matches Err(DeckError::AlreadyRunning { name: n, pid: p })
                && n@ == name@ && p == pid,
            Some(RunState::Stopping { pid }) => r matches Err(DeckError::AlreadyRunning { name: n, pid: p })
                && n@ == name@ && p == pid,
            _ => r is Ok,
        },
{
    match existing {
        Some(state) => match state.pid() {
            Some(pid) => Err(DeckError::AlreadyRunning { name: name.to_owned(), pid }),
            None => Ok(()),
        },
        None => Ok(()),
    }
}

/// The state a stop moves a project to, and how long it may take to exit:
/// a stop needs a process, or one on its way; `id` names the project when
/// there is none.
pub fn begin_stop(current: Option<&RunState>, mode: StopMode, id: &str) -> (r: Result<(RunState, u64), DeckError>)
    ensures
        match current {
            Some(s) if s is Running || s is Stopping || s is Starting || s is Restarting => r matches Ok((next, grace))
                && next == (RunState::Stopping { pid: match *s {
                    RunState::Running { pid, .. } => pid,
                    RunState::Stopping { pid } => pid,
                    _ => 0,
                } }) && grace == match mode {
                    StopMode::Immediate => 0,
                    StopMode::Graceful { grace_ms } => grace_ms,
                },
            _ => r matches Err(DeckError::NotRunning { name }) && name@ == id@,
        },
{
    let state = match current {
        Some(s) => s,
        None => {
            return Err(DeckError::NotRunning { name: id.to_owned() });
        },
    };
    if !(state.is_live() || state.is_transitional()) {
        return Err(DeckError::NotRunning { name: id.to_owned() });
    }
    let pid = match state.pid() {
        Some(p) => p,
        None => 0,
    };
    let grace = match mode {
        StopMode::Immediate => 0,
        StopMode::Graceful { grace_ms } => grace_ms,
    };
    Ok((RunState::Stopping { pid }, grace))
}

// ---------------------------------------------------------------------------
// Spawning
// ---------------------------------------------------------------------------

/// The program and arguments a resolved invocation is spawned with: a real
/// image directly, a batch script as `cmd.exe /c <script> <args>`.
pub open spec fn argv_spec(inv: (bool, Seq<char>), args: Seq<Seq<char>>) -> (Seq<char>, Seq<Seq<char>>) {
    if inv.0 {
        ("cmd.exe"@, seq!["/c"@, inv.1] + args)
    } else {
        (inv.1, args)
    }
}

/// The program and arguments to spawn for a command whose program resolved
/// to `resolved`; a program that did not resolve is reported by name before
/// anything is spawned.
pub fn spawn_argv(program: &str, resolved: Option<Invocation>, args: &Vec<String>) -> (r: Result<(String, Vec<String>), DeckError>)
    ensures
        match resolved {
            None => r matches Err(DeckError::ProgramNotFound { program: p }) && p@ == program@,
            Some(inv) => r matches Ok((p, a)) && (p@, views(a@)) == argv_spec(inv_view(inv), views(args@)),
        },
{
    let inv = match resolved {
        None => {
            return Err(DeckError::ProgramNotFound { program: program.to_owned() });
        },
        Some(i) => i,
    };
    let copied = crate::probe::copy_strings(args);
    match inv {
        Invocation::Direct(path) => Ok((path, copied)),
        Invocation::ViaShell(path) => {
            let mut out: Vec<String> = Vec::new();
            out.push("/c".to_owned());
            out.push(path);
            let ghost head = views(out@);
            let mut rest = copied;
            out.append(&mut rest);
            assert(views(out@) =~= head + views(args@));
            proof {
                reveal_strlit("/c");
            }
            assert(head =~= seq!["/c"@, inv_view(resolved->0).1]);
            Ok(("cmd.exe".to_owned(), out))
        },
    }
}

/// Turns a spawn failure into an error the user can act on: a program that
/// is not there gets its own error; anything else is an I/O failure.
pub fn classify_spawn_error(program: &str, not_found: bool, message: &str) -> (r: DeckError)
    ensures
        not_found ==> (r matches DeckError::ProgramNotFound { program: p } && p@ == program@),
        !not_found ==> (r matches DeckError::Io { context, message: m } && context@ == spawning_context(program@)
            && m@ == message@),
{
    if not_found {
        DeckError::ProgramNotFound { program: program.to_owned() }
    } else {
        let mut c = chars_of("spawning \"");
        proof {
            reveal_strlit("spawning \"");
        }
        let mut p = chars_of(program);
        c.append(&mut p);
        c.push('"');
        DeckError::Io { context: string_of(&c), message: message.to_owned() }
    }
}

/// What was being attempted when a spawn failed.
pub open spec fn spawning_context(program: Seq<char>) -> Seq<char> {
    "spawning \""@ + program + seq!['"']
}

// ---------------------------------------------------------------------------
// A stop that floods instead of exiting
// ---------------------------------------------------------------------------

/// The length of one observation window, in milliseconds.
pub const RUNAWAY_WINDOW_MS: u64 = 100;

/// Lines per window that count as flooding when two windows in a row see it.
pub const RUNAWAY_LINES_PER_WINDOW: u64 = 200;

/// Lines in one window past anything a final flush produces.
pub const RUNAWAY_LINES_IMMEDIATE: u64 = 2000;

/// Watches how much a stopping process writes, one window at a time.
///
/// A process asked to stop that floods its output is not shutting down, so
/// waiting out the grace period only costs megabytes. One noisy window is
/// allowed (a final flush is legitimate); two in a row, or one past anything
/// a flush can be, is flooding.
#[derive(Debug, Clone, Copy)]
pub struct FloodWatch {
    /// The line count at the end of the previous window.
    pub last: u64,
    /// Consecutive noisy windows seen, at most two.
    pub floods: u32,
}

/// What one window shows: the watch after it, and whether the process is
/// flooding.
pub open spec fn flood_step(w: FloodWatch, total: u64) -> (FloodWatch, bool) {
    let produced = total - w.last;
    if produced >= RUNAWAY_LINES_IMMEDIATE {
        (FloodWatch { last: total, floods: w.floods }, true)
    } else if produced >= RUNAWAY_LINES_PER_WINDOW {
        let f: u32 = if w.floods < 2 { (w.floods + 1) as u32 } else { 2 };
        (FloodWatch { last: total, floods: f }, f >= 2)
    } else {
        (FloodWatch { last: total, floods: 0 }, false)
    }
}

impl FloodWatch {
    /// A watch starting from the current line count.
    pub fn new(total: u64) -> (r: FloodWatch)
        ensures
            r.last == total,
            r.floods == 0,
    {
        FloodWatch { last: total, floods: 0 }
    }

    /// Records the line count at the end of a window; true when the process
    /// is flooding instead of exiting.
    pub fn observe(&mut self, total: u64) -> (r: bool)
        requires
            old(self).last <= total,
        ensures
            (*final(self), r) == flood_step(*old(self), total),
    {
        let produced = total - self.last;
        self.last = total;
        if produced >= RUNAWAY_LINES_IMMEDIATE {
            return true;
        }
        if produced >= RUNAWAY_LINES_PER_WINDOW {
            self.floods = if self.floods < 2 {
                self.floods + 1
            } else {
                2
            };
            self.floods >= 2
        } else {
            self.floods = 0;
            false
        }
    }
}

/// Two noisy windows in a row are flooding, however the count got there;
/// a quiet window clears the suspicion.
pub proof fn two_noisy_windows_are_flooding(w: FloodWatch, t1: u64, t2: u64)
    requires
        w.last <= t1 <= t2,
        t1 - w.last >= RUNAWAY_LINES_PER_WINDOW,
        t2 - t1 >= RUNAWAY_LINES_PER_WINDOW,
    ensures
        flood_step(w, t1).1 || flood_step(flood_step(w, t1).0, t2).1,
        t2 - t1 < RUNAWAY_LINES_PER_WINDOW ==> flood_step(flood_step(w, t1).0, t2).0.floods == 0,
{
}

/// One quiet window is never flooding, and leaves no suspicion behind.
pub proof fn a_quiet_window_is_never_flooding(w: FloodWatch, total: u64)
    requires
        w.last <= total,
        total - w.last < RUNAWAY_LINES_PER_WINDOW,
    ensures
        !flood_step(w, total).1,
        flood_step(w, total).0.floods == 0,
{
}

// ---------------------------------------------------------------------------
// How a run ended
// ---------------------------------------------------------------------------

/// How a run ended. A requested stop is a stop when the exit was clean and a
/// kill otherwise; a task step exiting 0 succeeded; a long-running step that
/// returns on its own with 0 merely stopped (a dev server that returns did
/// not succeed); any other exit failed.
pub open spec fn outcome_spec(stop_requested: bool, exit_code: Option<i32>, step: Lifecycle) -> RunOutcome {
    let clean = exit_code == Some(0i32);
    if stop_requested {
        if clean {
            RunOutcome::Stopped
        } else {
            RunOutcome::Killed
        }
    } else if clean && !(step == Lifecycle::Run || step == Lifecycle::Debug) {
        RunOutcome::Succeeded
    } else if clean {
        RunOutcome::Stopped
    } else {
        RunOutcome::Failed
    }
}

/// Only a clean exit ends a run well. Without a stop request, an exit with
/// any code but 0 (or with no code, killed by a signal) is a failure,
/// whatever the step: a dev server that crashes with code 1 failed. Exit 0
/// is a success for a task step and a stop for a long-running one. With a
/// stop requested, a clean exit is a stop and any other a kill, never a
/// failure.
pub proof fn only_a_clean_exit_ends_well(stop_requested: bool, exit_code: Option<i32>, step: Lifecycle)
    ensures
        !stop_requested && exit_code != Some(0i32) ==> outcome_spec(stop_requested, exit_code, step)
            == RunOutcome::Failed,
        !stop_requested && exit_code == Some(0i32) && (step == Lifecycle::Run || step == Lifecycle::Debug)
            ==> outcome_spec(stop_requested, exit_code, step) == RunOutcome::Stopped,
        !stop_requested && exit_code == Some(0i32) && !(step == Lifecycle::Run || step == Lifecycle::Debug)
            ==> outcome_spec(stop_requested, exit_code, step) == RunOutcome::Succeeded,
        stop_requested ==> outcome_spec(stop_requested, exit_code, step) == (if exit_code == Some(0i32) {
            RunOutcome::Stopped
        } else {
            RunOutcome::Killed
        }),
        (outcome_spec(stop_requested, exit_code, step) == RunOutcome::Failed || outcome_spec(
            stop_requested,
            exit_code,
            step,
        ) == RunOutcome::FailedToStart) <==> (!stop_requested && exit_code != Some(0i32)),
{
}

/// Classifies a finished run.
pub fn exit_outcome(stop_requested: bool, exit_code: Option<i32>, step: Lifecycle) -> (r: RunOutcome)
    ensures
        r == outcome_spec(stop_requested, exit_code, step),
{
    let clean = match exit_code {
        Some(c) => c == 0,
        None => false,
    };
    if stop_requested {
        if clean {
            RunOutcome::Stopped
        } else {
            RunOutcome::Killed
        }
    } else if clean && !step.is_long_running() {
        RunOutcome::Succeeded
    } else if clean {
        RunOutcome::Stopped
    } else {
        RunOutcome::Failed
    }
}

/// The state a finished run leaves: crashed, with the diagnosis, when the
/// outcome is a failure; exited otherwise.
pub fn finished_state(outcome: RunOutcome, exit_code: Option<i32>, at: i64, reason: Option<String>) -> (r: RunState)
    ensures
        (outcome == RunOutcome::Failed || outcome == RunOutcome::FailedToStart) ==> (r matches RunState::Crashed {
            code,
            at: t,
            reason: why,
        } && code == exit_code && t == at && why == reason),
        !(outcome == RunOutcome::Failed || outcome == RunOutcome::FailedToStart) ==> r == (RunState::Exited {
            code: exit_code,
            at,
        }),
{
    if outcome.is_failure() {
        RunState::Crashed { code: exit_code, at, reason }
    } else {
        RunState::Exited { code: exit_code, at }
    }
}

} // verus!
