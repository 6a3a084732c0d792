//! Per-app fact readers: turn "the app answered" into "here is what it said".
//!
//! Each reader takes what one app's endpoint or status file returned and
//! picks out the few values worth a tile. Defensive on shape by design: an
//! unexpected payload skips the fact rather than fabricating one.
use vstd::prelude::*;

use crate::command::first_pos;
use crate::probe::{
    json_at, json_len_at, json_len_of, json_member_u64s, json_member_u64s_of, json_u64_at, json_u64_of, json_value_at,
};
use crate::studio::{lines_spec, split_lines};
use crate::supervisor::{find_marker, occurrence_from};
use crate::text::{chars_of, decimal, decimal_chars, is_ws, string_of, trim, trim_chars};

verus! {

broadcast use vstd::string::group_string_axioms;

/// One glanceable fact: a short label, a formatted value, and whether it is
/// a problem worth colouring.
#[derive(Debug, Clone)]
pub struct SurfaceFact {
    /// Display label.
    pub label: String,
    /// Display value, units and all.
    pub value: String,
    /// True when this fact is a problem.
    pub alert: bool,
}

/// A fact as plain values.
pub open spec fn fact_view(f: SurfaceFact) -> (Seq<char>, Seq<char>, bool) {
    (f.label@, f.value@, f.alert)
}

/// Facts as plain values.
pub open spec fn facts_view(v: Seq<SurfaceFact>) -> Seq<(Seq<char>, Seq<char>, bool)> {
    v.map_values(|f: SurfaceFact| fact_view(f))
}

/// Builds a fact.
fn fact(label: &str, value: String, alert: bool) -> (r: SurfaceFact)
    ensures
        fact_view(r) == (label@, value@, alert),
{
    SurfaceFact { label: label.to_owned(), value, alert }
}

// ---------------------------------------------------------------------------
// Origins
// ---------------------------------------------------------------------------

/// The `scheme://host[:port]` prefix of a URL: the scheme before the first
/// `://` (`http` when there is none), then the host up to the first `/`.
pub open spec fn origin_spec(url: Seq<char>) -> Seq<char> {
    let k = occurrence_from(url, "://"@, 0);
    let scheme = if k < 0 { "http"@ } else { url.take(k) };
    let rest = if k < 0 { url } else { url.skip(k + 3) };
    let slash = first_pos(rest, '/');
    let host = if slash < 0 { rest } else { rest.take(slash) };
    scheme + "://"@ + host
}

/// The origin a URL the user typed points at; each reader appends its own
/// well-known endpoint to it.
pub fn origin(url: &str) -> (r: String)
    ensures
        r@ == origin_spec(url@),
{
    proof {
        reveal_strlit("://");
        reveal_strlit("http");
    }
    let u = chars_of(url);
    let sep = chars_of("://");
    let (mut out, rest) = match find_marker(&u, &sep) {
        Some(k) => (crate::text::slice_chars(&u, 0, k), crate::text::slice_chars(&u, k + 3, u.len())),
        None => (chars_of("http"), crate::text::slice_chars(&u, 0, u.len())),
    };
    assert(rest@ =~= (if occurrence_from(url@, "://"@, 0) < 0 {
        url@
    } else {
        url@.skip(occurrence_from(url@, "://"@, 0) + 3)
    }));
    assert(out@ =~= (if occurrence_from(url@, "://"@, 0) < 0 {
        "http"@
    } else {
        url@.take(occurrence_from(url@, "://"@, 0))
    }));
    let mut j: usize = 0;
    while j < rest.len() && rest[j] != '/'
        invariant
            j <= rest.len(),
            forall|m: int| 0 <= m < j ==> rest@[m] != '/',
        decreases rest.len() - j,
    {
        j += 1;
    }
    proof {
        crate::command::lemma_first_pos(rest@, '/', j as int);
    }
    let mut host = crate::text::slice_chars(&rest, 0, j);
    assert(host@ =~= (if first_pos(rest@, '/') < 0 { rest@ } else { rest@.take(first_pos(rest@, '/')) }));
    let mut s = chars_of("://");
    out.append(&mut s);
    out.append(&mut host);
    string_of(&out)
}

// ---------------------------------------------------------------------------
// Ages
// ---------------------------------------------------------------------------

/// How long ago, in the unit that fits: seconds under a minute, minutes
/// under an hour, hours under a day, else days, each rounded down.
pub open spec fn age_spec(secs: nat) -> Seq<char> {
    if secs < 60 {
        decimal(secs) + "s ago"@
    } else if secs < 3600 {
        decimal(secs / 60) + "m ago"@
    } else if secs < 86400 {
        decimal(secs / 3600) + "h ago"@
    } else {
        decimal(secs / 86400) + "d ago"@
    }
}

/// `"3h ago"`, `"12m ago"`, `"45s ago"`.
pub fn human_age(secs: u64) -> (r: String)
    ensures
        r@ == age_spec(secs as nat),
{
    let (n, unit) = if secs < 60 {
        (secs, "s ago")
    } else if secs < 3600 {
        (secs / 60, "m ago")
    } else if secs < 86400 {
        (secs / 3600, "h ago")
    } else {
        (secs / 86400, "d ago")
    };
    let mut out = decimal_chars(n);
    let mut u = chars_of(unit);
    out.append(&mut u);
    string_of(&out)
}

// ---------------------------------------------------------------------------
// Fleet: `GET {origin}/api/health`
// ---------------------------------------------------------------------------

/// A count fact, when the count is there.
pub open spec fn count_fact(label: Seq<char>, n: Option<u64>) -> Seq<(Seq<char>, Seq<char>, bool)> {
    match n {
        Some(v) => seq![(label, decimal(v as nat), false)],
        None => Seq::empty(),
    }
}

/// What Fleet's health body says: active runs, armed schedules, the
/// five-hour window (an alert from 90%), and the number of problems when
/// there are any (always an alert). Liveness is not a fact: the chip says it.
pub open spec fn fleet_spec(body: Seq<char>) -> Seq<(Seq<char>, Seq<char>, bool)> {
    count_fact("Active runs"@, json_u64_of(body, "/activeRuns"@)) + count_fact("Armed"@, json_u64_of(body, "/armed"@))
        + match json_u64_of(body, "/limits/fiveHourPct"@) {
        Some(p) => seq![("5-hour window"@, decimal(p as nat) + "%"@, p >= 90)],
        None => Seq::empty(),
    } + match json_len_of(body, "/problems"@) {
        Some(n) => if n > 0 {
            seq![("Problems"@, decimal(n as nat), true)]
        } else {
            Seq::empty()
        },
        None => Seq::empty(),
    }
}

/// The decimal text of `n`.
fn number(n: u64) -> (r: String)
    ensures
        r@ == decimal(n as nat),
{
    string_of(&decimal_chars(n))
}

/// Pushes a count fact when the count is there.
fn push_count(out: &mut Vec<SurfaceFact>, label: &str, n: Option<u64>)
    ensures
        facts_view(final(out)@) == facts_view(old(out)@) + count_fact(label@, n),
{
    let ghost before = facts_view(out@);
    match n {
        Some(v) => {
            out.push(fact(label, number(v), false));
            assert(facts_view(out@) =~= before + count_fact(label@, n));
        },
        None => {
            assert(facts_view(out@) =~= before + count_fact(label@, n));
        },
    }
}

/// Fleet's facts from its health body, if one came back; a 503 body is read
/// like any other, since that is when it has problems to report.
pub fn fleet_facts(body: Option<&str>) -> (r: Vec<SurfaceFact>)
    ensures
        facts_view(r@) == match body {
            None => Seq::empty(),
            Some(b) => fleet_spec(b@),
        },
{
    let mut out: Vec<SurfaceFact> = Vec::new();
    let b = match body {
        None => {
            assert(facts_view(out@) =~= Seq::<(Seq<char>, Seq<char>, bool)>::empty());
            return out;
        },
        Some(b) => b,
    };
    assert(facts_view(out@) =~= Seq::<(Seq<char>, Seq<char>, bool)>::empty());
    push_count(&mut out, "Active runs", json_u64_at(b, "/activeRuns"));
    push_count(&mut out, "Armed", json_u64_at(b, "/armed"));
    let ghost mid = facts_view(out@);
    match json_u64_at(b, "/limits/fiveHourPct") {
        Some(p) => {
            let mut v = decimal_chars(p);
            v.push('%');
            proof {
                reveal_strlit("%");
            }
            assert(v@ =~= decimal(p as nat) + "%"@);
            out.push(fact("5-hour window", string_of(&v), p >= 90));
        },
        None => {},
    }
    let ghost mid2 = facts_view(out@);
    match json_len_at(b, "/problems") {
        Some(n) => {
            if n > 0 {
                out.push(fact("Problems", number(n as u64), true));
            }
        },
        None => {},
    }
    assert(facts_view(out@) =~= fleet_spec(b@));
    out
}

// ---------------------------------------------------------------------------
// Ollama: `GET {origin}/api/tags` and `GET {origin}/api/ps`
// ---------------------------------------------------------------------------

/// How many models Ollama has installed and how many are loaded, from the
/// two bodies that came back.
pub open spec fn ollama_spec(tags: Option<Seq<char>>, ps: Option<Seq<char>>) -> Seq<(Seq<char>, Seq<char>, bool)> {
    let installed = match tags {
        Some(t) => match json_len_of(t, "/models"@) {
            Some(n) => seq![("Installed"@, decimal(n as nat), false)],
            None => Seq::empty(),
        },
        None => Seq::empty(),
    };
    let loaded = match ps {
        Some(t) => match json_len_of(t, "/models"@) {
            Some(n) => seq![("Loaded"@, decimal(n as nat), false)],
            None => Seq::empty(),
        },
        None => Seq::empty(),
    };
    installed + loaded
}

/// The view of an optional text.
pub open spec fn text_view(t: Option<&str>) -> Option<Seq<char>> {
    match t {
        Some(s) => Some(s@),
        None => None,
    }
}

/// Ollama's facts.
pub fn ollama_facts(tags: Option<&str>, ps: Option<&str>) -> (r: Vec<SurfaceFact>)
    ensures
        facts_view(r@) == ollama_spec(text_view(tags), text_view(ps)),
{
    let mut out: Vec<SurfaceFact> = Vec::new();
    match tags {
        Some(t) => match json_len_at(t, "/models") {
            Some(n) => out.push(fact("Installed", number(n as u64), false)),
            None => {},
        },
        None => {},
    }
    let ghost first = facts_view(out@);
    match ps {
        Some(t) => match json_len_at(t, "/models") {
            Some(n) => out.push(fact("Loaded", number(n as u64), false)),
            None => {},
        },
        None => {},
    }
    assert(facts_view(out@) =~= ollama_spec(text_view(tags), text_view(ps)));
    out
}

// ---------------------------------------------------------------------------
// Lathe: `GET {origin}/health` and `GET {origin}/stats`
// ---------------------------------------------------------------------------

/// The sum of the present values.
pub open spec fn sum_present(v: Seq<Option<u64>>) -> nat
    decreases v.len(),
{
    if v.len() == 0 {
        0
    } else {
        sum_present(v.drop_last()) + match v.last() {
            Some(n) => n as nat,
            None => 0nat,
        }
    }
}

/// `n` capped at `u64::MAX`.
pub open spec fn capped(n: nat) -> u64 {
    if n > u64::MAX {
        u64::MAX
    } else {
        n as u64
    }
}

/// What Lathe says: whether Ollama is up (down is an alert: Lathe still
/// answers but is useless), how many models it has, and the requests summed
/// over every route of its stats (when there were any).
pub open spec fn lathe_spec(health: Option<Seq<char>>, stats: Option<Seq<char>>) -> Seq<(Seq<char>, Seq<char>, bool)> {
    let from_health = match health {
        Some(h) => (if json_value_at(h, "/ollama"@) == Some((2int, "true"@)) {
            seq![("Ollama"@, "up"@, false)]
        } else if json_value_at(h, "/ollama"@) == Some((2int, "false"@)) {
            seq![("Ollama"@, "down"@, true)]
        } else {
            Seq::empty()
        }) + match json_len_of(h, "/models"@) {
            Some(n) => seq![("Models"@, decimal(n as nat), false)],
            None => Seq::empty(),
        },
        None => Seq::empty(),
    };
    let from_stats = match stats {
        Some(t) => match json_member_u64s_of(t, "count"@) {
            Some(v) => if sum_present(v) > 0 {
                seq![("Requests"@, decimal(capped(sum_present(v)) as nat), false)]
            } else {
                Seq::empty()
            },
            None => Seq::empty(),
        },
        None => Seq::empty(),
    };
    from_health + from_stats
}

/// The sum of the present values, capped at `u64::MAX`.
fn total(v: &Vec<Option<u64>>) -> (r: u64)
    ensures
        r == capped(sum_present(v@)),
{
    let mut t: u64 = 0;
    let mut i: usize = 0;
    assert(v@.take(0) =~= Seq::<Option<u64>>::empty());
    while i < v.len()
        invariant
            i <= v.len(),
            t == capped(sum_present(v@.take(i as int))),
        decreases v.len() - i,
    {
        assert(v@.take(i + 1).drop_last() =~= v@.take(i as int));
        match v[i] {
            Some(n) => {
                t = t.saturating_add(n);
            },
            None => {},
        }
        i += 1;
    }
    assert(v@.take(v.len() as int) =~= v@);
    t
}

/// Lathe's facts.
pub fn lathe_facts(health: Option<&str>, stats: Option<&str>) -> (r: Vec<SurfaceFact>)
    ensures
        facts_view(r@) == lathe_spec(text_view(health), text_view(stats)),
{
    proof {
        reveal_strlit("true");
        reveal_strlit("false");
    }
    let mut out: Vec<SurfaceFact> = Vec::new();
    match health {
        Some(h) => {
            match json_at(h, "/ollama") {
                Some((k, t)) => {
                    if k == 2 && crate::text::str_equal(t.as_str(), "true") {
                        out.push(fact("Ollama", "up".to_owned(), false));
                    } else if k == 2 && crate::text::str_equal(t.as_str(), "false") {
                        out.push(fact("Ollama", "down".to_owned(), true));
                    }
                },
                None => {},
            }
            match json_len_at(h, "/models") {
                Some(n) => out.push(fact("Models", number(n as u64), false)),
                None => {},
            }
        },
        None => {},
    }
    let ghost first = facts_view(out@);
    match stats {
        Some(t) => match json_member_u64s(t, "count") {
            Some(v) => {
                let sum = total(&v);
                if sum > 0 {
                    out.push(fact("Requests", number(sum), false));
                }
            },
            None => {},
        },
        None => {},
    }
    assert(facts_view(out@) =~= lathe_spec(text_view(health), text_view(stats)));
    out
}

// ---------------------------------------------------------------------------
// The Pavlok status file
// ---------------------------------------------------------------------------

/// The instant an RFC 3339 timestamp names, in milliseconds since the Unix
/// epoch, when it is one.
pub uninterp spec fn rfc3339_millis_of(text: Seq<char>) -> Option<i64>;

/// Parses `text` with `chrono::DateTime::parse_from_rfc3339` and takes
/// `timestamp_millis`. The contract names the result `rfc3339_millis_of`.
#[verifier::external_body]
fn rfc3339_millis(text: &str) -> (r: Option<i64>)
    ensures
        r == rfc3339_millis_of(text@),
{
    chrono::DateTime::parse_from_rfc3339(text).ok().map(|d| d.timestamp_millis())
}

/// The first line with something on it.
pub open spec fn first_filled(lines: Seq<Seq<char>>) -> Option<Seq<char>>
    decreases lines.len(),
{
    if lines.len() == 0 {
        None
    } else if trim(lines[0]).len() > 0 {
        Some(lines[0])
    } else {
        first_filled(lines.drop_first())
    }
}

/// Position of the first whitespace character, or -1.
pub open spec fn first_ws(s: Seq<char>) -> int
    decreases s.len(),
{
    if s.len() == 0 {
        -1
    } else if is_ws(s[0]) {
        0
    } else {
        let r = first_ws(s.drop_first());
        if r < 0 {
            -1
        } else {
            r + 1
        }
    }
}

/// Whole seconds from `when` to `now` (milliseconds), never negative.
pub open spec fn seconds_since(now_ms: i64, when_ms: i64) -> nat {
    if now_ms <= when_ms {
        0
    } else {
        ((now_ms - when_ms) / 1000) as nat
    }
}

/// What the one status line says: how long ago the alert was, from its
/// leading timestamp, and the event before the `|` (the trailing message is
/// a sentence, not a value). A line that parses as neither says nothing.
pub open spec fn pavlok_spec(text: Seq<char>, now_ms: i64) -> Seq<(Seq<char>, Seq<char>, bool)> {
    match first_filled(lines_spec(text)) {
        None => Seq::empty(),
        Some(line) => {
            let t = trim(line);
            let k = first_ws(t);
            let stamp = if k < 0 { t } else { t.take(k) };
            let rest = if k < 0 { Seq::empty() } else { t.skip(k + 1) };
            let bar = first_pos(rest, '|');
            let event = trim(if bar < 0 { rest } else { rest.take(bar) });
            let age = match rfc3339_millis_of(stamp) {
                Some(w) => seq![("Last alert"@, age_spec(seconds_since(now_ms, w)), false)],
                None => Seq::empty(),
            };
            age + if event.len() > 0 {
                seq![("Event"@, event, false)]
            } else {
                Seq::<(Seq<char>, Seq<char>, bool)>::empty()
            }
        },
    }
}

/// The facts of a Pavlok status file, if it could be read; `now_ms` is the
/// current time in milliseconds since the Unix epoch.
pub fn pavlok_facts(text: Option<&str>, now_ms: i64) -> (r: Vec<SurfaceFact>)
    ensures
        facts_view(r@) == match text {
            None => Seq::empty(),
            Some(t) => pavlok_spec(t@, now_ms),
        },
{
    let mut out: Vec<SurfaceFact> = Vec::new();
    assert(facts_view(out@) =~= Seq::<(Seq<char>, Seq<char>, bool)>::empty());
    let text = match text {
        None => {
            return out;
        },
        Some(t) => t,
    };
    let lines = split_lines(text);
    let ghost ls = crate::command::views(lines@);
    let mut i: usize = 0;
    assert(ls.skip(0) =~= ls);
    while i < lines.len() && trim_chars(&chars_of(lines[i].as_str())).len() == 0
        invariant
            i <= lines.len(),
            ls == crate::command::views(lines@),
            ls == lines_spec(text@),
            first_filled(ls) == first_filled(ls.skip(i as int)),
        decreases lines.len() - i,
    {
        assert(ls.skip(i as int)[0] == lines@[i as int]@);
        assert(ls.skip(i as int).drop_first() =~= ls.skip(i + 1));
        i += 1;
    }
    if i == lines.len() {
        return out;
    }
    assert(ls.skip(i as int)[0] == lines@[i as int]@);
    let t = trim_chars(&chars_of(lines[i].as_str()));
    let mut k: usize = 0;
    while k < t.len() && !crate::text::is_whitespace(t[k])
        invariant
            k <= t.len(),
            forall|m: int| 0 <= m < k ==> !is_ws(t@[m]),
        decreases t.len() - k,
    {
        k += 1;
    }
    proof {
        lemma_first_ws(t@, k as int);
    }
    let stamp = crate::text::slice_chars(&t, 0, k);
    let rest = if k < t.len() {
        crate::text::slice_chars(&t, k + 1, t.len())
    } else {
        Vec::new()
    };
    assert(stamp@ =~= (if first_ws(t@) < 0 { t@ } else { t@.take(first_ws(t@)) }));
    assert(rest@ =~= (if first_ws(t@) < 0 { Seq::<char>::empty() } else { t@.skip(first_ws(t@) + 1) }));
    match rfc3339_millis(string_of(&stamp).as_str()) {
        Some(w) => {
            let secs: u64 = if now_ms <= w {
                0
            } else {
                let d: i128 = (now_ms as i128) - (w as i128);
                (d / 1000) as u64
            };
            assert(secs == seconds_since(now_ms, w));
            out.push(fact("Last alert", human_age(secs), false));
        },
        None => {},
    }
    let ghost mid = facts_view(out@);
    let mut b: usize = 0;
    while b < rest.len() && rest[b] != '|'
        invariant
            b <= rest.len(),
            forall|m: int| 0 <= m < b ==> rest@[m] != '|',
        decreases rest.len() - b,
    {
        b += 1;
    }
    proof {
        crate::command::lemma_first_pos(rest@, '|', b as int);
    }
    let head = crate::text::slice_chars(&rest, 0, b);
    assert(head@ =~= (if first_pos(rest@, '|') < 0 { rest@ } else { rest@.take(first_pos(rest@, '|')) }));
    let event = trim_chars(&head);
    if event.len() > 0 {
        out.push(fact("Event", string_of(&event), false));
    }
    assert(facts_view(out@) =~= pavlok_spec(text@, now_ms));
    out
}

proof fn lemma_first_ws(s: Seq<char>, k: int)
    requires
        0 <= k <= s.len(),
        forall|m: int| 0 <= m < k ==> !is_ws(s[m]),
        k < s.len() ==> is_ws(s[k]),
    ensures
        first_ws(s) == (if k < s.len() { k } else { -1 }),
    decreases k,
{
    if k > 0 {
        lemma_first_ws(s.drop_first(), k - 1);
    }
}


// ---------------------------------------------------------------------------
// FocusForge
// ---------------------------------------------------------------------------

/// FocusForge's priority rule (work before play), its remaining time in
/// whole minutes.
#[derive(Debug, Clone, Copy)]
pub struct FocusGate {
    /// Whether the rule is in force.
    pub enabled: bool,
    /// Whether it has been met.
    pub met: bool,
    /// Minutes of work still owed (0 when not reported).
    pub remaining_min: u32,
}

/// `n` in decimal followed by `suffix`.
pub open spec fn count_text(n: nat, suffix: Seq<char>) -> Seq<char> {
    decimal(n) + suffix
}

/// FocusForge's facts, from durations given in whole minutes: the play
/// credit, the current flow, the priority rule while it is in force (met,
/// or an alert with the minutes left), and today's work as hours and
/// minutes; each only when reported.
pub open spec fn focus_forge_spec(
    balance_min: Option<u32>,
    flow: Option<Seq<char>>,
    gate: Option<FocusGate>,
    work_min: Option<u32>,
) -> Seq<(Seq<char>, Seq<char>, bool)> {
    (match balance_min {
        Some(b) => seq![("Play credit"@, count_text(b as nat, " min"@), false)],
        None => Seq::empty(),
    }) + (match flow {
        Some(f) => seq![("Now"@, f, false)],
        None => Seq::empty(),
    }) + (match gate {
        Some(g) => if !g.enabled {
            Seq::empty()
        } else if g.met {
            seq![("Gate"@, "met"@, false)]
        } else {
            seq![("Gate"@, count_text(g.remaining_min as nat, " min left"@), true)]
        },
        None => Seq::empty(),
    }) + (match work_min {
        Some(m) => seq![("Work today"@, count_text((m / 60) as nat, "h "@) + count_text((m % 60) as nat, "m"@), false)],
        None => Seq::empty(),
    })
}

/// `n` in decimal followed by `suffix`.
fn with_suffix(n: u64, suffix: &str) -> (r: String)
    ensures
        r@ == count_text(n as nat, suffix@),
{
    let mut v = decimal_chars(n);
    let mut t = chars_of(suffix);
    v.append(&mut t);
    string_of(&v)
}

/// Builds FocusForge's facts from its status, durations already rounded to
/// whole minutes.
pub fn focus_forge_facts(
    balance_min: Option<u32>,
    flow: Option<&str>,
    gate: Option<FocusGate>,
    work_min: Option<u32>,
) -> (r: Vec<SurfaceFact>)
    ensures
        facts_view(r@) == focus_forge_spec(
            balance_min,
            match flow {
                Some(f) => Some(f@),
                None => None,
            },
            gate,
            work_min,
        ),
{
    let mut out: Vec<SurfaceFact> = Vec::new();
    let ghost a: Seq<(Seq<char>, Seq<char>, bool)> = Seq::empty();
    if let Some(b) = balance_min {
        let f = fact("Play credit", with_suffix(b as u64, " min"), false);
        out.push(f);
        proof {
            a = seq![("Play credit"@, count_text(b as nat, " min"@), false)];
        }
    }
    assert(facts_view(out@) =~= a);
    let ghost b2 = a;
    if let Some(fl) = flow {
        let f = fact("Now", fl.to_owned(), false);
        out.push(f);
        proof {
            b2 = a + seq![("Now"@, fl@, false)];
        }
    }
    assert(facts_view(out@) =~= b2);
    let ghost c = b2;
    if let Some(g) = gate {
        if g.enabled {
            if g.met {
                let f = fact("Gate", "met".to_owned(), false);
                out.push(f);
                proof {
                    c = b2 + seq![("Gate"@, "met"@, false)];
                }
            } else {
                let f = fact("Gate", with_suffix(g.remaining_min as u64, " min left"), true);
                out.push(f);
                proof {
                    c = b2 + seq![("Gate"@, count_text(g.remaining_min as nat, " min left"@), true)];
                }
            }
        }
    }
    assert(facts_view(out@) =~= c);
    let ghost d = c;
    if let Some(m) = work_min {
        let h = with_suffix((m / 60) as u64, "h ");
        let mm = with_suffix((m % 60) as u64, "m");
        let mut v = chars_of(h.as_str());
        let mut w = chars_of(mm.as_str());
        v.append(&mut w);
        let f = fact("Work today", string_of(&v), false);
        out.push(f);
        proof {
            d = c + seq![("Work today"@, count_text((m / 60) as nat, "h "@) + count_text((m % 60) as nat, "m"@), false)];
        }
    }
    assert(facts_view(out@) =~= d);
    assert(d =~= focus_forge_spec(
        balance_min,
        match flow {
            Some(f) => Some(f@),
            None => None,
        },
        gate,
        work_min,
    ));
    out
}

} // verus!
