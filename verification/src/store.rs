//! How the store writes lifecycle steps and run outcomes, and reads them back.
//!
//! The stored text is the contract with every database already on disk: a
//! value written must read back as itself, and unknown text is an error
//! rather than a guess.
use vstd::prelude::*;

use crate::command::{all_steps, step_name, Lifecycle};
use crate::error::DeckError;
use crate::log::RunOutcome;
use crate::path::{name_ext, name_extension};
use crate::text::{chars_of, lex_less, lemma_lex_order, order_by_keys, ordered_by_keys, pick, stably_sorted, str_equal, str_less, string_of};
use crate::command::views;

verus! {

broadcast use vstd::string::group_string_axioms;

/// The stored text of a lifecycle step.
pub fn lifecycle_str(step: Lifecycle) -> (r: String)
    ensures
        r@ == step_name(step),
{
    step.as_str().to_owned()
}

/// The step whose stored text is `raw`, if any.
pub open spec fn step_named(raw: Seq<char>) -> Option<Lifecycle> {
    if raw == "install"@ {
        Some(Lifecycle::Install)
    } else if raw == "build"@ {
        Some(Lifecycle::Build)
    } else if raw == "run"@ {
        Some(Lifecycle::Run)
    } else if raw == "debug"@ {
        Some(Lifecycle::Debug)
    } else if raw == "clean"@ {
        Some(Lifecycle::Clean)
    } else if raw == "test"@ {
        Some(Lifecycle::Test)
    } else {
        None
    }
}

/// The message for stored text that names no known value.
pub open spec fn unknown_message(what: Seq<char>, raw: Seq<char>) -> Seq<char> {
    "unknown "@ + what + " `"@ + raw + "`"@
}

/// `unknown <what> `<raw>``.
fn unknown(what: &str, raw: &str) -> (r: DeckError)
    ensures
        r matches DeckError::Storage(m) && m@ == unknown_message(what@, raw@),
{
    let mut v = chars_of("unknown ");
    let mut w = chars_of(what);
    v.append(&mut w);
    let mut a = chars_of(" `");
    v.append(&mut a);
    let mut x = chars_of(raw);
    v.append(&mut x);
    v.push('`');
    proof {
        reveal_strlit("`");
    }
    assert(v@ =~= "unknown "@ + what@ + " `"@ + raw@ + "`"@);
    DeckError::Storage(string_of(&v))
}

/// Reads a stored lifecycle step back.
pub fn parse_lifecycle(raw: &str) -> (r: Result<Lifecycle, DeckError>)
    ensures
        match step_named(raw@) {
            Some(s) => r == Ok::<Lifecycle, DeckError>(s),
            None => r matches Err(e) && e matches DeckError::Storage(m) && m@ == unknown_message("lifecycle"@, raw@),
        },
{
    if str_equal(raw, "install") {
        Ok(Lifecycle::Install)
    } else if str_equal(raw, "build") {
        Ok(Lifecycle::Build)
    } else if str_equal(raw, "run") {
        Ok(Lifecycle::Run)
    } else if str_equal(raw, "debug") {
        Ok(Lifecycle::Debug)
    } else if str_equal(raw, "clean") {
        Ok(Lifecycle::Clean)
    } else if str_equal(raw, "test") {
        Ok(Lifecycle::Test)
    } else {
        Err(unknown("lifecycle", raw))
    }
}

/// The stored text of a run outcome.
pub open spec fn outcome_name(o: RunOutcome) -> Seq<char> {
    match o {
        RunOutcome::Running => "running"@,
        RunOutcome::Succeeded => "succeeded"@,
        RunOutcome::Failed => "failed"@,
        RunOutcome::Stopped => "stopped"@,
        RunOutcome::Killed => "killed"@,
        RunOutcome::FailedToStart => "failed_to_start"@,
        RunOutcome::Interrupted => "interrupted"@,
    }
}

/// The outcome whose stored text is `raw`, if any.
pub open spec fn outcome_named(raw: Seq<char>) -> Option<RunOutcome> {
    if raw == "running"@ {
        Some(RunOutcome::Running)
    } else if raw == "succeeded"@ {
        Some(RunOutcome::Succeeded)
    } else if raw == "failed"@ {
        Some(RunOutcome::Failed)
    } else if raw == "stopped"@ {
        Some(RunOutcome::Stopped)
    } else if raw == "killed"@ {
        Some(RunOutcome::Killed)
    } else if raw == "failed_to_start"@ {
        Some(RunOutcome::FailedToStart)
    } else if raw == "interrupted"@ {
        Some(RunOutcome::Interrupted)
    } else {
        None
    }
}

/// The stored text of a run outcome.
pub fn outcome_str(outcome: RunOutcome) -> (r: &'static str)
    ensures
        r@ == outcome_name(outcome),
{
    match outcome {
        RunOutcome::Running => "running",
        RunOutcome::Succeeded => "succeeded",
        RunOutcome::Failed => "failed",
        RunOutcome::Stopped => "stopped",
        RunOutcome::Killed => "killed",
        RunOutcome::FailedToStart => "failed_to_start",
        RunOutcome::Interrupted => "interrupted",
    }
}

/// Reads a stored run outcome back.
pub fn parse_outcome(raw: &str) -> (r: Result<RunOutcome, DeckError>)
    ensures
        match outcome_named(raw@) {
            Some(o) => r == Ok::<RunOutcome, DeckError>(o),
            None => r matches Err(e) && e matches DeckError::Storage(m) && m@ == unknown_message("outcome"@, raw@),
        },
{
    if str_equal(raw, "running") {
        Ok(RunOutcome::Running)
    } else if str_equal(raw, "succeeded") {
        Ok(RunOutcome::Succeeded)
    } else if str_equal(raw, "failed") {
        Ok(RunOutcome::Failed)
    } else if str_equal(raw, "stopped") {
        Ok(RunOutcome::Stopped)
    } else if str_equal(raw, "killed") {
        Ok(RunOutcome::Killed)
    } else if str_equal(raw, "failed_to_start") {
        Ok(RunOutcome::FailedToStart)
    } else if str_equal(raw, "interrupted") {
        Ok(RunOutcome::Interrupted)
    } else {
        Err(unknown("outcome", raw))
    }
}

/// Every lifecycle step reads back as itself from its stored text, and stored
/// text that reads as a step is exactly that step's text.
pub proof fn lifecycle_text_round_trips(step: Lifecycle, raw: Seq<char>)
    ensures
        step_named(step_name(step)) == Some(step),
        step_named(raw) == Some(step) ==> step_name(step) == raw,
{
    reveal_strlit("install");
    reveal_strlit("build");
    reveal_strlit("run");
    reveal_strlit("debug");
    reveal_strlit("clean");
    reveal_strlit("test");
    assert("install"@ != "build"@) by { assert("install"@.len() != "build"@.len()); }
    assert("install"@ != "run"@) by { assert("install"@.len() != "run"@.len()); }
    assert("install"@ != "debug"@) by { assert("install"@.len() != "debug"@.len()); }
    assert("install"@ != "clean"@) by { assert("install"@.len() != "clean"@.len()); }
    assert("install"@ != "test"@) by { assert("install"@.len() != "test"@.len()); }
    assert("build"@ != "run"@) by { assert("build"@.len() != "run"@.len()); }
    assert("build"@ != "debug"@) by { assert("build"@[0] != "debug"@[0]); }
    assert("build"@ != "clean"@) by { assert("build"@[0] != "clean"@[0]); }
    assert("build"@ != "test"@) by { assert("build"@.len() != "test"@.len()); }
    assert("run"@ != "debug"@) by { assert("run"@.len() != "debug"@.len()); }
    assert("run"@ != "clean"@) by { assert("run"@.len() != "clean"@.len()); }
    assert("run"@ != "test"@) by { assert("run"@.len() != "test"@.len()); }
    assert("debug"@ != "clean"@) by { assert("debug"@[0] != "clean"@[0]); }
    assert("debug"@ != "test"@) by { assert("debug"@.len() != "test"@.len()); }
    assert("clean"@ != "test"@) by { assert("clean"@.len() != "test"@.len()); }
}

/// Every run outcome reads back as itself from its stored text, and stored
/// text that reads as an outcome is exactly that outcome's text.
pub proof fn outcome_text_round_trips(o: RunOutcome, raw: Seq<char>)
    ensures
        outcome_named(outcome_name(o)) == Some(o),
        outcome_named(raw) == Some(o) ==> outcome_name(o) == raw,
{
    reveal_strlit("running");
    reveal_strlit("succeeded");
    reveal_strlit("failed");
    reveal_strlit("stopped");
    reveal_strlit("killed");
    reveal_strlit("failed_to_start");
    reveal_strlit("interrupted");
    assert("running"@ != "succeeded"@) by { assert("running"@.len() != "succeeded"@.len()); }
    assert("running"@ != "failed"@) by { assert("running"@.len() != "failed"@.len()); }
    assert("running"@ != "stopped"@) by { assert("running"@[0] != "stopped"@[0]); }
    assert("running"@ != "killed"@) by { assert("running"@.len() != "killed"@.len()); }
    assert("running"@ != "failed_to_start"@) by { assert("running"@.len() != "failed_to_start"@.len()); }
    assert("running"@ != "interrupted"@) by { assert("running"@.len() != "interrupted"@.len()); }
    assert("succeeded"@ != "failed"@) by { assert("succeeded"@.len() != "failed"@.len()); }
    assert("succeeded"@ != "stopped"@) by { assert("succeeded"@.len() != "stopped"@.len()); }
    assert("succeeded"@ != "killed"@) by { assert("succeeded"@.len() != "killed"@.len()); }
    assert("succeeded"@ != "failed_to_start"@) by { assert("succeeded"@.len() != "failed_to_start"@.len()); }
    assert("succeeded"@ != "interrupted"@) by { assert("succeeded"@.len() != "interrupted"@.len()); }
    assert("failed"@ != "stopped"@) by { assert("failed"@.len() != "stopped"@.len()); }
    assert("failed"@ != "killed"@) by { assert("failed"@[0] != "killed"@[0]); }
    assert("failed"@ != "failed_to_start"@) by { assert("failed"@.len() != "failed_to_start"@.len()); }
    assert("failed"@ != "interrupted"@) by { assert("failed"@.len() != "interrupted"@.len()); }
    assert("stopped"@ != "killed"@) by { assert("stopped"@.len() != "killed"@.len()); }
    assert("stopped"@ != "failed_to_start"@) by { assert("stopped"@.len() != "failed_to_start"@.len()); }
    assert("stopped"@ != "interrupted"@) by { assert("stopped"@.len() != "interrupted"@.len()); }
    assert("killed"@ != "failed_to_start"@) by { assert("killed"@.len() != "failed_to_start"@.len()); }
    assert("killed"@ != "interrupted"@) by { assert("killed"@.len() != "interrupted"@.len()); }
    assert("failed_to_start"@ != "interrupted"@) by { assert("failed_to_start"@.len() != "interrupted"@.len()); }
}

// ---------------------------------------------------------------------------
// Database self-report
// ---------------------------------------------------------------------------

/// A point-in-time description of the database file behind the store, read
/// back from the live connection rather than from what was requested.
#[derive(Debug, Clone)]
pub struct StoreDiagnostics {
    /// Path the database reports for its main file.
    pub path: String,
    /// Should be `wal`; anything else means writes are not crash-safe.
    pub journal_mode: String,
    /// `0` = OFF, `1` = NORMAL, `2` = FULL, `3` = EXTRA.
    pub synchronous: i64,
    /// Pages the WAL may grow to before an automatic checkpoint.
    pub wal_autocheckpoint: i64,
    /// Whether foreign-key enforcement is on for this connection.
    pub foreign_keys: bool,
    /// Bytes per page.
    pub page_size: i64,
    /// Pages currently allocated.
    pub page_count: i64,
    /// Pages allocated but unused.
    pub freelist_count: i64,
    /// `"ok"`, or the database's first complaint.
    pub integrity: String,
    /// Rows in `projects`, or -1 if the table could not be counted.
    pub projects: i64,
    /// Rows in `runs`, or -1 if the table could not be counted.
    pub runs: i64,
    /// Rows in `settings`, or -1 if the table could not be counted.
    pub settings: i64,
    /// Highest applied migration version, if the migration table exists.
    pub schema_version: Option<i64>,
}

/// The name of a `synchronous` level.
pub open spec fn synchronous_name(level: i64) -> Seq<char> {
    if level == 0 {
        "OFF"@
    } else if level == 1 {
        "NORMAL"@
    } else if level == 2 {
        "FULL"@
    } else if level == 3 {
        "EXTRA"@
    } else {
        "unknown"@
    }
}

impl StoreDiagnostics {
    /// Bytes the main database file occupies, by page arithmetic.
    pub fn size_bytes(&self) -> (r: i64)
        requires
            i64::MIN <= self.page_size * self.page_count <= i64::MAX,
        ensures
            r == self.page_size * self.page_count,
    {
        self.page_size * self.page_count
    }

    /// Human name for the `synchronous` level.
    pub fn synchronous_label(&self) -> (r: &'static str)
        ensures
            r@ == synchronous_name(self.synchronous),
    {
        match self.synchronous {
            0 => "OFF",
            1 => "NORMAL",
            2 => "FULL",
            3 => "EXTRA",
            _ => "unknown",
        }
    }
}

/// The integrity verdict SQLite's check reports as rows: `ok` when every
/// row says `ok` (including when there are none), otherwise every row joined
/// with `; `.
pub open spec fn integrity_spec(rows: Seq<Seq<char>>) -> Seq<char> {
    if forall|i: int| 0 <= i < rows.len() ==> #[trigger] rows[i] == "ok"@ {
        "ok"@
    } else {
        crate::manifest::join_seq(rows, "; "@)
    }
}

/// Sums up the rows of an integrity check in one line.
pub fn integrity_summary(rows: &Vec<String>) -> (r: String)
    ensures
        r@ == integrity_spec(crate::command::views(rows@)),
{
    let ghost rv = crate::command::views(rows@);
    let mut i: usize = 0;
    while i < rows.len()
        invariant
            i <= rows.len(),
            rv == crate::command::views(rows@),
            forall|k: int| 0 <= k < i ==> #[trigger] rv[k] == "ok"@,
        decreases rows.len() - i,
    {
        if !str_equal(rows[i].as_str(), "ok") {
            assert(!(rv[i as int] == "ok"@));
            return crate::manifest::join_strings(rows, "; ");
        }
        i += 1;
    }
    "ok".to_owned()
}

// ---------------------------------------------------------------------------
// Remembered and dismissed roots
// ---------------------------------------------------------------------------

/// Whether two roots are the same: exactly, or ignoring ASCII case.
pub open spec fn same_root(a: Seq<char>, b: Seq<char>, ignore_case: bool) -> bool {
    if ignore_case {
        crate::text::lower_ascii_seq(a) == crate::text::lower_ascii_seq(b)
    } else {
        a == b
    }
}

/// Whether `list` holds `root`.
pub open spec fn holds_root(list: Seq<Seq<char>>, root: Seq<char>, ignore_case: bool) -> bool {
    exists|i: int| 0 <= i < list.len() && same_root(#[trigger] list[i], root, ignore_case)
}

/// `list` without every entry that is `root`, in order.
pub open spec fn without_root(list: Seq<Seq<char>>, root: Seq<char>, ignore_case: bool) -> Seq<Seq<char>> {
    list.filter(|x: Seq<char>| !same_root(x, root, ignore_case))
}

/// `list` with `root` added at the end, unless it already holds it.
pub open spec fn remembered(list: Seq<Seq<char>>, root: Seq<char>, ignore_case: bool) -> Seq<Seq<char>> {
    if holds_root(list, root, ignore_case) {
        list
    } else {
        list.push(root)
    }
}

/// A root just remembered is held, and remembering it again changes
/// nothing: the list is a set.
pub proof fn remembering_twice_is_remembering_once(list: Seq<Seq<char>>, root: Seq<char>, ignore_case: bool)
    ensures
        holds_root(remembered(list, root, ignore_case), root, ignore_case),
        remembered(remembered(list, root, ignore_case), root, ignore_case) == remembered(list, root, ignore_case),
{
    let once = remembered(list, root, ignore_case);
    if !holds_root(list, root, ignore_case) {
        assert(same_root(once[list.len() as int], root, ignore_case));
    }
}

/// Whether two roots are the same.
fn is_same_root(a: &str, b: &str, ignore_case: bool) -> (r: bool)
    ensures
        r == same_root(a@, b@, ignore_case),
{
    if ignore_case {
        let la = string_of(&crate::text::lower_chars(&chars_of(a)));
        let lb = string_of(&crate::text::lower_chars(&chars_of(b)));
        str_equal(la.as_str(), lb.as_str())
    } else {
        str_equal(a, b)
    }
}

/// The list with `root` added at the end, unless it already holds it: the
/// list is a set with an order. Scan roots compare exactly; dismissed roots
/// ignore ASCII case.
pub fn remember_root(list: &Vec<String>, root: &str, ignore_case: bool) -> (r: Vec<String>)
    ensures
        crate::command::views(r@) == remembered(crate::command::views(list@), root@, ignore_case),
{
    let ghost lv = crate::command::views(list@);
    let mut i: usize = 0;
    while i < list.len()
        invariant
            i <= list.len(),
            lv == crate::command::views(list@),
            forall|k: int| 0 <= k < i ==> !same_root(#[trigger] lv[k], root@, ignore_case),
        decreases list.len() - i,
    {
        assert(lv[i as int] == list@[i as int]@);
        if is_same_root(list[i].as_str(), root, ignore_case) {
            return crate::probe::copy_strings(list);
        }
        i += 1;
    }
    let mut out = crate::probe::copy_strings(list);
    out.push(root.to_owned());
    assert(crate::command::views(out@) =~= lv.push(root@));
    out
}

/// The list without `root`, wherever it occurs.
pub fn forget_root(list: &Vec<String>, root: &str, ignore_case: bool) -> (r: Vec<String>)
    ensures
        crate::command::views(r@) == without_root(crate::command::views(list@), root@, ignore_case),
{
    let ghost lv = crate::command::views(list@);
    let mut out: Vec<String> = Vec::new();
    let mut i: usize = 0;
    assert(lv.take(0) =~= Seq::<Seq<char>>::empty());
    assert(without_root(lv.take(0), root@, ignore_case) =~= Seq::<Seq<char>>::empty());
    while i < list.len()
        invariant
            i <= list.len(),
            lv == crate::command::views(list@),
            crate::command::views(out@) == without_root(lv.take(i as int), root@, ignore_case),
        decreases list.len() - i,
    {
        let ghost before = crate::command::views(out@);
        assert(lv.take(i + 1).drop_last() =~= lv.take(i as int));
        assert(lv[i as int] == list@[i as int]@);
        proof {
            lv.take(i as int).lemma_filter_push(lv[i as int], |x: Seq<char>| !same_root(x, root@, ignore_case));
            assert(lv.take(i as int).push(lv[i as int]) =~= lv.take(i + 1));
        }
        if !is_same_root(list[i].as_str(), root, ignore_case) {
            out.push(list[i].clone());
            assert(crate::command::views(out@) =~= before.push(lv[i as int]));
        }
        i += 1;
    }
    assert(lv.take(list.len() as int) =~= lv);
    out
}

/// Forgetting a root just remembered gives back the list as it was, when
/// the list did not hold it before.
pub proof fn forgetting_undoes_remembering(list: Seq<Seq<char>>, root: Seq<char>, ignore_case: bool)
    requires
        !holds_root(list, root, ignore_case),
    ensures
        without_root(remembered(list, root, ignore_case), root, ignore_case) == list,
{
    let f = |x: Seq<char>| !same_root(x, root, ignore_case);
    list.lemma_filter_push(root, f);
    assert(list.filter(f) =~= list) by {
        lemma_filter_all(list, f);
    }
}

proof fn lemma_filter_all(s: Seq<Seq<char>>, f: spec_fn(Seq<char>) -> bool)
    requires
        forall|i: int| 0 <= i < s.len() ==> f(#[trigger] s[i]),
    ensures
        s.filter(f) == s,
    decreases s.len(),
{
    reveal(Seq::filter);
    if s.len() > 0 {
        lemma_filter_all(s.drop_last(), f);
        assert(s.drop_last().push(s.last()) =~= s);
    } else {
        assert(s.filter(f) =~= s);
    }
}


// ---------------------------------------------------------------------------
// Database snapshots
// ---------------------------------------------------------------------------

/// How many database snapshots to keep: enough to cover "it broke and I did
/// not notice until the next launch" without unbounded disk use.
pub const BACKUPS_KEPT: usize = 3;

/// Whether a file in the backup directory is a snapshot: its extension is
/// exactly `db`.
pub open spec fn is_snapshot(name: Seq<char>) -> bool {
    name_extension(name) == Some("db"@)
}

/// The snapshot names among `names`, in listing order.
pub open spec fn snapshots(names: Seq<Seq<char>>) -> Seq<Seq<char>>
    decreases names.len(),
{
    if names.len() == 0 {
        Seq::empty()
    } else if is_snapshot(names.last()) {
        snapshots(names.drop_last()).push(names.last())
    } else {
        snapshots(names.drop_last())
    }
}

/// Whether `name` is a snapshot.
fn snapshot_named(name: &str) -> (r: bool)
    ensures
        r == is_snapshot(name@),
{
    match name_ext(&chars_of(name)) {
        None => false,
        Some(e) => {
            let ext = string_of(&e);
            str_equal(ext.as_str(), "db")
        },
    }
}

/// The snapshot names among `names`.
fn snapshot_names(names: &Vec<String>) -> (r: Vec<String>)
    ensures
        views(r@) == snapshots(views(names@)),
{
    let ghost ns = views(names@);
    let mut out: Vec<String> = Vec::new();
    let mut i: usize = 0;
    assert(ns.take(0) =~= Seq::<Seq<char>>::empty());
    while i < names.len()
        invariant
            i <= names.len(),
            ns == views(names@),
            views(out@) == snapshots(ns.take(i as int)),
        decreases names.len() - i,
    {
        assert(ns.take(i + 1).drop_last() =~= ns.take(i as int));
        assert(ns.take(i + 1).last() == names@[i as int]@);
        if snapshot_named(names[i].as_str()) {
            let ghost before = views(out@);
            let n = names[i].clone();
            out.push(n);
            assert(views(out@) =~= before.push(n@));
        }
        i += 1;
    }
    assert(ns.take(names.len() as int) =~= ns);
    out
}

/// The newest snapshot in a backup directory listing `names`: the greatest
/// snapshot name, since their timestamps sort; `None` when there is none.
pub fn newest_backup(names: &Vec<String>) -> (r: Option<String>)
    ensures
        match r {
            None => snapshots(views(names@)).len() == 0,
            Some(n) => snapshots(views(names@)).contains(n@) && forall|k: int|
                0 <= k < snapshots(views(names@)).len() ==> !lex_less(n@, #[trigger] snapshots(views(names@))[k]),
        },
{
    let snaps = snapshot_names(names);
    let ghost sv = views(snaps@);
    if snaps.len() == 0 {
        return None;
    }
    let mut best: usize = 0;
    let mut i: usize = 1;
    proof {
        lemma_lex_order(sv[0], sv[0], sv[0]);
    }
    while i < snaps.len()
        invariant
            1 <= i <= snaps.len(),
            best < i,
            sv == views(snaps@),
            forall|k: int| 0 <= k < i ==> !lex_less(sv[best as int], #[trigger] sv[k]),
        decreases snaps.len() - i,
    {
        assert(sv[i as int] == snaps@[i as int]@);
        assert(sv[best as int] == snaps@[best as int]@);
        if str_less(snaps[best].as_str(), snaps[i].as_str()) {
            proof {
                assert forall|k: int| 0 <= k < i + 1 implies !lex_less(sv[i as int], #[trigger] sv[k]) by {
                    lemma_lex_order(sv[i as int], sv[best as int], sv[k]);
                    lemma_lex_order(sv[best as int], sv[i as int], sv[k]);
                    lemma_lex_order(sv[best as int], sv[k], sv[i as int]);
                }
            }
            best = i;
        }
        i += 1;
    }
    assert(sv[best as int] == snaps@[best as int]@);
    Some(snaps[best].clone())
}

/// Which snapshots in a backup directory listing `names` to remove so that
/// the newest `keep` stay: none when there are no more than `keep`;
/// otherwise all but the last `keep` in sorted order.
pub fn backups_to_prune(names: &Vec<String>, keep: usize) -> (r: Vec<String>)
    ensures
        snapshots(views(names@)).len() <= keep ==> r@.len() == 0,
        snapshots(views(names@)).len() > keep ==> exists|sorted: Seq<Seq<char>>|
            #![trigger stably_sorted(snapshots(views(names@)), snapshots(views(names@)), sorted)]
            stably_sorted(snapshots(views(names@)), snapshots(views(names@)), sorted) && views(r@)
                == sorted.take(sorted.len() - keep),
{
    let snaps = snapshot_names(names);
    let ghost sv = views(snaps@);
    if snaps.len() <= keep {
        return Vec::new();
    }
    let order = order_by_keys(&snaps);
    let drop = snaps.len() - keep;
    let mut out: Vec<String> = Vec::new();
    let mut j: usize = 0;
    while j < drop
        invariant
            j <= drop <= order.len(),
            drop == snaps.len() - keep,
            sv == views(snaps@),
            ordered_by_keys(sv, order@),
            views(out@) == pick(sv, order@).take(j as int),
        decreases drop - j,
    {
        let k = order[j];
        assert(order@[j as int] < sv.len());
        let ghost before = views(out@);
        let n = snaps[k].clone();
        out.push(n);
        assert(sv[k as int] == snaps@[k as int]@);
        assert(views(out@) =~= before.push(n@));
        assert(views(out@) =~= pick(sv, order@).take(j + 1));
        j += 1;
    }
    assert(stably_sorted(sv, sv, pick(sv, order@)));
    out
}

} // verus!
