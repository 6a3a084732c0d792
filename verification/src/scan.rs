//! Guarded directory scanning for bulk project discovery.
//!
//! A naive recursive walk of a workspace is unusable: one `node_modules`
//! holds tens of thousands of directories. Three guards make the scan fast
//! and predictable:
//!
//! 1. **Depth cap.** Projects live near the top of a workspace tree.
//! 2. **Ignore list.** Dependency, build and VCS directories are never entered.
//! 3. **Stop on match.** A directory identified as a project is not descended
//!    into, so a Cargo workspace is one project, not one per member crate.
//!
//! The walk is breadth-first, so results arrive shallowest first and a result
//! cap truncates the deep tail. [`Scanner`] holds the walk and makes every
//! decision; whoever drives it reads the directories it asks about.
use vstd::prelude::*;

use crate::command::{display_spec, views, Lifecycle, TemplateVars};
use crate::launch::overlay_project_vars;
use crate::path::{file_name, file_name_spec};
use crate::preflight::{insert_name, strictly_sorted};
use crate::project::{DetectedFacts, ProjectDraft};
use crate::registry::{index_of_id, RunnerRegistry};
use crate::runner::{command_result, join_path, join_spec, DetectionMatch};
use crate::text::{chars_of, lower_ascii_seq, lower_chars, str_equal, string_of};

verus! {

broadcast use vstd::string::group_string_axioms;

// ---------------------------------------------------------------------------
// What is never entered
// ---------------------------------------------------------------------------

/// Directory names never entered: dependency stores, build outputs, VCS
/// metadata, virtualenvs and editor state.
pub open spec fn ignored_dirs() -> Seq<Seq<char>> {
    seq![
        "node_modules"@, "bower_components"@, "vendor"@, "packages"@, ".pnpm-store"@, ".yarn"@,
        "target"@, "build"@, "dist"@, "out"@, "bin"@, "obj"@, ".next"@, ".nuxt"@, ".svelte-kit"@,
        ".turbo"@, ".parcel-cache"@, ".gradle"@, "cmake-build-debug"@, "cmake-build-release"@,
        ".git"@, ".svn"@, ".hg"@, ".idea"@, ".vscode"@, ".vs"@,
        "__pycache__"@, ".venv"@, "venv"@, "env"@, ".tox"@, ".mypy_cache"@, ".pytest_cache"@,
        ".ruff_cache"@, ".cache"@, ".terraform"@, "Pods"@, "DerivedData"@,
    ]
}

/// The ignore list.
pub fn ignored_list() -> (r: Vec<&'static str>)
    ensures
        r@.map_values(|s: &str| s@) == ignored_dirs(),
{
    let r = vec![
        "node_modules", "bower_components", "vendor", "packages", ".pnpm-store", ".yarn",
        "target", "build", "dist", "out", "bin", "obj", ".next", ".nuxt", ".svelte-kit",
        ".turbo", ".parcel-cache", ".gradle", "cmake-build-debug", "cmake-build-release",
        ".git", ".svn", ".hg", ".idea", ".vscode", ".vs",
        "__pycache__", ".venv", "venv", "env", ".tox", ".mypy_cache", ".pytest_cache",
        ".ruff_cache", ".cache", ".terraform", "Pods", "DerivedData",
    ];
    assert(r@.map_values(|s: &str| s@) =~= ignored_dirs());
    r
}

/// Whether `names` holds `name`, ignoring ASCII case.
pub open spec fn holds_ci(names: Seq<Seq<char>>, name: Seq<char>) -> bool {
    exists|i: int| 0 <= i < names.len() && lower_ascii_seq(#[trigger] names[i]) == lower_ascii_seq(name)
}

/// Whether a directory name is skipped: any dotted name (hundreds of tool
/// directories, none a project), a name on the ignore list, or one of the
/// extra names, ignoring ASCII case.
pub open spec fn ignored_name(extra: Seq<Seq<char>>, name: Seq<char>) -> bool {
    ||| name.len() > 1 && name[0] == '.'
    ||| holds_ci(ignored_dirs(), name)
    ||| holds_ci(extra, name)
}

/// How to scan.
#[derive(Debug, Clone)]
pub struct ScanOptions {
    /// How many levels below the root to descend; 0 checks only the root.
    pub max_depth: usize,
    /// Stop descending into a directory once it is identified as a project.
    pub prune_nested: bool,
    /// Upper bound on results.
    pub max_results: usize,
    /// Extra directory names to skip, on top of the ignore list.
    pub extra_ignores: Vec<String>,
    /// Include directories no runner claimed.
    pub include_unknown: bool,
}

/// Whether `names` holds `name`, ignoring ASCII case.
fn has_ci(names: &Vec<String>, name: &str) -> (r: bool)
    ensures
        r == holds_ci(views(names@), name@),
{
    let low = lower_chars(&chars_of(name));
    let mut i: usize = 0;
    while i < names.len()
        invariant
            i <= names.len(),
            low@ == lower_ascii_seq(name@),
            forall|k: int| 0 <= k < i ==> lower_ascii_seq(#[trigger] views(names@)[k]) != lower_ascii_seq(name@),
        decreases names.len() - i,
    {
        let l = lower_chars(&chars_of(names[i].as_str()));
        assert(views(names@)[i as int] == names@[i as int]@);
        if str_equal(string_of(&l).as_str(), string_of(&low).as_str()) {
            return true;
        }
        i += 1;
    }
    false
}

impl ScanOptions {
    /// Depth 4, nested projects pruned, at most 500 results, no extra
    /// ignores, unknown directories left out.
    pub fn default() -> (r: ScanOptions)
        ensures
            r.max_depth == 4,
            r.prune_nested,
            r.max_results == 500,
            r.extra_ignores@.len() == 0,
            !r.include_unknown,
    {
        ScanOptions { max_depth: 4, prune_nested: true, max_results: 500, extra_ignores: Vec::new(), include_unknown: false }
    }

    /// Whether a directory name is skipped.
    pub fn is_ignored(&self, name: &str) -> (r: bool)
        ensures
            r == ignored_name(views(self.extra_ignores@), name@),
    {
        let v = chars_of(name);
        if v.len() > 1 && v[0] == '.' {
            return true;
        }
        let list = ignored_list();
        let mut fixed: Vec<String> = Vec::new();
        let mut i: usize = 0;
        while i < list.len()
            invariant
                i <= list.len(),
                views(fixed@) == list@.map_values(|s: &str| s@).take(i as int),
            decreases list.len() - i,
        {
            let ghost before = views(fixed@);
            fixed.push(list[i].to_owned());
            assert(views(fixed@) =~= before.push(list@[i as int]@));
            assert(list@.map_values(|s: &str| s@).take(i + 1) =~= before.push(list@[i as int]@));
            i += 1;
        }
        assert(list@.map_values(|s: &str| s@).take(list.len() as int) =~= ignored_dirs());
        has_ci(&fixed, name) || has_ci(&self.extra_ignores, name)
    }
}

// ---------------------------------------------------------------------------
// Drafts
// ---------------------------------------------------------------------------

/// The name a draft proposes: the directory's name, else `Untitled`.
pub open spec fn draft_name(dir: Seq<char>) -> Seq<char> {
    match file_name_spec(dir) {
        Some(n) => n,
        None => "Untitled"@,
    }
}

/// What a draft for `dir` holds: its name and root; and, when a runner
/// claimed it, the facts detection found (`pm` as the package manager) and
/// the run command as the user would see it, when that runner is registered
/// and resolves one.
pub open spec fn draft_holds<F: Fn(&str) -> bool>(
    d: ProjectDraft,
    dir: Seq<char>,
    detected: Option<DetectionMatch>,
    runners: Seq<crate::runner::ManifestRunner>,
    f: F,
    now_ms: i64,
) -> bool {
    &&& d.name@ == draft_name(dir)
    &&& d.root@ == dir
    &&& match detected {
        None => d.detected is None && d.proposed_run is None,
        Some(m) => {
            &&& d.detected matches Some(facts) && facts.runner_id@ == m.meta.id@ && facts.language@
                == m.meta.language@ && facts.framework == m.meta.framework && (match facts.package_manager {
                Some(pm) => m.vars@.contains_key("pm"@) && pm@ == m.vars@["pm"@],
                None => !m.vars@.contains_key("pm"@),
            }) && facts.version == m.version && facts.detected_at == now_ms
            &&& {
                let vars = m.vars@.union_prefer_right(crate::command::project_vars(dir, draft_name(dir)));
                let idx = index_of_id(runners, m.meta.id@);
                if idx < 0 {
                    d.proposed_run is None
                } else {
                    match d.proposed_run {
                        None => forall|r: Result<crate::command::ResolvedCommand, crate::error::DeckError>|
                            command_result(r, runners[idx], Lifecycle::Run, vars, f) ==> r is Err,
                        Some(s) => exists|c: crate::command::ResolvedCommand|
                            command_result(Ok(c), runners[idx], Lifecycle::Run, vars, f) && s@ == display_spec(
                                c.program@,
                                views(c.args@),
                            ),
                    }
                }
            }
        },
    }
}

/// Builds the draft for one directory, carrying the command that would run
/// so the add flow can show it before anything is registered.
pub fn draft_for<F: Fn(&str) -> bool>(
    dir: &str,
    detected: Option<&DetectionMatch>,
    registry: &RunnerRegistry,
    exists: &F,
    now_ms: i64,
) -> (r: ProjectDraft)
    requires
        crate::manifest::is_path_oracle(*exists),
    ensures
        draft_holds(
            r,
            dir@,
            match detected {
                Some(m) => Some(*m),
                None => None,
            },
            registry.runner_list(),
            *exists,
            now_ms,
        ),
{
    let dv = chars_of(dir);
    let name = match file_name(&dv) {
        Some(n) => string_of(&n),
        None => "Untitled".to_owned(),
    };
    let m = match detected {
        None => {
            return ProjectDraft { name, root: dir.to_owned(), detected: None, proposed_run: None };
        },
        Some(m) => m,
    };
    let vars = overlay_project_vars(m.vars.copy(), dir, name.as_str());
    proof {
        crate::registry::lemma_index_of_id(registry.runner_list(), m.meta.id@);
    }
    let proposed_run = match registry.get(m.meta.id.as_str()) {
        None => None,
        Some(runner) => match runner.command(Lifecycle::Run, &vars, exists) {
            Ok(c) => Some(c.to_string()),
            Err(_) => None,
        },
    };
    let package_manager = match m.vars.get("pm") {
        Some(pm) => Some(pm.to_owned()),
        None => None,
    };
    let facts = DetectedFacts {
        runner_id: m.meta.id.clone(),
        language: m.meta.language.clone(),
        framework: m.meta.framework.clone(),
        package_manager,
        version: m.version.clone(),
        detected_at: now_ms,
    };
    let r = ProjectDraft { name, root: dir.to_owned(), detected: Some(facts), proposed_run };
    assert(r.name@ == draft_name(dir@));
    assert(r.root@ == dir@);
    assert(facts.framework == m.meta.framework);
    assert(facts.version == m.version);
    assert(match facts.package_manager {
        Some(pm) => m.vars@.contains_key("pm"@) && pm@ == m.vars@["pm"@],
        None => !m.vars@.contains_key("pm"@),
    });
    r
}

// ---------------------------------------------------------------------------
// The walk
// ---------------------------------------------------------------------------

/// What a scan found.
#[derive(Debug)]
pub struct ScanResult {
    /// Candidate projects, in discovery order (shallowest first).
    pub drafts: Vec<ProjectDraft>,
    /// Directories entered.
    pub directories_visited: usize,
    /// Directories skipped by the ignore list or unreadable.
    pub directories_skipped: usize,
    /// Whether the result cap was reached and the scan stopped early.
    pub truncated: bool,
}

/// Where a scan is between the questions it asks.
#[derive(Debug, Clone, Copy, PartialEq, Eq, Structural)]
pub enum ScanPhase {
    /// Ready to pick the next directory.
    Idle,
    /// Waiting for the canonical form of the current directory.
    Entering,
    /// Waiting to hear whether the current directory is a project.
    Detecting,
    /// Waiting for the current directory's subdirectories.
    Listing,
    /// Nothing is left to visit.
    Done,
}

/// A directory still to visit and its depth below the root.
pub open spec fn entry_view(e: (String, usize)) -> (Seq<char>, usize) {
    (e.0@, e.1)
}

/// `a + n`, or `usize::MAX` when that does not fit.
pub open spec fn sat_add(a: usize, n: nat) -> usize {
    if a + n > usize::MAX {
        usize::MAX
    } else {
        (a + n) as usize
    }
}

/// How many of `names` are skipped.
pub open spec fn count_ignored(extra: Seq<Seq<char>>, names: Seq<Seq<char>>) -> nat
    decreases names.len(),
{
    if names.len() == 0 {
        0
    } else {
        count_ignored(extra, names.drop_last()) + if ignored_name(extra, names.last()) {
            1nat
        } else {
            0nat
        }
    }
}

/// The names of `names` that are not skipped, in order.
pub open spec fn kept_names(extra: Seq<Seq<char>>, names: Seq<Seq<char>>) -> Seq<Seq<char>>
    decreases names.len(),
{
    if names.len() == 0 {
        Seq::empty()
    } else {
        kept_names(extra, names.drop_last()) + if ignored_name(extra, names.last()) {
            Seq::<Seq<char>>::empty()
        } else {
            seq![names.last()]
        }
    }
}

/// The subdirectories `names` of `dir` to visit, at `depth`, in order.
pub open spec fn queued_children(dir: Seq<char>, names: Seq<Seq<char>>, depth: usize) -> Seq<(Seq<char>, usize)> {
    names.map_values(|n: Seq<char>| (join_spec(dir, n), depth))
}

/// A breadth-first scan of a directory tree, driven from outside.
///
/// The driver asks [`Scanner::next`] for a directory, tells
/// [`Scanner::enter`] its canonical form (a directory reached twice, through
/// a link, is visited once), tells [`Scanner::found`] whether a runner
/// claimed it and the draft for it, and, when asked, hands
/// [`Scanner::listed`] the names of its subdirectories (or `None` when it
/// cannot be read, which is counted as skipped and never ends the scan).
pub struct Scanner {
    options: ScanOptions,
    queue: Vec<(String, usize)>,
    head: usize,
    seen: Vec<String>,
    current: (String, usize),
    phase: ScanPhase,
    result: ScanResult,
}

impl Scanner {
    /// The options the scan runs with.
    pub closed spec fn settings(&self) -> ScanOptions {
        self.options
    }

    /// The directories still to visit, in order.
    pub closed spec fn pending(&self) -> Seq<(Seq<char>, usize)> {
        self.queue@.skip(self.head as int).map_values(|e: (String, usize)| entry_view(e))
    }

    /// The canonical forms of the directories entered.
    pub closed spec fn entered(&self) -> Seq<Seq<char>> {
        views(self.seen@)
    }

    /// The directory being visited.
    pub closed spec fn visiting(&self) -> (Seq<char>, usize) {
        entry_view(self.current)
    }

    /// Where the scan is.
    pub closed spec fn stage(&self) -> ScanPhase {
        self.phase
    }

    /// What the scan has found so far.
    pub closed spec fn report(&self) -> ScanResult {
        self.result
    }

    /// Never more drafts than the cap; every directory queued or visited is
    /// within the depth cap; one draft short of the cap while detecting.
    #[verifier::type_invariant]
    spec fn within_bounds(self) -> bool {
        &&& self.result.drafts@.len() <= self.options.max_results
        &&& self.head <= self.queue@.len()
        &&& forall|i: int| 0 <= i < self.queue@.len() ==> (#[trigger] self.queue@[i]).1 <= self.options.max_depth
        &&& self.current.1 <= self.options.max_depth
        &&& (self.phase == ScanPhase::Entering || self.phase == ScanPhase::Detecting) ==> self.result.drafts@.len()
            < self.options.max_results
        &&& self.result.directories_visited == self.seen@.len()
        &&& self.phase == ScanPhase::Listing ==> self.current.1 < self.options.max_depth
    }

    /// A scan of `root` with `options`: the root is the one directory to
    /// visit, at depth 0.
    pub fn new(root: &str, options: ScanOptions) -> (r: Scanner)
        ensures
            r.settings() == options,
            r.pending() == seq![(root@, 0usize)],
            r.entered() == Seq::<Seq<char>>::empty(),
            r.stage() == ScanPhase::Idle,
            r.report().drafts@.len() == 0,
            r.report().directories_visited == 0,
            r.report().directories_skipped == 0,
            !r.report().truncated,
    {
        let mut queue: Vec<(String, usize)> = Vec::new();
        queue.push((root.to_owned(), 0));
        let r = Scanner {
            options,
            queue,
            head: 0,
            seen: Vec::new(),
            current: (String::new(), 0),
            phase: ScanPhase::Idle,
            result: ScanResult { drafts: Vec::new(), directories_visited: 0, directories_skipped: 0, truncated: false },
        };
        assert(r.pending() =~= seq![(root@, 0usize)]);
        assert(r.entered() =~= Seq::<Seq<char>>::empty());
        r
    }

    /// The next directory to visit, or `None` when the scan is over: nothing
    /// is left, or the result cap is reached (the scan is then marked
    /// truncated). Only acts between visits.
    pub fn next(&mut self) -> (r: Option<String>)
        ensures
            final(self).settings() == old(self).settings(),
            final(self).entered() == old(self).entered(),
            old(self).stage() != ScanPhase::Idle ==> r is None && *final(self) == *old(self),
            old(self).stage() == ScanPhase::Idle && old(self).pending().len() == 0 ==> r is None
                && final(self).stage() == ScanPhase::Done && final(self).report() == old(self).report()
                && final(self).pending() == old(self).pending(),
            old(self).stage() == ScanPhase::Idle && old(self).pending().len() > 0
                && old(self).report().drafts@.len() >= old(self).settings().max_results ==> r is None
                && final(self).stage() == ScanPhase::Done && final(self).report().truncated
                && final(self).report().drafts == old(self).report().drafts
                && final(self).report().directories_visited == old(self).report().directories_visited
                && final(self).report().directories_skipped == old(self).report().directories_skipped,
            old(self).stage() == ScanPhase::Idle && old(self).pending().len() > 0
                && old(self).report().drafts@.len() < old(self).settings().max_results ==> (r matches Some(d)
                && d@ == old(self).pending()[0].0 && final(self).visiting() == old(self).pending()[0]
                && final(self).pending() == old(self).pending().drop_first()
                && final(self).stage() == ScanPhase::Entering && final(self).report() == old(self).report()),
    {
        proof {
            use_type_invariant(&*self);
        }
        if self.phase != ScanPhase::Idle {
            return None;
        }
        if self.head >= self.queue.len() {
            self.phase = ScanPhase::Done;
            return None;
        }
        let ghost before = self.pending();
        assert(before[0] == entry_view(self.queue@[self.head as int]));
        let depth = self.queue[self.head].1;
        let dir = self.queue[self.head].0.clone();
        self.head = self.head + 1;
        assert(self.pending() =~= before.drop_first());
        if self.result.drafts.len() >= self.options.max_results {
            self.result.truncated = true;
            self.phase = ScanPhase::Done;
            return None;
        }
        self.current = (dir.clone(), depth);
        self.phase = ScanPhase::Entering;
        Some(dir)
    }

    /// Records the canonical form of the directory being visited: true when
    /// it has not been entered before (it is then counted as visited and
    /// waits to be classified); false, back between visits, when it has.
    pub fn enter(&mut self, key: &str) -> (r: bool)
        ensures
            final(self).settings() == old(self).settings(),
            final(self).pending() == old(self).pending(),
            final(self).visiting() == old(self).visiting(),
            old(self).stage() != ScanPhase::Entering ==> !r && *final(self) == *old(self),
            old(self).stage() == ScanPhase::Entering ==> r == !old(self).entered().contains(key@),
            old(self).stage() == ScanPhase::Entering && !r ==> final(self).stage() == ScanPhase::Idle
                && final(self).entered() == old(self).entered() && final(self).report() == old(self).report(),
            old(self).stage() == ScanPhase::Entering && r ==> final(self).stage() == ScanPhase::Detecting
                && final(self).entered() == old(self).entered().push(key@)
                && final(self).report().directories_visited == old(self).report().directories_visited + 1
                && final(self).report().drafts == old(self).report().drafts
                && final(self).report().directories_skipped == old(self).report().directories_skipped
                && final(self).report().truncated == old(self).report().truncated,
    {
        proof {
            use_type_invariant(&*self);
        }
        if self.phase != ScanPhase::Entering {
            return false;
        }
        if self.has_entered(key) {
            self.phase = ScanPhase::Idle;
            return false;
        }
        let mut st = Scanner::placeholder();
        std::mem::swap(&mut st, self);
        proof {
            use_type_invariant(&st);
        }
        let Scanner { options, queue, head, mut seen, current, phase, mut result } = st;
        let ghost before = views(seen@);
        seen.push(key.to_owned());
        assert(views(seen@) =~= before.push(key@));
        result.directories_visited = seen.len();
        *self = Scanner { options, queue, head, seen, current, phase: ScanPhase::Detecting, result };
        true
    }

    /// Whether `key` was entered before.
    fn has_entered(&self, key: &str) -> (r: bool)
        ensures
            r == self.entered().contains(key@),
    {
        let mut i: usize = 0;
        while i < self.seen.len()
            invariant
                i <= self.seen.len(),
                forall|k: int| 0 <= k < i ==> views(self.seen@)[k] != key@,
            decreases self.seen.len() - i,
        {
            if str_equal(self.seen[i].as_str(), key) {
                assert(views(self.seen@)[i as int] == key@);
                return true;
            }
            i += 1;
        }
        false
    }

    /// A finished scan of nothing, to stand in while a scan is rebuilt.
    fn placeholder() -> (r: Scanner)
        ensures
            r.stage() == ScanPhase::Done,
    {
        Scanner {
            options: ScanOptions::default(),
            queue: Vec::new(),
            head: 0,
            seen: Vec::new(),
            current: (String::new(), 0),
            phase: ScanPhase::Done,
            result: ScanResult { drafts: Vec::new(), directories_visited: 0, directories_skipped: 0, truncated: false },
        }
    }

    /// Records what detection found in the directory being visited, with the
    /// draft built for it there ([`draft_for`] on the visited directory): the
    /// draft is kept for a project, or for any directory when unknown ones are
    /// included. True when its subdirectories are wanted: not a project whose
    /// nesting is pruned, and above the depth cap.
    pub fn found<F: Fn(&str) -> bool>(
        &mut self,
        detected: Option<&DetectionMatch>,
        registry: &RunnerRegistry,
        exists: &F,
        now_ms: i64,
    ) -> (r: bool)
        requires
            crate::manifest::is_path_oracle(*exists),
        ensures
            final(self).settings() == old(self).settings(),
            final(self).pending() == old(self).pending(),
            final(self).entered() == old(self).entered(),
            final(self).visiting() == old(self).visiting(),
            old(self).stage() != ScanPhase::Detecting ==> !r && *final(self) == *old(self),
            old(self).stage() == ScanPhase::Detecting ==> ({
                let is_project = detected is Some;
                &&& if is_project || old(self).settings().include_unknown {
                    &&& final(self).report().drafts@.len() == old(self).report().drafts@.len() + 1
                    &&& final(self).report().drafts@.drop_last() == old(self).report().drafts@
                    &&& draft_holds(
                        final(self).report().drafts@.last(),
                        old(self).visiting().0,
                        match detected {
                            Some(m) => Some(*m),
                            None => None,
                        },
                        registry.runner_list(),
                        *exists,
                        now_ms,
                    )
                } else {
                    final(self).report().drafts@ == old(self).report().drafts@
                }
                &&& final(self).report().directories_visited == old(self).report().directories_visited
                &&& final(self).report().directories_skipped == old(self).report().directories_skipped
                &&& final(self).report().truncated == old(self).report().truncated
                &&& r == (!(is_project && old(self).settings().prune_nested) && old(self).visiting().1
                    < old(self).settings().max_depth)
                &&& final(self).stage() == if r {
                    ScanPhase::Listing
                } else {
                    ScanPhase::Idle
                }
            }),
    {
        proof {
            use_type_invariant(&*self);
        }
        if self.phase != ScanPhase::Detecting {
            return false;
        }
        let is_project = detected.is_some();
        let draft = draft_for(self.current.0.as_str(), detected, registry, exists, now_ms);
        let mut st = Scanner::placeholder();
        std::mem::swap(&mut st, self);
        proof {
            use_type_invariant(&st);
        }
        let Scanner { options, queue, head, seen, current, phase, mut result } = st;
        let ghost before = result.drafts@;
        if is_project || options.include_unknown {
            result.drafts.push(draft);
            assert(result.drafts@.drop_last() =~= before);
        }
        let descend = !(is_project && options.prune_nested) && current.1 < options.max_depth;
        let next_phase = if descend {
            ScanPhase::Listing
        } else {
            ScanPhase::Idle
        };
        *self = Scanner { options, queue, head, seen, current, phase: next_phase, result };
        descend
    }

    /// Records the subdirectory names of the directory being visited, or
    /// `None` when it cannot be read (counted as skipped). Skipped names are
    /// counted; the rest are queued one level deeper, in string order.
    pub fn listed(&mut self, names: Option<Vec<String>>)
        ensures
            final(self).settings() == old(self).settings(),
            final(self).entered() == old(self).entered(),
            final(self).visiting() == old(self).visiting(),
            final(self).report().drafts == old(self).report().drafts,
            final(self).report().directories_visited == old(self).report().directories_visited,
            final(self).report().truncated == old(self).report().truncated,
            old(self).stage() != ScanPhase::Listing ==> *final(self) == *old(self),
            old(self).stage() == ScanPhase::Listing ==> final(self).stage() == ScanPhase::Idle,
            old(self).stage() == ScanPhase::Listing && names is None ==> final(self).pending() == old(self).pending()
                && final(self).report().directories_skipped == sat_add(old(self).report().directories_skipped, 1),
            old(self).stage() == ScanPhase::Listing && names is Some ==> ({
                let extra = views(old(self).settings().extra_ignores@);
                let given = views(names->0@);
                &&& final(self).report().directories_skipped == sat_add(
                    old(self).report().directories_skipped,
                    count_ignored(extra, given),
                )
                &&& exists|sorted: Seq<Seq<char>>|
                    strictly_sorted(sorted) && sorted.to_set() == kept_names(extra, given).to_set()
                        && #[trigger] final(self).pending() == old(self).pending() + queued_children(
                        old(self).visiting().0,
                        sorted,
                        (old(self).visiting().1 + 1) as usize,
                    )
            }),
    {
        proof {
            use_type_invariant(&*self);
        }
        if self.phase != ScanPhase::Listing {
            return;
        }
        let mut st = Scanner::placeholder();
        std::mem::swap(&mut st, self);
        proof {
            use_type_invariant(&st);
        }
        let Scanner { options, mut queue, head, seen, current, phase, mut result } = st;
        let ghost old_pending = queue@.skip(head as int).map_values(|e: (String, usize)| entry_view(e));
        let names = match names {
            None => {
                result.directories_skipped = if result.directories_skipped < usize::MAX {
                    result.directories_skipped + 1
                } else {
                    usize::MAX
                };
                *self = Scanner { options, queue, head, seen, current, phase: ScanPhase::Idle, result };
                return;
            },
            Some(v) => v,
        };
        let ghost extra = views(options.extra_ignores@);
        let ghost given = views(names@);
        let ghost skipped0 = result.directories_skipped;
        let ghost result0 = result;
        let mut sorted: Vec<String> = Vec::new();
        let mut i: usize = 0;
        assert(given.take(0) =~= Seq::<Seq<char>>::empty());
        while i < names.len()
            invariant
                i <= names.len(),
                given == views(names@),
                extra == views(options.extra_ignores@),
                strictly_sorted(views(sorted@)),
                views(sorted@).to_set() == kept_names(extra, given.take(i as int)).to_set(),
                result.directories_skipped == sat_add(skipped0, count_ignored(extra, given.take(i as int))),
                result.drafts == result0.drafts,
                result.directories_visited == result0.directories_visited,
                result.truncated == result0.truncated,
            decreases names.len() - i,
        {
            let ghost t = given.take(i + 1);
            assert(t.drop_last() =~= given.take(i as int));
            assert(t.last() == names@[i as int]@);
            if options.is_ignored(names[i].as_str()) {
                result.directories_skipped = if result.directories_skipped < usize::MAX {
                    result.directories_skipped + 1
                } else {
                    usize::MAX
                };
                assert(kept_names(extra, t) =~= kept_names(extra, given.take(i as int)) + Seq::<Seq<char>>::empty());
            } else {
                let ghost before = views(sorted@).to_set();
                insert_name(&mut sorted, names[i].clone());
                proof {
                    let k0 = kept_names(extra, given.take(i as int));
                    let k1 = kept_names(extra, t);
                    assert(k1 =~= k0.push(names@[i as int]@));
                    assert forall|y: Seq<char>| k1.to_set().contains(y) == k0.to_set().insert(names@[i as int]@).contains(y) by {
                        if k1.contains(y) {
                            let w = choose|w: int| 0 <= w < k1.len() && k1[w] == y;
                            if w < k0.len() {
                                assert(k0[w] == y);
                            }
                        }
                        if k0.contains(y) {
                            let w = choose|w: int| 0 <= w < k0.len() && k0[w] == y;
                            assert(k1[w] == y);
                        }
                        if y == names@[i as int]@ {
                            assert(k1[k0.len() as int] == y);
                        }
                    }
                    assert(k1.to_set() =~= k0.to_set().insert(names@[i as int]@));
                }
            }
            i += 1;
        }
        assert(given.take(names.len() as int) =~= given);
        let depth = current.1 + 1;
        let ghost sv = views(sorted@);
        let ghost base_queue = queue@;
        let mut j: usize = 0;
        while j < sorted.len()
            invariant
                j <= sorted.len(),
                sv == views(sorted@),
                head <= base_queue.len(),
                queue@.len() == base_queue.len() + j,
                forall|k: int| 0 <= k < base_queue.len() ==> queue@[k] == base_queue[k],
                forall|k: int| 0 <= k < j ==> entry_view(#[trigger] queue@[base_queue.len() + k]) == (join_spec(current.0@, sv[k]), depth),
                forall|k: int| 0 <= k < base_queue.len() ==> (#[trigger] base_queue[k]).1 <= options.max_depth,
                depth <= options.max_depth,
                forall|k: int| 0 <= k < queue@.len() ==> (#[trigger] queue@[k]).1 <= options.max_depth,
            decreases sorted.len() - j,
        {
            let child = join_path(current.0.as_str(), sorted[j].as_str());
            queue.push((child, depth));
            j += 1;
        }
        proof {
            let newp = queue@.skip(head as int).map_values(|e: (String, usize)| entry_view(e));
            let expect = old_pending + queued_children(current.0@, sv, depth);
            assert(newp.len() == expect.len());
            assert forall|k: int| 0 <= k < newp.len() implies newp[k] == expect[k] by {
                if k < old_pending.len() {
                    assert(newp[k] == entry_view(queue@[head + k]));
                    assert(queue@[head + k] == base_queue[head + k]);
                } else {
                    let c = k - old_pending.len();
                    assert(head + k == base_queue.len() + c);
                    assert(newp[k] == entry_view(queue@[base_queue.len() + c]));
                }
            }
            assert(newp =~= expect);
        }
        *self = Scanner { options, queue, head, seen, current, phase: ScanPhase::Idle, result };
    }

    /// What the scan has found so far.
    pub fn result(&self) -> (r: &ScanResult)
        ensures
            *r == self.report(),
            r.drafts@.len() <= self.settings().max_results,
    {
        proof {
            use_type_invariant(self);
        }
        &self.result
    }

    /// Ends the scan, handing back what it found.
    pub fn finish(self) -> (r: ScanResult)
        ensures
            r == self.report(),
            r.drafts@.len() <= self.settings().max_results,
    {
        proof {
            use_type_invariant(&self);
        }
        self.result
    }
}

} // verus!
