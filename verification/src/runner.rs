//! A runner defined by a manifest: detection, variables and commands.
use vstd::prelude::*;

use crate::command::{expand_spec, resolve_spec, views, CommandSpec, Lifecycle, ResolvedCommand, TemplateVars};
use crate::error::DeckError;
use crate::glob::{fold_case, glob_spec, split_dir, split_dir_spec};
use crate::manifest::{command_for, RunnerManifest, RunnerMeta, ValueSource, VarCase, VarRule};
use crate::probe::{is_listed_file, listed_file, opt_str, ProjectProbe};
use crate::rule::{detects, evaluate, evaluate_all, read_value, rule_holds, value_of};
use crate::text::{chars_of, lemma_lex_order, lex_less, str_less, string_of};

verus! {

broadcast use vstd::string::group_string_axioms;

/// Whether two runner descriptions hold the same values.
pub open spec fn same_meta(a: RunnerMeta, b: RunnerMeta) -> bool {
    &&& a.id == b.id
    &&& a.name == b.name
    &&& a.language == b.language
    &&& a.framework == b.framework
    &&& a.icon == b.icon
    &&& a.priority == b.priority
    &&& a.default_ports@ == b.default_ports@
}

/// A field-by-field copy of a runner description.
fn copy_meta(m: &RunnerMeta) -> (r: RunnerMeta)
    ensures
        same_meta(r, *m),
{
    RunnerMeta {
        id: m.id.clone(),
        name: m.name.clone(),
        language: m.language.clone(),
        framework: match &m.framework {
            Some(s) => Some(s.clone()),
            None => None,
        },
        icon: match &m.icon {
            Some(s) => Some(s.clone()),
            None => None,
        },
        priority: m.priority,
        default_ports: m.default_ports.clone(),
    }
}

/// The outcome of a successful detection.
#[derive(Debug)]
pub struct DetectionMatch {
    /// Which runner matched.
    pub meta: RunnerMeta,
    /// Variables resolved from the directory, for command templates.
    pub vars: TemplateVars,
    /// The project's own declared version, if the runner knows where to read it.
    pub version: Option<String>,
}

impl DetectionMatch {
    /// Tie-break when several runners match. Higher wins.
    pub fn priority(&self) -> (r: i32)
        ensures
            r == self.meta.priority,
    {
        self.meta.priority
    }
}

// ---------------------------------------------------------------------------
// First matching entry
// ---------------------------------------------------------------------------

/// Whether `x` is the least of `s` in string order.
pub open spec fn is_least(x: Seq<char>, s: Seq<Seq<char>>) -> bool {
    s.contains(x) && forall|i: int| 0 <= i < s.len() ==> !lex_less(#[trigger] s[i], x)
}

/// The entries listed in `dir` that match the wildcard `pat`, ignoring
/// case; in a subdirectory only files count.
pub open spec fn matching_names<P: ProjectProbe>(p: &P, dir: Option<Seq<char>>, pat: Seq<char>) -> Seq<Seq<char>> {
    p.listing(dir).filter(|n: Seq<char>| glob_spec(fold_case(n), fold_case(pat)) && listed_file(p, dir, n))
}

/// The first entry, in string order, matching `pattern` once its variables
/// are expanded (an unexpandable pattern is used as written). With a directory
/// part the result carries it, joined with `/`.
pub open spec fn first_entry<P: ProjectProbe>(p: &P, pattern: Seq<char>, vars: Map<Seq<char>, Seq<char>>) -> Option<Seq<char>> {
    let expanded = match expand_spec(vars, pattern) {
        Ok(t) => t,
        Err(_) => pattern,
    };
    let dir = split_dir_spec(expanded).0;
    let hits = matching_names(p, dir, split_dir_spec(expanded).1);
    if hits.len() == 0 {
        None
    } else {
        let first = choose|x: Seq<char>| is_least(x, hits);
        Some(
            match dir {
                Some(d) => d + seq!['/'] + first,
                None => first,
            },
        )
    }
}

/// The least of a non-empty sequence exists and is unique.
pub proof fn lemma_least_unique(s: Seq<Seq<char>>, x: Seq<char>)
    requires
        is_least(x, s),
    ensures
        (choose|y: Seq<char>| is_least(y, s)) == x,
{
    let y = choose|y: Seq<char>| is_least(y, s);
    assert(is_least(y, s));
    let iy = choose|i: int| 0 <= i < s.len() && s[i] == y;
    let ix = choose|i: int| 0 <= i < s.len() && s[i] == x;
    assert(!lex_less(s[iy], x));
    assert(!lex_less(s[ix], y));
    lemma_lex_order(x, y, x);
}

/// The first root or subdirectory entry matching `pattern`, in string order.
pub fn first_matching_entry<P: ProjectProbe>(probe: &P, pattern: &str, vars: &TemplateVars) -> (r: Option<String>)
    ensures
        match first_entry(probe, pattern@, vars@) {
            None => r is None,
            Some(e) => r matches Some(s) && s@ == e,
        },
{
    let expanded = match vars.expand(pattern) {
        Ok(t) => t,
        Err(_) => string_of(&chars_of(pattern)),
    };
    let (dir, name_pat) = split_dir(expanded.as_str());
    let names = match &dir {
        None => probe.root_entries(),
        Some(d) => probe.entries_in(d.as_str()),
    };
    let ghost listed = views(names@);
    let ghost gdir = opt_str(dir);
    let ghost pred = |n: Seq<char>| glob_spec(fold_case(n), fold_case(name_pat@)) && listed_file(probe, gdir, n);
    let mut best: Option<String> = None;
    let mut i: usize = 0;
    assert(listed.take(0).filter(pred) =~= Seq::<Seq<char>>::empty());
    while i < names.len()
        invariant
            i <= names.len(),
            listed == views(names@),
            pred == (|n: Seq<char>| glob_spec(fold_case(n), fold_case(name_pat@)) && listed_file(probe, gdir, n)),
            gdir == opt_str(dir),
            match best {
                None => listed.take(i as int).filter(pred).len() == 0,
                Some(b) => is_least(b@, listed.take(i as int).filter(pred)),
            },
        decreases names.len() - i,
    {
        let ghost before = listed.take(i as int).filter(pred);
        let ghost after = listed.take(i + 1).filter(pred);
        let n = &names[i];
        proof {
            reveal_with_fuel(Seq::<_>::filter, 1);
            assert(listed.take(i + 1).drop_last() =~= listed.take(i as int));
            assert(listed[i as int] == n@);
        }
        if crate::glob::matches(n.as_str(), name_pat.as_str()) && is_listed_file(probe, &dir, n.as_str()) {
            assert(after == before.push(n@));
            let replace = match &best {
                None => true,
                Some(b) => str_less(n.as_str(), b.as_str()),
            };
            let ghost gbest = best;
            proof {
                match gbest {
                    None => {
                        assert(after =~= seq![n@]);
                        assert(after[0] == n@);
                        lemma_lex_order(n@, n@, n@);
                    },
                    Some(b) => {
                        assert(after[before.len() as int] == n@);
                        if replace {
                            assert forall|k: int| 0 <= k < after.len() implies !lex_less(#[trigger] after[k], n@) by {
                                if k < before.len() {
                                    assert(after[k] == before[k]);
                                    assert(!lex_less(before[k], b@));
                                    lemma_lex_order(before[k], b@, n@);
                                    lemma_lex_order(n@, b@, before[k]);
                                    lemma_lex_order(before[k], n@, b@);
                                } else {
                                    lemma_lex_order(n@, n@, n@);
                                }
                            }
                        } else {
                            let ib = choose|k: int| 0 <= k < before.len() && before[k] == b@;
                            assert(after[ib] == b@);
                            assert forall|k: int| 0 <= k < after.len() implies !lex_less(#[trigger] after[k], b@) by {
                                if k < before.len() {
                                    assert(after[k] == before[k]);
                                }
                            }
                        }
                    },
                }
            }
            if replace {
                best = Some(string_of(&chars_of(n.as_str())));
            }
        } else {
            assert(after == before);
        }
        i += 1;
    }
    assert(listed.take(names.len() as int) =~= listed);
    let ghost gbest = best;
    proof {
        if let Some(b) = gbest {
            lemma_least_unique(listed.filter(pred), b@);
        }
    }
    match best {
        None => None,
        Some(first) => match dir {
            Some(d) => {
                let mut v = chars_of(d.as_str());
                v.push('/');
                let mut f = chars_of(first.as_str());
                v.append(&mut f);
                assert(v@ =~= d@ + seq!['/'] + first@);
                Some(string_of(&v))
            },
            None => Some(first),
        },
    }
}


// ---------------------------------------------------------------------------
// Variables
// ---------------------------------------------------------------------------

/// The value of the first case whose condition holds.
pub open spec fn first_case<P: ProjectProbe>(cases: Seq<VarCase>, p: &P) -> Option<Seq<char>>
    decreases cases.len(),
{
    if cases.len() == 0 {
        None
    } else if rule_holds(cases[0].when, p) {
        Some(cases[0].value@)
    } else {
        first_case(cases.drop_first(), p)
    }
}

/// The first entry matched by the first pattern of `pats` that matches anything.
pub open spec fn first_entry_any<P: ProjectProbe>(pats: Seq<String>, p: &P, vars: Map<Seq<char>, Seq<char>>) -> Option<Seq<char>>
    decreases pats.len(),
{
    if pats.len() == 0 {
        None
    } else {
        match first_entry(p, pats[0]@, vars) {
            Some(e) => Some(e),
            None => first_entry_any(pats.drop_first(), p, vars),
        }
    }
}

/// The value a variable rule resolves to, given the variables resolved before
/// it: the first case that holds, else the value read from metadata, else the
/// first entry matching `first_match`, else the first entry matching any of
/// `first_match_any`, else the default.
pub open spec fn var_value<P: ProjectProbe>(rule: VarRule, vars: Map<Seq<char>, Seq<char>>, p: &P) -> Seq<char> {
    match first_case(rule.cases@, p) {
        Some(v) => v,
        None => match (match rule.from_value {
            Some(src) => value_of(src, p),
            None => None,
        }) {
            Some(v) => v,
            None => match (match rule.first_match {
                Some(pat) => first_entry(p, pat@, vars),
                None => None,
            }) {
                Some(v) => v,
                None => match first_entry_any(rule.first_match_any@, p, vars) {
                    Some(v) => v,
                    None => rule.default@,
                },
            },
        },
    }
}

/// The variables `rules` resolve to, each rule seeing the ones before it.
pub open spec fn vars_from<P: ProjectProbe>(rules: Seq<VarRule>, p: &P) -> Map<Seq<char>, Seq<char>>
    decreases rules.len(),
{
    if rules.len() == 0 {
        Map::empty()
    } else {
        let before = vars_from(rules.drop_last(), p);
        before.insert(rules.last().name@, var_value(rules.last(), before, p))
    }
}

/// The value of the first case whose condition holds.
fn choose_case<P: ProjectProbe>(cases: &Vec<VarCase>, probe: &P) -> (r: Option<String>)
    ensures
        match first_case(cases@, probe) {
            None => r is None,
            Some(v) => r matches Some(s) && s@ == v,
        },
{
    let mut i: usize = 0;
    assert(cases@.skip(0) =~= cases@);
    while i < cases.len()
        invariant
            i <= cases.len(),
            first_case(cases@.skip(i as int), probe) == first_case(cases@, probe),
        decreases cases.len() - i,
    {
        assert(cases@.skip(i as int)[0] == cases@[i as int]);
        assert(cases@.skip(i as int).drop_first() =~= cases@.skip(i + 1));
        if evaluate(&cases[i].when, probe) {
            return Some(cases[i].value.clone());
        }
        i += 1;
    }
    None
}

/// The first entry matched by the first of `pats` that matches anything.
fn choose_entry_any<P: ProjectProbe>(pats: &Vec<String>, probe: &P, vars: &TemplateVars) -> (r: Option<String>)
    ensures
        match first_entry_any(pats@, probe, vars@) {
            None => r is None,
            Some(v) => r matches Some(s) && s@ == v,
        },
{
    let mut i: usize = 0;
    assert(pats@.skip(0) =~= pats@);
    while i < pats.len()
        invariant
            i <= pats.len(),
            first_entry_any(pats@.skip(i as int), probe, vars@) == first_entry_any(pats@, probe, vars@),
        decreases pats.len() - i,
    {
        assert(pats@.skip(i as int)[0] == pats@[i as int]);
        assert(pats@.skip(i as int).drop_first() =~= pats@.skip(i + 1));
        match first_matching_entry(probe, pats[i].as_str(), vars) {
            Some(e) => {
                return Some(e);
            },
            None => {},
        }
        i += 1;
    }
    None
}

/// The value of one variable rule, given the variables resolved so far.
fn resolve_var<P: ProjectProbe>(rule: &VarRule, vars: &TemplateVars, probe: &P) -> (r: String)
    ensures
        r@ == var_value(*rule, vars@, probe),
{
    if let Some(v) = choose_case(&rule.cases, probe) {
        return v;
    }
    let from = match &rule.from_value {
        Some(src) => read_value(src, probe),
        None => None,
    };
    if let Some(v) = from {
        return v;
    }
    let first = match &rule.first_match {
        Some(pat) => first_matching_entry(probe, pat.as_str(), vars),
        None => None,
    };
    if let Some(v) = first {
        return v;
    }
    match choose_entry_any(&rule.first_match_any, probe, vars) {
        Some(v) => v,
        None => rule.default.clone(),
    }
}

// ---------------------------------------------------------------------------
// The runner
// ---------------------------------------------------------------------------

/// A runner backed by a manifest, remembering the directory its manifest came
/// from so script paths in it resolve against that directory.
#[derive(Debug)]
pub struct ManifestRunner {
    /// The manifest.
    pub manifest: RunnerManifest,
    /// Directory the manifest was loaded from; empty for bundled runners.
    pub base_dir: String,
}

/// What detection in a directory gives: nothing unless every top-level rule
/// holds; then the runner's identity, its resolved variables and the version
/// read from the project.
pub open spec fn detection_holds<P: ProjectProbe>(m: RunnerManifest, p: &P, r: Option<DetectionMatch>) -> bool {
    if !detects(m.detect@, p) {
        r is None
    } else {
        r matches Some(d) && same_meta(d.meta, m.meta) && d.vars@ == vars_from(m.vars@, p) && match m.version {
            None => d.version is None,
            Some(src) => match value_of(src, p) {
                None => d.version is None,
                Some(v) => d.version matches Some(x) && x@ == v,
            },
        }
    }
}

/// Whether an argument names a script the runner may ship beside its manifest.
pub open spec fn is_script_arg(a: Seq<char>) -> bool {
    match crate::path::extension_spec(a) {
        None => false,
        Some(e) => {
            let l = crate::text::lower_ascii_seq(e);
            l == "ps1"@ || l == "sh"@ || l == "py"@ || l == "js"@
        },
    }
}

/// `rel` joined under `base` with a backslash; a rooted `rel`, or an empty
/// base, leaves `rel` as it is.
pub open spec fn join_spec(base: Seq<char>, rel: Seq<char>) -> Seq<char> {
    if crate::probe::rooted(rel) || base.len() == 0 {
        rel
    } else if crate::path::is_sep(base.last()) {
        base + rel
    } else {
        base + seq!['\\'] + rel
    }
}

/// The position of the first script argument, or -1.
pub open spec fn first_script_arg(args: Seq<Seq<char>>) -> int
    decreases args.len(),
{
    if args.len() == 0 {
        -1
    } else if is_script_arg(args[0]) {
        0
    } else {
        let r = first_script_arg(args.drop_first());
        if r < 0 {
            -1
        } else {
            r + 1
        }
    }
}

/// The arguments of a resolved script command: the first script argument is
/// pointed at the runner's own directory when that file exists there.
pub open spec fn script_args<F: Fn(&str) -> bool>(base: Seq<char>, args: Seq<Seq<char>>, f: F) -> Seq<Seq<char>> {
    let k = first_script_arg(args);
    if k >= 0 && k < args.len() && crate::manifest::says(f, join_spec(base, args[k])) {
        args.update(k, join_spec(base, args[k]))
    } else {
        args
    }
}

/// What asking a runner for a lifecycle step's command gives.
pub open spec fn command_result<F: Fn(&str) -> bool>(
    r: Result<ResolvedCommand, DeckError>,
    runner: ManifestRunner,
    step: Lifecycle,
    vars: Map<Seq<char>, Seq<char>>,
    f: F,
) -> bool {
    match command_for(runner.manifest.commands@, step) {
        None => r matches Err(DeckError::LifecycleNotSupported { runner: id, lifecycle }) && id@
            == runner.manifest.meta.id@ && lifecycle == step,
        Some(spec) => match resolve_spec(spec, vars) {
            Err(name) => r matches Err(DeckError::UnknownTemplateVar { variable }) && variable@ == name,
            Ok((p, a)) => r matches Ok(c) && c.program@ == p && views(c.args@) == (if spec is Script {
                script_args(runner.base_dir@, a, f)
            } else {
                a
            }),
        },
    }
}

/// Joins `rel` under `base`.
pub fn join_path(base: &str, rel: &str) -> (r: String)
    ensures
        r@ == join_spec(base@, rel@),
{
    let b = chars_of(base);
    let rv = chars_of(rel);
    let rooted = (rv.len() > 0 && (rv[0] == '/' || rv[0] == '\\')) || (rv.len() >= 2 && rv[1] == ':'
        && (('a' <= rv[0] && rv[0] <= 'z') || ('A' <= rv[0] && rv[0] <= 'Z')));
    if rooted || b.len() == 0 {
        return string_of(&rv);
    }
    let mut out = b;
    if !(out[out.len() - 1] == '/' || out[out.len() - 1] == '\\') {
        out.push('\\');
    }
    let mut tail = rv;
    let ghost o = out@;
    out.append(&mut tail);
    assert(out@ == o + rel@);
    string_of(&out)
}

/// Whether an argument names a script.
fn script_like(a: &str) -> (r: bool)
    ensures
        r == is_script_arg(a@),
{
    match crate::path::extension(a) {
        None => false,
        Some(e) => {
            let l = string_of(&crate::text::lower_chars(&chars_of(e.as_str())));
            crate::text::str_equal(l.as_str(), "ps1") || crate::text::str_equal(l.as_str(), "sh")
                || crate::text::str_equal(l.as_str(), "py") || crate::text::str_equal(l.as_str(), "js")
        },
    }
}

impl ManifestRunner {
    /// A runner for `manifest`, loaded from `base_dir`.
    pub fn new(manifest: RunnerManifest, base_dir: String) -> (r: ManifestRunner)
        ensures
            r.manifest == manifest,
            r.base_dir == base_dir,
    {
        ManifestRunner { manifest, base_dir }
    }

    /// The manifest this runner was built from.
    pub fn manifest(&self) -> (r: &RunnerManifest)
        ensures
            *r == self.manifest,
    {
        &self.manifest
    }

    /// The directory the manifest was loaded from.
    pub fn base_dir(&self) -> (r: &str)
        ensures
            r@ == self.base_dir@,
    {
        self.base_dir.as_str()
    }

    /// Identity and presentation.
    pub fn meta(&self) -> (r: &RunnerMeta)
        ensures
            *r == self.manifest.meta,
    {
        &self.manifest.meta
    }

    /// Resolves this runner's variables against a project.
    pub fn vars_for<P: ProjectProbe>(&self, probe: &P) -> (r: TemplateVars)
        ensures
            r@ == vars_from(self.manifest.vars@, probe),
    {
        let mut vars = TemplateVars::new();
        let mut i: usize = 0;
        let ghost rules = self.manifest.vars@;
        assert(rules.take(0) =~= Seq::<VarRule>::empty());
        while i < self.manifest.vars.len()
            invariant
                i <= self.manifest.vars.len(),
                rules == self.manifest.vars@,
                vars@ == vars_from(rules.take(i as int), probe),
            decreases self.manifest.vars.len() - i,
        {
            let rule = &self.manifest.vars[i];
            let value = resolve_var(rule, &vars, probe);
            vars.set(rule.name.clone(), value);
            assert(rules.take(i + 1).drop_last() =~= rules.take(i as int));
            i += 1;
        }
        assert(rules.take(rules.len() as int) =~= rules);
        vars
    }

    /// Detects this runner in a project: `None` unless every top-level rule holds.
    pub fn detect<P: ProjectProbe>(&self, probe: &P) -> (r: Option<DetectionMatch>)
        ensures
            detection_holds(self.manifest, probe, r),
    {
        if !evaluate_all(self.manifest.detect.as_slice(), probe) {
            return None;
        }
        let version = match &self.manifest.version {
            Some(src) => read_value(src, probe),
            None => None,
        };
        Some(DetectionMatch { meta: copy_meta(&self.manifest.meta), vars: self.vars_for(probe), version })
    }

    /// The lifecycle steps this runner implements.
    pub fn supported(&self) -> (r: Vec<Lifecycle>)
        ensures
            r@ == crate::command::all_steps().filter(|s: Lifecycle| command_for(self.manifest.commands@, s) is Some),
    {
        self.manifest.supported()
    }

    /// Whether this runner implements `step`.
    pub fn supports(&self, step: Lifecycle) -> (r: bool)
        ensures
            r == (command_for(self.manifest.commands@, step) is Some),
    {
        self.manifest.command(step).is_some()
    }

    /// The resolved command for a lifecycle step.
    ///
    /// For a script step, the first argument naming a `.ps1`, `.sh`, `.py` or
    /// `.js` file is pointed at the runner's own directory when `exists` says
    /// the file is there, so a user runner can ship its helper script.
    pub fn command<F: Fn(&str) -> bool>(&self, step: Lifecycle, vars: &TemplateVars, exists: &F) -> (r: Result<ResolvedCommand, DeckError>)
        requires
            crate::manifest::is_path_oracle(*exists),
        ensures
            command_result(r, *self, step, vars@, *exists),
    {
        let spec = match self.manifest.command(step) {
            Some(s) => s,
            None => {
                return Err(DeckError::LifecycleNotSupported { runner: self.manifest.meta.id.clone(), lifecycle: step });
            },
        };
        let mut resolved = match spec.resolve(vars) {
            Ok(c) => c,
            Err(e) => {
                return Err(e);
            },
        };
        if let CommandSpec::Script { .. } = spec {
            let ghost a = views(resolved.args@);
            let mut i: usize = 0;
            while i < resolved.args.len() && !script_like(resolved.args[i].as_str())
                invariant
                    i <= resolved.args.len(),
                    a == views(resolved.args@),
                    forall|m: int| 0 <= m < i ==> !is_script_arg(#[trigger] a[m]),
                decreases resolved.args.len() - i,
            {
                i += 1;
            }
            proof {
                lemma_first_script_arg(a, i as int);
            }
            if i < resolved.args.len() {
                let candidate = join_path(self.base_dir.as_str(), resolved.args[i].as_str());
                if crate::manifest::ask(exists, candidate.as_str()) {
                    resolved.args.set(i, candidate);
                    assert(views(resolved.args@) =~= a.update(i as int, join_spec(self.base_dir@, a[i as int])));
                }
            }
        }
        Ok(resolved)
    }
}

/// What every runner offers: its identity, detection in a directory, the
/// steps it implements and the command for one of them.
pub trait Runner {
    /// Identity and presentation.
    fn meta(&self) -> &RunnerMeta;

    /// Detects this runner in the project `probe` looks at.
    fn detect<P: ProjectProbe>(&self, probe: &P) -> Option<DetectionMatch>;

    /// The lifecycle steps this runner implements.
    fn supported(&self) -> Vec<Lifecycle>;

    /// The resolved command for `step`, `exists` answering whether a file is
    /// at a path.
    fn command<F: Fn(&str) -> bool>(&self, step: Lifecycle, vars: &TemplateVars, exists: &F) -> Result<
        ResolvedCommand,
        DeckError,
    >
        requires
            crate::manifest::is_path_oracle(*exists),
    ;

    /// Whether this runner implements `step`.
    fn supports(&self, step: Lifecycle) -> bool;
}

impl Runner for ManifestRunner {
    fn meta(&self) -> (r: &RunnerMeta)
        ensures
            *r == self.manifest.meta,
    {
        &self.manifest.meta
    }

    fn detect<P: ProjectProbe>(&self, probe: &P) -> (r: Option<DetectionMatch>)
        ensures
            detection_holds(self.manifest, probe, r),
    {
        ManifestRunner::detect(self, probe)
    }

    fn supported(&self) -> (r: Vec<Lifecycle>)
        ensures
            r@ == crate::command::all_steps().filter(|s: Lifecycle| command_for(self.manifest.commands@, s) is Some),
    {
        ManifestRunner::supported(self)
    }

    fn command<F: Fn(&str) -> bool>(&self, step: Lifecycle, vars: &TemplateVars, exists: &F) -> (r: Result<
        ResolvedCommand,
        DeckError,
    >)
        ensures
            command_result(r, *self, step, vars@, *exists),
    {
        ManifestRunner::command(self, step, vars, exists)
    }

    fn supports(&self, step: Lifecycle) -> (r: bool)
        ensures
            r == (command_for(self.manifest.commands@, step) is Some),
    {
        ManifestRunner::supports(self, step)
    }
}

proof fn lemma_first_script_arg(args: Seq<Seq<char>>, k: int)
    requires
        0 <= k <= args.len(),
        forall|m: int| 0 <= m < k ==> !is_script_arg(#[trigger] args[m]),
        k < args.len() ==> is_script_arg(args[k]),
    ensures
        first_script_arg(args) == (if k < args.len() { k } else { -1 }),
    decreases k,
{
    if k > 0 {
        assert forall|m: int| 0 <= m < k - 1 implies !is_script_arg(#[trigger] args.drop_first()[m]) by {
            assert(args.drop_first()[m] == args[m + 1]);
        }
        lemma_first_script_arg(args.drop_first(), k - 1);
    }
}

} // verus!
