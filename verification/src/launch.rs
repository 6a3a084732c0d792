//! Turning a registered project into something the supervisor can spawn.
//!
//! The precedence rules, stated once:
//!
//! * **Command**: the user's override for the step, else the runner's template.
//! * **Variables**: resolved from the directory, overlaid with the
//!   project-level variables (`{projectRoot}`, `{projectName}`, `{dirName}`).
//! * **Arguments**: `overrides.args` are appended to Run and Debug commands.
//! * **Environment**: the `.env` file first, explicit overrides second.
//! * **Working directory**: the override, else the project root.
use vstd::prelude::*;

use crate::command::{project_vars, resolve_spec, views, CommandSpec, Lifecycle, ResolvedCommand, TemplateVars};
use crate::error::DeckError;
use crate::manifest::command_for;
use crate::probe::ProjectProbe;
use crate::project::{EnvVar, Project};
use crate::registry::{index_of_id, RunnerRegistry};
use crate::runner::{command_result, join_spec, script_args, vars_from, ManifestRunner};
use crate::manual::{split_words, words_from};
use crate::probe::{json_value_at, pointer_spec};
use crate::studio::{lines_spec, split_lines};
use crate::text::{
    chars_contain, chars_of, contains_seq, is_ws, starts_with_seq, str_equal, str_starts_with, string_of,
    trim, trim_chars, trim_end, trim_start,
};

verus! {

broadcast use vstd::string::group_string_axioms;

// ---------------------------------------------------------------------------
// .env files
// ---------------------------------------------------------------------------

/// `v` without one pair of matching surrounding quotes (double, else single).
pub open spec fn unquoted(v: Seq<char>) -> Seq<char> {
    if v.len() >= 2 && v[0] == '"' && v.last() == '"' {
        v.subrange(1, v.len() - 1)
    } else if v.len() >= 2 && v[0] == '\'' && v.last() == '\'' {
        v.subrange(1, v.len() - 1)
    } else {
        v
    }
}

/// The assignment one line of a `.env` file makes, if any: blank lines and
/// `#` comments make none, an `export ` prefix is tolerated, the key and value
/// are trimmed, a line without `=` or with an empty key is skipped, and one
/// pair of surrounding quotes is removed from the value.
pub open spec fn env_line(raw: Seq<char>) -> Option<(Seq<char>, Seq<char>)> {
    let line = trim(raw);
    if line.len() == 0 || starts_with_seq(line, "#"@) {
        None
    } else {
        let l = if starts_with_seq(line, "export "@) { line.skip(7) } else { line };
        let eq = crate::command::first_pos(l, '=');
        if eq < 0 {
            None
        } else {
            let key = trim(l.take(eq));
            if key.len() == 0 {
                None
            } else {
                Some((key, unquoted(trim(l.skip(eq + 1)))))
            }
        }
    }
}

proof fn lemma_trim_end_is_prefix(s: Seq<char>)
    ensures
        trim_end(s).len() <= s.len(),
        trim_end(s) == s.take(trim_end(s).len() as int),
    decreases s.len(),
{
    if s.len() > 0 && is_ws(s.last()) {
        lemma_trim_end_is_prefix(s.drop_last());
        assert(s.drop_last().take(trim_end(s).len() as int) =~= s.take(trim_end(s).len() as int));
    } else {
        assert(s.take(s.len() as int) =~= s);
    }
}

proof fn lemma_trim_start_begins_solid(s: Seq<char>)
    ensures
        trim_start(s).len() > 0 ==> !is_ws(trim_start(s)[0]),
    decreases s.len(),
{
    if s.len() > 0 && is_ws(s[0]) {
        lemma_trim_start_begins_solid(s.drop_first());
    }
}

/// A trimmed text that is not empty begins with what `s`, trimmed only at
/// the start, begins with, which is no whitespace.
proof fn lemma_trim_begins_solid(s: Seq<char>)
    ensures
        trim(s).len() > 0 ==> trim(s)[0] == trim_start(s)[0] && !is_ws(trim(s)[0]),
{
    lemma_trim_start_begins_solid(s);
    lemma_trim_end_is_prefix(trim_start(s));
    if trim(s).len() > 0 {
        assert(trim(s)[0] == trim_start(s).take(trim(s).len() as int)[0]);
    }
}

/// A `.env` line that is blank or, trimmed, begins with `#` assigns nothing,
/// so a commented-out assignment never reaches the environment. An
/// assignment has a non-empty key, and that key begins with `#` only where
/// the line begins with `export ` (`export #A=1` assigns `#A`: the comment
/// test is made before the `export ` prefix is taken off).
pub proof fn a_comment_line_assigns_nothing(raw: Seq<char>)
    ensures
        trim(raw).len() == 0 ==> env_line(raw) is None,
        trim(raw).len() > 0 && trim(raw)[0] == '#' ==> env_line(raw) is None,
        env_line(raw) matches Some(kv) ==> kv.0.len() > 0 && (kv.0[0] == '#' ==> starts_with_seq(
            trim(raw),
            "export "@,
        )),
{
    reveal_strlit("#");
    let line = trim(raw);
    if line.len() > 0 && line[0] == '#' {
        assert(line.subrange(0, 1) =~= "#"@);
    }
    if env_line(raw) is Some && !starts_with_seq(line, "export "@) {
        let eq = crate::command::first_pos(line, '=');
        let head = line.take(eq);
        let key = trim(head);
        crate::command::lemma_first_pos_bounds(line, '=');
        lemma_trim_begins_solid(raw);
        if key.len() > 0 {
            assert(head.len() > 0);
            assert(head[0] == line[0]);
            assert(trim_start(head) == head);
            lemma_trim_begins_solid(head);
            if key[0] == '#' {
                assert(line.subrange(0, 1) =~= "#"@);
            }
        }
    }
}

/// The assignments of `lines[i..]`, in order.
pub open spec fn env_from(lines: Seq<Seq<char>>, i: int) -> Seq<(Seq<char>, Seq<char>)>
    decreases lines.len() - i,
{
    if i < 0 || i >= lines.len() {
        Seq::empty()
    } else {
        match env_line(lines[i]) {
            Some(kv) => seq![kv] + env_from(lines, i + 1),
            None => env_from(lines, i + 1),
        }
    }
}

/// The assignments a `.env` file body makes, in order.
pub open spec fn env_spec(body: Seq<char>) -> Seq<(Seq<char>, Seq<char>)> {
    env_from(lines_spec(body), 0)
}

proof fn lemma_env_from_lines(lines: Seq<Seq<char>>, i: int)
    requires
        0 <= i,
    ensures
        forall|n: int| #![trigger env_from(lines, i)[n]] 0 <= n < env_from(lines, i).len() ==> exists|j: int|
            i <= j < lines.len() && env_line(#[trigger] lines[j]) == Some(env_from(lines, i)[n]),
    decreases lines.len() - i,
{
    if i < lines.len() {
        lemma_env_from_lines(lines, i + 1);
        let rest = env_from(lines, i + 1);
        match env_line(lines[i]) {
            Some(kv) => {
                assert forall|n: int| #![trigger env_from(lines, i)[n]] 0 <= n < env_from(lines, i).len() implies exists|j: int|
                    i <= j < lines.len() && env_line(#[trigger] lines[j]) == Some(env_from(lines, i)[n]) by {
                    if n == 0 {
                        assert(env_line(lines[i]) == Some(env_from(lines, i)[0]));
                    } else {
                        assert(env_from(lines, i)[n] == rest[n - 1]);
                    }
                }
            },
            None => {},
        }
    }
}

/// Every assignment a `.env` body makes comes from a
/// line of it that assigns exactly that and is no comment: commented-out
/// assignments never reach the environment.
pub proof fn every_assignment_comes_from_a_live_line(body: Seq<char>)
    ensures
        forall|n: int| #![trigger env_spec(body)[n]] 0 <= n < env_spec(body).len() ==> exists|j: int|
            0 <= j < lines_spec(body).len() && env_line(#[trigger] lines_spec(body)[j]) == Some(env_spec(body)[n])
                && !(trim(lines_spec(body)[j]).len() > 0 && trim(lines_spec(body)[j])[0] == '#'),
{
    let lines = lines_spec(body);
    lemma_env_from_lines(lines, 0);
    assert forall|n: int| #![trigger env_spec(body)[n]] 0 <= n < env_spec(body).len() implies exists|j: int|
        0 <= j < lines.len() && env_line(#[trigger] lines[j]) == Some(env_spec(body)[n]) && !(trim(lines[j]).len() > 0
            && trim(lines[j])[0] == '#') by {
        let j = choose|j: int| 0 <= j < lines.len() && env_line(#[trigger] lines[j]) == Some(env_from(lines, 0)[n]);
        a_comment_line_assigns_nothing(lines[j]);
    }
}

/// The views of a list of string pairs.
pub open spec fn pair_views(v: Seq<(String, String)>) -> Seq<(Seq<char>, Seq<char>)> {
    v.map_values(|p: (String, String)| (p.0@, p.1@))
}

/// The assignment one line makes.
fn parse_env_line(raw: &str) -> (r: Option<(String, String)>)
    ensures
        match env_line(raw@) {
            None => r is None,
            Some((k, v)) => r matches Some(p) && p.0@ == k && p.1@ == v,
        },
{
    let line = trim_chars(&chars_of(raw));
    let ls = string_of(&line);
    if line.len() == 0 || str_starts_with(ls.as_str(), "#") {
        return None;
    }
    let l: Vec<char> = if str_starts_with(ls.as_str(), "export ") {
        proof {
            reveal_strlit("export ");
        }
        crate::text::slice_chars(&line, 7, line.len())
    } else {
        line
    };
    assert(l@ == (if starts_with_seq(trim(raw@), "export "@) { trim(raw@).skip(7) } else { trim(raw@) }));
    let mut eq: usize = 0;
    while eq < l.len() && l[eq] != '='
        invariant
            eq <= l.len(),
            forall|m: int| 0 <= m < eq ==> l@[m] != '=',
        decreases l.len() - eq,
    {
        eq += 1;
    }
    proof {
        crate::command::lemma_first_pos(l@, '=', eq as int);
    }
    if eq == l.len() {
        return None;
    }
    let key = trim_chars(&crate::text::slice_chars(&l, 0, eq));
    assert(l@.subrange(0, eq as int) =~= l@.take(eq as int));
    if key.len() == 0 {
        return None;
    }
    let v = trim_chars(&crate::text::slice_chars(&l, eq + 1, l.len()));
    assert(l@.subrange(eq + 1, l@.len() as int) =~= l@.skip(eq + 1));
    let n = v.len();
    let value = if n >= 2 && ((v[0] == '"' && v[n - 1] == '"') || (v[0] == '\'' && v[n - 1] == '\'')) {
        crate::text::slice_chars(&v, 1, n - 1)
    } else {
        v
    };
    Some((string_of(&key), string_of(&value)))
}

/// The assignments a `.env` file body makes, in order.
pub fn parse_env_text(body: &str) -> (r: Vec<(String, String)>)
    ensures
        pair_views(r@) == env_spec(body@),
{
    let lines = split_lines(body);
    let ghost ls = views(lines@);
    let mut out: Vec<(String, String)> = Vec::new();
    let mut i: usize = 0;
    assert(pair_views(out@) =~= Seq::<(Seq<char>, Seq<char>)>::empty());
    while i < lines.len()
        invariant
            i <= lines.len(),
            ls == views(lines@),
            ls == lines_spec(body@),
            env_spec(body@) == pair_views(out@) + env_from(ls, i as int),
        decreases lines.len() - i,
    {
        assert(ls[i as int] == lines@[i as int]@);
        let ghost before = pair_views(out@);
        match parse_env_line(lines[i].as_str()) {
            Some(kv) => {
                let ghost kvv = (kv.0@, kv.1@);
                out.push(kv);
                assert(pair_views(out@) =~= before.push(kvv));
                assert(before + (seq![kvv] + env_from(ls, i + 1)) =~= before.push(kvv) + env_from(ls, i + 1));
            },
            None => {},
        }
        i += 1;
    }
    assert(pair_views(out@) + env_from(ls, i as int) =~= pair_views(out@));
    out
}


// ---------------------------------------------------------------------------
// Package scripts that are plain node invocations
// ---------------------------------------------------------------------------

/// Whether a program is a JavaScript package manager.
pub open spec fn package_manager(p: Seq<char>) -> bool {
    p == "npm"@ || p == "pnpm"@ || p == "yarn"@ || p == "bun"@
}

/// Characters that make a script line need a shell.
pub open spec fn shell_char(c: char) -> bool {
    c == '&' || c == '|' || c == '>' || c == '<' || c == ';' || c == '$' || c == '%' || c == '"' || c == '\''
}

/// `s` as one RFC 6901 reference token: `~` written `~0`, `/` written `~1`.
pub open spec fn escape_token(s: Seq<char>) -> Seq<char>
    decreases s.len(),
{
    if s.len() == 0 {
        Seq::empty()
    } else {
        escape_token(s.drop_last()) + if s.last() == '~' {
            seq!['~', '0']
        } else if s.last() == '/' {
            seq!['~', '1']
        } else {
            seq![s.last()]
        }
    }
}

/// The pointer to a script's command line in `package.json`.
pub open spec fn script_pointer(script: Seq<char>) -> Seq<char> {
    seq!['/', 's', 'c', 'r', 'i', 'p', 't', 's', '/'] + escape_token(script)
}

/// A package-manager `run` of a script that is a plain `node` invocation,
/// replaced by that invocation: `npm run dev` whose script is `node server.js`
/// becomes `node server.js` with any further arguments kept. Anything else,
/// including a script line with shell syntax, is left alone.
pub open spec fn unwrapped(program: Seq<char>, args: Seq<Seq<char>>, package_json: Option<Seq<char>>) -> (Seq<char>, Seq<Seq<char>>) {
    if !package_manager(program) || args.len() < 2 || args[0] != "run"@ {
        (program, args)
    } else {
        match package_json {
            None => (program, args),
            Some(text) => match json_value_at(text, script_pointer(args[1])) {
                Some((kind, line)) => {
                    let words = words_from(line, 0, Seq::empty());
                    if kind != 0 || (exists|i: int| 0 <= i < line.len() && shell_char(#[trigger] line[i]))
                        || words.len() == 0 || words[0] != "node"@ {
                        (program, args)
                    } else {
                        ("node"@, words.skip(1) + args.skip(2))
                    }
                },
                None => (program, args),
            },
        }
    }
}

/// The escaped form of a reference token.
fn escape(s: &str) -> (r: Vec<char>)
    ensures
        r@ == escape_token(s@),
{
    let v = chars_of(s);
    let mut out: Vec<char> = Vec::new();
    let mut i: usize = 0;
    while i < v.len()
        invariant
            i <= v.len(),
            v@ == s@,
            out@ == escape_token(v@.take(i as int)),
        decreases v.len() - i,
    {
        let ghost before = out@;
        assert(v@.take(i + 1).drop_last() =~= v@.take(i as int));
        if v[i] == '~' {
            out.push('~');
            out.push('0');
        } else if v[i] == '/' {
            out.push('~');
            out.push('1');
        } else {
            out.push(v[i]);
        }
        assert(out@ =~= escape_token(v@.take(i + 1)));
        i += 1;
    }
    assert(v@.take(v.len() as int) =~= v@);
    out
}

/// Whether any character of `v` needs a shell.
fn has_shell_char(v: &Vec<char>) -> (r: bool)
    ensures
        r == exists|i: int| 0 <= i < v@.len() && shell_char(#[trigger] v@[i]),
{
    let mut i: usize = 0;
    while i < v.len()
        invariant
            i <= v.len(),
            forall|k: int| 0 <= k < i ==> !shell_char(#[trigger] v@[k]),
        decreases v.len() - i,
    {
        let c = v[i];
        if c == '&' || c == '|' || c == '>' || c == '<' || c == ';' || c == '$' || c == '%' || c == '"' || c == '\'' {
            return true;
        }
        i += 1;
    }
    false
}

/// Runs a `package.json` script that is a plain `node` command directly, so
/// the supervised process is the server itself rather than a package manager
/// wrapping it. `package_json` is the text of the working directory's
/// `package.json`, if it could be read.
pub fn unwrap_package_script(command: &mut ResolvedCommand, package_json: Option<&str>)
    ensures
        (final(command).program@, views(final(command).args@)) == unwrapped(
            old(command).program@,
            views(old(command).args@),
            match package_json {
                Some(t) => Some(t@),
                None => None,
            },
        ),
{
    let p = command.program.as_str();
    if !(str_equal(p, "npm") || str_equal(p, "pnpm") || str_equal(p, "yarn") || str_equal(p, "bun")) {
        return;
    }
    if command.args.len() < 2 || !str_equal(command.args[0].as_str(), "run") {
        return;
    }
    assert(views(command.args@)[0] == command.args@[0]@);
    assert(views(command.args@)[1] == command.args@[1]@);
    let text = match package_json {
        Some(t) => t,
        None => {
            return;
        },
    };
    let mut pointer = chars_of("/scripts/");
    proof {
        reveal_strlit("/scripts/");
    }
    let mut esc = escape(command.args[1].as_str());
    pointer.append(&mut esc);
    assert(pointer@ =~= script_pointer(command.args@[1]@));
    let found = crate::probe::json_at(text, string_of(&pointer).as_str());
    let line = match found {
        Some((0, l)) => l,
        _ => {
            return;
        },
    };
    let lv = chars_of(line.as_str());
    if has_shell_char(&lv) {
        return;
    }
    let words = split_words(&lv);
    if words.len() == 0 || !str_equal(words[0].as_str(), "node") {
        assert(words.len() > 0 ==> views(words@)[0] == words@[0]@);
        return;
    }
    let ghost old_args = views(command.args@);
    let mut args: Vec<String> = Vec::new();
    let mut i: usize = 1;
    while i < words.len()
        invariant
            1 <= i <= words.len(),
            views(args@) == views(words@).subrange(1, i as int),
        decreases words.len() - i,
    {
        let ghost before = views(args@);
        args.push(words[i].clone());
        assert(views(args@) =~= before.push(words@[i as int]@));
        assert(views(words@).subrange(1, i + 1) =~= views(words@).subrange(1, i as int).push(words@[i as int]@));
        i += 1;
    }
    let mut j: usize = 2;
    let ghost head = views(args@);
    while j < command.args.len()
        invariant
            2 <= j <= command.args.len(),
            views(command.args@) == old_args,
            views(args@) == head + old_args.subrange(2, j as int),
        decreases command.args.len() - j,
    {
        let ghost before = views(args@);
        args.push(command.args[j].clone());
        assert(views(args@) =~= before.push(command.args@[j as int]@));
        assert(old_args.subrange(2, j + 1) =~= old_args.subrange(2, j as int).push(command.args@[j as int]@));
        j += 1;
    }
    assert(head =~= views(words@).skip(1));
    assert(old_args.subrange(2, old_args.len() as int) =~= old_args.skip(2));
    command.program = "node".to_owned();
    command.args = args;
}


// ---------------------------------------------------------------------------
// Variables
// ---------------------------------------------------------------------------

/// The runner registered under `id`, if any.
pub open spec fn runner_named(rs: Seq<ManifestRunner>, id: Seq<char>) -> Option<ManifestRunner> {
    if index_of_id(rs, id) >= 0 {
        Some(rs[index_of_id(rs, id)])
    } else {
        None
    }
}

/// The variables a launch resolves: the runner's own, read from the
/// directory afresh, with the project-level variables on top.
pub open spec fn launch_vars<P: ProjectProbe>(
    runner: Option<ManifestRunner>,
    probe: &P,
    root: Seq<char>,
    name: Seq<char>,
) -> Map<Seq<char>, Seq<char>> {
    let base = match runner {
        Some(r) => vars_from(r.manifest.vars@, probe),
        None => Map::empty(),
    };
    base.union_prefer_right(project_vars(root, name))
}

/// Resolves the template variables for a project, `probe` looking at its
/// root. Detection is re-run on purpose, so a lockfile swap takes effect on
/// the next launch; project-level variables always win.
pub fn resolve_vars<P: ProjectProbe>(project: &Project, registry: &RunnerRegistry, probe: &P) -> (r: TemplateVars)
    ensures
        r@ == launch_vars(
            runner_named(registry.runner_list(), project.detected.runner_id@),
            probe,
            project.root@,
            project.name@,
        ),
{
    let vars = match registry.get(project.detected.runner_id.as_str()) {
        Some(runner) => runner.vars_for(probe),
        None => TemplateVars::new(),
    };
    overlay_project_vars(vars, project.root.as_str(), project.name.as_str())
}

/// `vars` with the project-level variables of `root` and `name` on top.
pub fn overlay_project_vars(vars: TemplateVars, root: &str, name: &str) -> (r: TemplateVars)
    ensures
        r@ == vars@.union_prefer_right(project_vars(root@, name@)),
{
    let mut vars = vars;
    let ghost before = vars@;
    let base = TemplateVars::with_project(root, name);
    let ghost pv = base@;
    match base.get("projectRoot") {
        Some(v) => vars.set("projectRoot".to_owned(), v.to_owned()),
        None => {},
    }
    match base.get("projectName") {
        Some(v) => vars.set("projectName".to_owned(), v.to_owned()),
        None => {},
    }
    match base.get("dirName") {
        Some(v) => vars.set("dirName".to_owned(), v.to_owned()),
        None => {},
    }
    proof {
        reveal_strlit("projectRoot");
        reveal_strlit("projectName");
        reveal_strlit("dirName");
        let keys = set!["projectRoot"@, "projectName"@, "dirName"@];
        assert(pv.dom().subset_of(keys));
        assert forall|k: Seq<char>| #[trigger] vars@.contains_key(k) == before.union_prefer_right(pv).contains_key(k) by {
            if keys.contains(k) {
            }
        }
        assert forall|k: Seq<char>| vars@.contains_key(k) implies #[trigger] vars@[k] == before.union_prefer_right(pv)[k] by {
            if keys.contains(k) {
            }
        }
        assert(vars@ =~= before.union_prefer_right(pv));
    }
    vars
}

// ---------------------------------------------------------------------------
// The launch plan
// ---------------------------------------------------------------------------

/// Everything the supervisor needs to spawn one lifecycle step.
#[derive(Debug, Clone)]
pub struct LaunchPlan {
    /// The fully-resolved command.
    pub command: ResolvedCommand,
    /// Environment additions, in application order.
    pub env: Vec<(String, String)>,
    /// Directory to run in.
    pub working_dir: String,
    /// Ports the user configured: a conflict on one refuses the launch.
    pub required_ports: Vec<u16>,
    /// Ports the runner considers conventional: a conflict is only a warning.
    pub likely_ports: Vec<u16>,
}

/// Why a launch has no command.
pub enum Refusal {
    /// Neither the user nor the runner defines the step.
    Unsupported,
    /// A template names a variable that is not resolved.
    UnknownVar(Seq<char>),
}

/// The command a launch starts from: the user's override for the step, else
/// the runner's, as program and arguments; or why there is none.
pub open spec fn planned_command<F: Fn(&str) -> bool>(
    overrides: Seq<(Lifecycle, CommandSpec)>,
    runner: Option<ManifestRunner>,
    step: Lifecycle,
    vars: Map<Seq<char>, Seq<char>>,
    f: F,
) -> Result<(Seq<char>, Seq<Seq<char>>), Refusal> {
    match command_for(overrides, step) {
        Some(spec) => match resolve_spec(spec, vars) {
            Err(name) => Err(Refusal::UnknownVar(name)),
            Ok(pa) => Ok(pa),
        },
        None => match runner {
            None => Err(Refusal::Unsupported),
            Some(rn) => match command_for(rn.manifest.commands@, step) {
                None => Err(Refusal::Unsupported),
                Some(spec) => match resolve_spec(spec, vars) {
                    Err(name) => Err(Refusal::UnknownVar(name)),
                    Ok((p, a)) => Ok((p, if spec is Script { script_args(rn.base_dir@, a, f) } else { a })),
                },
            },
        },
    }
}

/// Whether `e` is the error for a refusal of `step` for runner `id`.
pub open spec fn refused_with(e: DeckError, x: Refusal, id: Seq<char>, step: Lifecycle) -> bool {
    match x {
        Refusal::Unsupported => e matches DeckError::LifecycleNotSupported { runner, lifecycle } && runner@
            == id && lifecycle == step,
        Refusal::UnknownVar(name) => e matches DeckError::UnknownTemplateVar { variable } && variable@ == name,
    }
}

/// Whether a step holds a process open.
pub open spec fn long_running(step: Lifecycle) -> bool {
    step == Lifecycle::Run || step == Lifecycle::Debug
}

/// The key and value of each explicit variable, in order.
pub open spec fn env_var_pairs(v: Seq<EnvVar>) -> Seq<(Seq<char>, Seq<char>)> {
    v.map_values(|e: EnvVar| (e.key@, e.value@))
}

/// Where a project's `.env` file is: the configured path, under the root
/// unless it is rooted itself.
pub open spec fn env_file_spec(project: Project) -> Option<Seq<char>> {
    match project.overrides.env_file {
        None => None,
        Some(rel) => Some(join_spec(project.root@, rel@)),
    }
}

/// The text of an optional string.
pub open spec fn opt_view(s: Option<&str>) -> Option<Seq<char>> {
    match s {
        Some(t) => Some(t@),
        None => None,
    }
}

/// What the fields of a plan hold.
pub open spec fn plan_fields(
    pl: LaunchPlan,
    command: (Seq<char>, Seq<Seq<char>>),
    env: Seq<(Seq<char>, Seq<char>)>,
    working_dir: Seq<char>,
    required: Seq<u16>,
    likely: Seq<u16>,
) -> bool {
    &&& pl.command.program@ == command.0
    &&& views(pl.command.args@) == command.1
    &&& pair_views(pl.env@) == env
    &&& pl.working_dir@ == working_dir
    &&& pl.required_ports@ == required
    &&& pl.likely_ports@ == likely
}

/// What planning a step gives.
///
/// The command is the user's override, else the runner's; on a step that
/// holds a process open the extra arguments follow it, and a package-manager
/// `run` of a plain `node` script is replaced by the script. On such a step
/// the configured ports are required and, only when there are none, the
/// runner's conventional ports are likely; other steps bind none. The
/// environment is the `.env` file's assignments, then the explicit
/// variables. A missing command is reported before an unreadable `.env` file.
pub open spec fn plan_outcome<P: ProjectProbe, F: Fn(&str) -> bool>(
    r: Result<LaunchPlan, DeckError>,
    project: Project,
    runners: Seq<ManifestRunner>,
    step: Lifecycle,
    probe: &P,
    f: F,
    package_json: Option<Seq<char>>,
    env_body: Option<Result<Seq<char>, DeckError>>,
) -> bool {
    let runner = runner_named(runners, project.detected.runner_id@);
    let vars = launch_vars(runner, probe, project.root@, project.name@);
    match planned_command(project.overrides.commands@, runner, step, vars, f) {
        Err(x) => r matches Err(e) && refused_with(e, x, project.detected.runner_id@, step),
        Ok((p, a)) => {
            let args = if long_running(step) { a + views(project.overrides.args@) } else { a };
            let command = unwrapped(p, args, package_json);
            let required = if long_running(step) { project.overrides.ports@ } else { Seq::empty() };
            let likely = if long_running(step) && required.len() == 0 {
                match runner {
                    Some(rn) => rn.manifest.meta.default_ports@,
                    None => Seq::empty(),
                }
            } else {
                Seq::empty()
            };
            let wd = match project.overrides.working_dir {
                Some(d) => d@,
                None => project.root@,
            };
            let explicit = env_var_pairs(project.overrides.env@);
            match project.overrides.env_file {
                None => r matches Ok(pl) && plan_fields(pl, command, explicit, wd, required, likely),
                Some(_) => match env_body {
                    Some(Err(e)) => r == Err::<LaunchPlan, DeckError>(e),
                    Some(Ok(body)) => r matches Ok(pl) && plan_fields(pl, command, env_spec(body) + explicit, wd, required, likely),
                    None => false,
                },
            }
        },
    }
}

/// The text of an `.env` body that was read, or the error reading it gave.
pub open spec fn body_view(b: Option<Result<String, DeckError>>) -> Option<Result<Seq<char>, DeckError>> {
    match b {
        None => None,
        Some(Ok(t)) => Some(Ok(t@)),
        Some(Err(e)) => Some(Err(e)),
    }
}

/// The path of the project's `.env` file, if it configures one: rooted as
/// given, else under the project root.
pub fn env_file_path(project: &Project) -> (r: Option<String>)
    ensures
        match env_file_spec(*project) {
            None => r is None,
            Some(p) => r matches Some(s) && s@ == p,
        },
{
    match &project.overrides.env_file {
        None => None,
        Some(rel) => Some(crate::runner::join_path(project.root.as_str(), rel.as_str())),
    }
}

/// The explicit variables as pairs, in order.
fn explicit_env(vars: &Vec<EnvVar>) -> (r: Vec<(String, String)>)
    ensures
        pair_views(r@) == env_var_pairs(vars@),
{
    let mut out: Vec<(String, String)> = Vec::new();
    let mut i: usize = 0;
    while i < vars.len()
        invariant
            i <= vars.len(),
            pair_views(out@) == env_var_pairs(vars@).take(i as int),
        decreases vars.len() - i,
    {
        let ghost before = pair_views(out@);
        out.push((vars[i].key.clone(), vars[i].value.clone()));
        assert(pair_views(out@) =~= before.push((vars@[i as int].key@, vars@[i as int].value@)));
        assert(env_var_pairs(vars@).take(i + 1) =~= env_var_pairs(vars@).take(i as int).push(
            (vars@[i as int].key@, vars@[i as int].value@),
        ));
        i += 1;
    }
    assert(env_var_pairs(vars@).take(vars.len() as int) =~= env_var_pairs(vars@));
    out
}

/// Builds the launch plan for one lifecycle step of a project.
///
/// `probe` looks at the project root, `exists` answers whether a file exists,
/// `package_json` is the text of `package.json` in the working directory if
/// it could be read, and `env_body` is what reading the configured `.env`
/// file gave (read by the caller whenever one is configured).
pub fn plan<P: ProjectProbe, F: Fn(&str) -> bool>(
    project: &Project,
    registry: &RunnerRegistry,
    step: Lifecycle,
    probe: &P,
    exists: &F,
    package_json: Option<&str>,
    env_body: Option<Result<String, DeckError>>,
) -> (r: Result<LaunchPlan, DeckError>)
    requires
        crate::manifest::is_path_oracle(*exists),
        project.overrides.env_file is Some ==> env_body is Some,
    ensures
        plan_outcome(
            r,
            *project,
            registry.runner_list(),
            step,
            probe,
            *exists,
            opt_view(package_json),
            body_view(env_body),
        ),
{
    let vars = resolve_vars(project, registry, probe);
    let runner = registry.get(project.detected.runner_id.as_str());
    proof {
        crate::registry::lemma_index_of_id(registry.runner_list(), project.detected.runner_id@);
    }
    let ghost rn_spec = runner_named(registry.runner_list(), project.detected.runner_id@);
    let ghost planned = planned_command(project.overrides.commands@, rn_spec, step, vars@, *exists);
    let mut command = match project.overrides.command(step) {
        Some(spec) => match spec.resolve(&vars) {
            Ok(c) => c,
            Err(e) => {
                return Err(e);
            },
        },
        None => match runner {
            None => {
                return Err(DeckError::LifecycleNotSupported { runner: project.detected.runner_id.clone(), lifecycle: step });
            },
            Some(rn) => match rn.command(step, &vars, exists) {
                Ok(c) => c,
                Err(e) => {
                    return Err(e);
                },
            },
        },
    };
    let ghost base = views(command.args@);
    assert(planned == Ok::<(Seq<char>, Seq<Seq<char>>), Refusal>((command.program@, base)));
    if step.is_long_running() {
        let mut extra = crate::probe::copy_strings(&project.overrides.args);
        command.args.append(&mut extra);
        assert(views(command.args@) =~= base + views(project.overrides.args@));
    }
    let (required_ports, likely_ports) = if step.is_long_running() {
        let configured: Vec<u16> = project.overrides.ports.clone();
        assert(configured@ =~= project.overrides.ports@);
        let conventional: Vec<u16> = if configured.len() == 0 {
            match runner {
                Some(rn) => {
                    let d = rn.manifest.meta.default_ports.clone();
                    assert(d@ =~= rn.manifest.meta.default_ports@);
                    d
                },
                None => Vec::new(),
            }
        } else {
            Vec::new()
        };
        (configured, conventional)
    } else {
        (Vec::new(), Vec::new())
    };
    unwrap_package_script(&mut command, package_json);
    let mut env: Vec<(String, String)> = Vec::new();
    match &project.overrides.env_file {
        Some(_) => match env_body {
            Some(Ok(body)) => {
                env = parse_env_text(body.as_str());
            },
            Some(Err(e)) => {
                return Err(e);
            },
            None => {},
        },
        None => {},
    }
    let ghost file_part = pair_views(env@);
    let mut explicit = explicit_env(&project.overrides.env);
    env.append(&mut explicit);
    assert(pair_views(env@) =~= file_part + env_var_pairs(project.overrides.env@));
    let wd = project.effective_working_dir().to_owned();
    Ok(LaunchPlan { command, env, working_dir: wd, required_ports, likely_ports })
}

} // verus!
