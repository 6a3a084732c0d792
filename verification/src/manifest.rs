//! Runner manifests: the declarative plugin format.
//!
//! Detection rules are a closed set of read-only predicates; nothing here
//! can execute anything.
use vstd::prelude::*;

use crate::command::{all_steps, views, CommandSpec, Lifecycle};
use crate::text::{chars_of, string_of};

verus! {

broadcast use vstd::string::group_string_axioms;

/// A complete runner definition.
#[derive(Debug)]
pub struct RunnerManifest {
    /// Identity and presentation.
    pub meta: RunnerMeta,
    /// Predicates that must all pass for this runner to claim a directory.
    pub detect: Vec<DetectionRule>,
    /// Variables available to this runner's command templates.
    pub vars: Vec<VarRule>,
    /// The lifecycle steps this runner implements; the first entry for a
    /// step is the one used.
    pub commands: Vec<(Lifecycle, CommandSpec)>,
    /// Where to read the project's own declared version.
    pub version: Option<ValueSource>,
    /// Optional readiness probe.
    pub health: Option<HealthProbe>,
    /// Markers that say whether dependencies are installed.
    pub setup: Vec<SetupRule>,
}

/// One "are the dependencies installed?" rule.
#[derive(Debug, Clone)]
pub struct SetupRule {
    /// Only meaningful when this file exists in the project root.
    pub when_file_exists: String,
    /// Satisfied if any of these paths exist.
    pub requires_any: Vec<String>,
    /// One line naming what is missing.
    pub hint: String,
}

/// Where to read a string value out of a project's own metadata.
#[derive(Debug, Clone)]
pub enum ValueSource {
    /// A JSON file at an RFC 6901 pointer; a leading `/` is optional.
    Json { file: String, pointer: String },
    /// A TOML file at a dotted key path.
    Toml { file: String, path: String },
}

/// Whether a project's dependencies are in place.
#[derive(Debug, Clone, PartialEq, Eq)]
pub enum SetupState {
    /// No rule applied, or every rule is satisfied.
    Ready,
    /// A rule fired: the project will fail to start until this is fixed.
    NeedsSetup { hint: String, missing: String },
}

impl SetupState {
    /// Whether launching is expected to fail.
    pub fn needs_setup(&self) -> (r: bool)
        ensures
            r <==> self is NeedsSetup,
    {
        match self {
            SetupState::NeedsSetup { .. } => true,
            SetupState::Ready => false,
        }
    }
}

/// Identity and presentation for a runner.
#[derive(Debug, Clone)]
pub struct RunnerMeta {
    /// Stable identifier, e.g. `node`.
    pub id: String,
    /// Human-readable name.
    pub name: String,
    /// Language this runner covers.
    pub language: String,
    /// Framework, when the runner identifies one.
    pub framework: Option<String>,
    /// Icon name used on cards.
    pub icon: Option<String>,
    /// Tie-break when several runners match. Higher wins.
    pub priority: i32,
    /// Ports this project type conventionally uses.
    pub default_ports: Vec<u16>,
}

/// The priority a manifest gets when it declares none.
pub fn default_priority() -> (r: i32)
    ensures
        r == 100,
{
    100
}

/// A predicate over the contents of a project directory.
#[derive(Debug)]
pub enum DetectionRule {
    /// A file exists at this path.
    FileExists(String),
    /// A directory exists at this path.
    DirExists(String),
    /// At least one entry matches this glob.
    GlobMatches(String),
    /// A JSON file contains this key path.
    JsonKeyExists { file: String, pointer: String },
    /// A JSON file holds this exact string at this key path.
    JsonKeyEquals { file: String, pointer: String, value: String },
    /// A TOML file contains this dotted key path.
    TomlKeyExists { file: String, path: String },
    /// A text file contains this substring.
    FileContains { file: String, text: String },
    /// Inverts the wrapped rule.
    Not(Box<DetectionRule>),
    /// Every wrapped rule must pass.
    AllOf(Vec<DetectionRule>),
    /// At least one wrapped rule must pass.
    AnyOf(Vec<DetectionRule>),
}

/// A template variable resolved from the project directory.
#[derive(Debug)]
pub struct VarRule {
    /// Variable name.
    pub name: String,
    /// Value when nothing else resolves.
    pub default: String,
    /// Ordered candidate values with the condition that selects each.
    pub cases: Vec<VarCase>,
    /// Read the value out of the project's own metadata.
    pub from_value: Option<ValueSource>,
    /// Use the first root entry matching this glob.
    pub first_match: Option<String>,
    /// Ordered `first_match` patterns; the first that matches wins.
    pub first_match_any: Vec<String>,
}

/// One branch of a [`VarRule`].
#[derive(Debug)]
pub struct VarCase {
    /// Value to use when `when` passes.
    pub value: String,
    /// Condition selecting this value.
    pub when: DetectionRule,
}

/// An optional readiness check.
#[derive(Debug, Clone)]
pub enum HealthProbe {
    /// Poll an HTTP endpoint until it answers.
    Http { url: String, expect_status: Vec<u16> },
    /// Wait until the process listens on a TCP port.
    TcpPort { port: String },
    /// Wait for a log line containing this text.
    LogContains { text: String },
}

// ---------------------------------------------------------------------------
// Injected existence checks
// ---------------------------------------------------------------------------

/// `f` can be called on any path and answers the same for the same text.
pub open spec fn is_path_oracle<F: Fn(&str) -> bool>(f: F) -> bool {
    &&& forall|s: &str| #[trigger] f.requires((s,))
    &&& forall|s1: &str, s2: &str, b1: bool, b2: bool|
        s1@ == s2@ && #[trigger] f.ensures((s1,), b1) && #[trigger] f.ensures((s2,), b2) ==> b1 == b2
}

/// What the oracle `f` answers for `path`.
pub open spec fn says<F: Fn(&str) -> bool>(f: F, path: Seq<char>) -> bool {
    exists|s: &str| s@ == path && #[trigger] f.ensures((s,), true)
}

/// Calls the oracle, whose answer is then what [`says`] names.
pub fn ask<F: Fn(&str) -> bool>(f: &F, path: &str) -> (r: bool)
    requires
        is_path_oracle(*f),
    ensures
        r == says(*f, path@),
{
    let r = f(path);
    proof {
        if r {
            assert(f.ensures((path,), true));
        } else {
            if says(*f, path@) {
                let s = choose|s: &str| s@ == path@ && #[trigger] f.ensures((s,), true);
                assert(f.ensures((path,), false));
            }
        }
    }
    r
}

/// `list` joined with `sep` between items.
pub open spec fn join_seq(list: Seq<Seq<char>>, sep: Seq<char>) -> Seq<char>
    decreases list.len(),
{
    if list.len() == 0 {
        Seq::empty()
    } else if list.len() == 1 {
        list[0]
    } else {
        join_seq(list.drop_last(), sep) + sep + list.last()
    }
}

/// The strings of `list` joined with `sep` between items.
pub fn join_strings(list: &Vec<String>, sep: &str) -> (r: String)
    ensures
        r@ == join_seq(views(list@), sep@),
{
    let sv = chars_of(sep);
    let mut out: Vec<char> = Vec::new();
    let mut i: usize = 0;
    assert(views(list@).take(0) =~= Seq::<Seq<char>>::empty());
    while i < list.len()
        invariant
            i <= list.len(),
            sv@ == sep@,
            out@ == join_seq(views(list@).take(i as int), sep@),
        decreases list.len() - i,
    {
        let item = chars_of(list[i].as_str());
        let ghost o = out@;
        if i > 0 {
            let mut k: usize = 0;
            while k < sv.len()
                invariant
                    k <= sv.len(),
                    out@ == o + sv@.take(k as int),
                decreases sv.len() - k,
            {
                out.push(sv[k]);
                assert(o + sv@.take(k + 1) =~= (o + sv@.take(k as int)).push(sv@[k as int]));
                k += 1;
            }
            assert(sv@.take(sv.len() as int) =~= sv@);
        }
        let ghost o2 = out@;
        let mut k: usize = 0;
        while k < item.len()
            invariant
                k <= item.len(),
                out@ == o2 + item@.take(k as int),
            decreases item.len() - k,
        {
            out.push(item[k]);
            assert(o2 + item@.take(k + 1) =~= (o2 + item@.take(k as int)).push(item@[k as int]));
            k += 1;
        }
        assert(item@.take(item.len() as int) =~= item@);
        proof {
            let t = views(list@).take(i + 1);
            assert(t.drop_last() =~= views(list@).take(i as int));
            assert(t.last() == list@[i as int]@);
            if i == 0 {
                assert(o =~= Seq::<char>::empty());
                assert(out@ =~= item@);
            } else {
                assert(out@ =~= o + sep@ + item@);
            }
        }
        i += 1;
    }
    assert(views(list@).take(list.len() as int) =~= views(list@));
    string_of(&out)
}

/// Whether any of `paths` is reported present by `f`.
pub open spec fn any_present<F: Fn(&str) -> bool>(f: F, paths: Seq<String>) -> bool {
    exists|i: int| 0 <= i < paths.len() && says(f, #[trigger] paths[i]@)
}

/// The verdict of one setup rule.
pub open spec fn setup_verdict<F: Fn(&str) -> bool>(rule: SetupRule, f: F) -> Option<(Seq<char>, Seq<char>)> {
    if !says(f, rule.when_file_exists@) || any_present(f, rule.requires_any@) {
        None
    } else {
        Some((rule.hint@, join_seq(views(rule.requires_any@), " or "@)))
    }
}

/// Whether a state is the given verdict.
pub open spec fn state_is(s: SetupState, v: Option<(Seq<char>, Seq<char>)>) -> bool {
    match v {
        None => s is Ready,
        Some((hint, missing)) => s matches SetupState::NeedsSetup { hint: h, missing: m } && h@ == hint && m@ == missing,
    }
}

impl SetupRule {
    /// Evaluates this rule: ready unless the trigger file exists and none of
    /// the accepted markers does.
    pub fn evaluate<F: Fn(&str) -> bool>(&self, exists: &F) -> (r: SetupState)
        requires
            is_path_oracle(*exists),
        ensures
            state_is(r, setup_verdict(*self, *exists)),
    {
        if !ask(exists, self.when_file_exists.as_str()) {
            return SetupState::Ready;
        }
        let mut i: usize = 0;
        while i < self.requires_any.len()
            invariant
                i <= self.requires_any.len(),
                is_path_oracle(*exists),
                forall|m: int| 0 <= m < i ==> !says(*exists, #[trigger] self.requires_any@[m]@),
            decreases self.requires_any.len() - i,
        {
            if ask(exists, self.requires_any[i].as_str()) {
                return SetupState::Ready;
            }
            i += 1;
        }
        SetupState::NeedsSetup {
            hint: self.hint.clone(),
            missing: join_strings(&self.requires_any, " or "),
        }
    }
}

/// The first unsatisfied rule's verdict, or ready.
pub open spec fn first_unsatisfied<F: Fn(&str) -> bool>(rules: Seq<SetupRule>, f: F) -> Option<(Seq<char>, Seq<char>)>
    decreases rules.len(),
{
    if rules.len() == 0 {
        None
    } else {
        match setup_verdict(rules[0], f) {
            Some(v) => Some(v),
            None => first_unsatisfied(rules.drop_first(), f),
        }
    }
}

/// The command registered for `step` in a command list, if any.
pub open spec fn command_for(cmds: Seq<(Lifecycle, CommandSpec)>, step: Lifecycle) -> Option<CommandSpec>
    decreases cmds.len(),
{
    if cmds.len() == 0 {
        None
    } else if cmds[0].0 == step {
        Some(cmds[0].1)
    } else {
        command_for(cmds.drop_first(), step)
    }
}

/// A manifest has a command for a step exactly when the steps it lists as
/// supported hold that step.
pub proof fn a_step_has_a_command_exactly_when_it_is_supported(cmds: Seq<(Lifecycle, CommandSpec)>, step: Lifecycle)
    ensures
        command_for(cmds, step) is Some <==> crate::command::all_steps().filter(
            |s: Lifecycle| command_for(cmds, s) is Some,
        ).contains(step),
{
    let all = crate::command::all_steps();
    let pred = |s: Lifecycle| command_for(cmds, s) is Some;
    let i: int = match step {
        Lifecycle::Install => 0,
        Lifecycle::Build => 1,
        Lifecycle::Run => 2,
        Lifecycle::Debug => 3,
        Lifecycle::Clean => 4,
        Lifecycle::Test => 5,
    };
    assert(all[i] == step);
    broadcast use vstd::seq_lib::group_filter_ensures;
    if all.filter(pred).contains(step) {
        let k = choose|k: int| 0 <= k < all.filter(pred).len() && all.filter(pred)[k] == step;
        assert(pred(all.filter(pred)[k]));
    }
}

pub proof fn lemma_command_for_index(cmds: Seq<(Lifecycle, CommandSpec)>, step: Lifecycle, i: int)
    requires
        0 <= i < cmds.len(),
        cmds[i].0 == step,
        forall|m: int| 0 <= m < i ==> (#[trigger] cmds[m]).0 != step,
    ensures
        command_for(cmds, step) == Some(cmds[i].1),
    decreases i,
{
    if i > 0 {
        lemma_command_for_index(cmds.drop_first(), step, i - 1);
    }
}

pub proof fn lemma_command_for_none(cmds: Seq<(Lifecycle, CommandSpec)>, step: Lifecycle)
    requires
        forall|m: int| 0 <= m < cmds.len() ==> (#[trigger] cmds[m]).0 != step,
    ensures
        command_for(cmds, step) is None,
    decreases cmds.len(),
{
    if cmds.len() > 0 {
        lemma_command_for_none(cmds.drop_first(), step);
    }
}

impl RunnerManifest {
    /// The first unsatisfied setup rule, or `Ready`.
    pub fn setup_state<F: Fn(&str) -> bool>(&self, exists: &F) -> (r: SetupState)
        requires
            is_path_oracle(*exists),
        ensures
            state_is(r, first_unsatisfied(self.setup@, *exists)),
    {
        let mut i: usize = 0;
        assert(self.setup@.skip(0) =~= self.setup@);
        while i < self.setup.len()
            invariant
                i <= self.setup.len(),
                is_path_oracle(*exists),
                first_unsatisfied(self.setup@.skip(i as int), *exists) == first_unsatisfied(self.setup@, *exists),
            decreases self.setup.len() - i,
        {
            let ghost rest = self.setup@.skip(i as int);
            assert(rest[0] == self.setup@[i as int]);
            assert(rest.drop_first() =~= self.setup@.skip(i + 1));
            let state = self.setup[i].evaluate(exists);
            if state.needs_setup() {
                return state;
            }
            i += 1;
        }
        SetupState::Ready
    }

    /// The command for a lifecycle step, if this runner implements it.
    pub fn command(&self, step: Lifecycle) -> (r: Option<&CommandSpec>)
        ensures
            match command_for(self.commands@, step) {
                None => r is None,
                Some(c) => r matches Some(x) && *x == c,
            },
    {
        let mut i: usize = 0;
        while i < self.commands.len()
            invariant
                i <= self.commands.len(),
                forall|m: int| 0 <= m < i ==> (#[trigger] self.commands@[m]).0 != step,
            decreases self.commands.len() - i,
        {
            if self.commands[i].0 == step {
                proof {
                    lemma_command_for_index(self.commands@, step, i as int);
                }
                return Some(&self.commands[i].1);
            }
            i += 1;
        }
        proof {
            lemma_command_for_none(self.commands@, step);
        }
        None
    }

    /// The lifecycle steps this runner implements, in presentation order.
    pub fn supported(&self) -> (r: Vec<Lifecycle>)
        ensures
            r@ == all_steps().filter(|s: Lifecycle| command_for(self.commands@, s) is Some),
    {
        let all = Lifecycle::all();
        let ghost pred = |s: Lifecycle| command_for(self.commands@, s) is Some;
        let mut r: Vec<Lifecycle> = Vec::new();
        let mut i: usize = 0;
        assert(all@.take(0).filter(pred) =~= Seq::<Lifecycle>::empty());
        while i < all.len()
            invariant
                i <= all.len(),
                all@ == all_steps(),
                pred == (|s: Lifecycle| command_for(self.commands@, s) is Some),
                r@ == all@.take(i as int).filter(pred),
            decreases all.len() - i,
        {
            let step = all[i];
            let present = self.command(step).is_some();
            proof {
                reveal_with_fuel(Seq::<_>::filter, 1);
                assert(all@.take(i + 1).drop_last() =~= all@.take(i as int));
            }
            if present {
                r.push(step);
            }
            i += 1;
        }
        assert(all@.take(all.len() as int) =~= all@);
        r
    }
}

} // verus!
