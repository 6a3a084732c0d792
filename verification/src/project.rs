//! The registered project: what the user added, and how they want it run.
use vstd::prelude::*;

use crate::command::{CommandSpec, Lifecycle};
use crate::manifest::command_for;
use crate::text::{
    chars_contain, chars_of, contains_seq, lower_ascii_seq, lower_chars, trim, trim_chars,
    upper_ascii_seq, upper_chars,
};

verus! {

broadcast use vstd::string::group_string_axioms;

/// A single environment variable for a project.
#[derive(Debug, Clone)]
pub struct EnvVar {
    /// Variable name.
    pub key: String,
    /// Variable value.
    pub value: String,
    /// Whether the value is masked in the UI and scrubbed from logs.
    pub secret: bool,
}

/// Substrings of an upper-cased name that mark it as a credential.
pub open spec fn secret_needles() -> Seq<Seq<char>> {
    seq![
        "SECRET"@,
        "TOKEN"@,
        "PASSWORD"@,
        "PASSWD"@,
        "APIKEY"@,
        "API_KEY"@,
        "PRIVATE"@,
        "CREDENTIAL"@,
        "AUTH"@,
        "SIGNING"@,
    ]
}

/// Whether a variable name suggests it holds a credential.
pub open spec fn looks_secret_spec(key: Seq<char>) -> bool {
    exists|i: int| 0 <= i < secret_needles().len() && contains_seq(upper_ascii_seq(key), #[trigger] secret_needles()[i])
}

impl EnvVar {
    /// Builds a variable, inferring `secret` from the key.
    pub fn new(key: &str, value: &str) -> (r: EnvVar)
        ensures
            r.key@ == key@,
            r.value@ == value@,
            r.secret == looks_secret_spec(key@),
    {
        let secret = EnvVar::looks_secret(key);
        EnvVar { key: key.to_owned(), value: value.to_owned(), secret }
    }

    /// Whether a variable name suggests it holds a credential: a
    /// case-insensitive substring match against credential words.
    pub fn looks_secret(key: &str) -> (r: bool)
        ensures
            r == looks_secret_spec(key@),
    {
        let kv = chars_of(key);
        let upper = upper_chars(&kv);
        let needles = vec![
            chars_of("SECRET"),
            chars_of("TOKEN"),
            chars_of("PASSWORD"),
            chars_of("PASSWD"),
            chars_of("APIKEY"),
            chars_of("API_KEY"),
            chars_of("PRIVATE"),
            chars_of("CREDENTIAL"),
            chars_of("AUTH"),
            chars_of("SIGNING"),
        ];
        assert(needles@.map_values(|n: Vec<char>| n@) =~= secret_needles());
        let mut i: usize = 0;
        while i < needles.len()
            invariant
                i <= needles.len(),
                upper@ == upper_ascii_seq(key@),
                needles@.map_values(|n: Vec<char>| n@) == secret_needles(),
                forall|m: int| 0 <= m < i ==> !contains_seq(upper@, #[trigger] secret_needles()[m]),
            decreases needles.len() - i,
        {
            assert(needles@[i as int]@ == secret_needles()[i as int]);
            if chars_contain(&upper, &needles[i]) {
                return true;
            }
            i += 1;
        }
        false
    }
}

/// The app-specific fact readers the library knows.
#[derive(Debug, Clone, Copy, PartialEq, Eq, Structural)]
pub enum FactsSource {
    /// Fleet's panel health endpoint.
    Fleet,
    /// Ollama's model endpoints.
    Ollama,
    /// Lathe's health and stats endpoints.
    Lathe,
    /// FocusForge's status endpoint.
    FocusForge,
    /// A one-line Pavlok status file.
    PavlokStatus,
}

/// A status source the supervisor does not own.
#[derive(Debug, Clone)]
pub struct SurfaceConfig {
    /// URL opened by the tile and pinged for reachability.
    pub url: Option<String>,
    /// Local TCP port probed for "running even though not started here".
    pub probe_port: Option<u16>,
    /// A log file written by the app itself.
    pub external_log: Option<String>,
    /// Which app-specific reader turns this source into facts.
    pub facts: Option<FactsSource>,
}

/// Everything the user can change about how a project runs.
#[derive(Debug)]
pub struct ProjectOverrides {
    /// Replaces the runner's command for a lifecycle step.
    pub commands: Vec<(Lifecycle, CommandSpec)>,
    /// Arguments appended to the run command.
    pub args: Vec<String>,
    /// Arguments switched off without being deleted.
    pub disabled_args: Vec<String>,
    /// Working directory, when it differs from the project root.
    pub working_dir: Option<String>,
    /// Environment variables layered over the inherited environment.
    pub env: Vec<EnvVar>,
    /// A `.env` file to load before applying `env`.
    pub env_file: Option<String>,
    /// Ports this project is expected to bind.
    pub ports: Vec<u16>,
    /// Whether to terminate this project when the app itself exits.
    pub kill_on_app_exit: bool,
    /// A status source beyond the supervisor.
    pub surface: Option<SurfaceConfig>,
}

/// The value a missing boolean setting takes where it defaults to on.
pub fn default_true() -> (r: bool)
    ensures
        r,
{
    true
}

impl ProjectOverrides {
    /// Overrides with nothing set and `kill_on_app_exit` on.
    pub fn default() -> (r: ProjectOverrides)
        ensures
            r.commands@.len() == 0,
            r.args@.len() == 0,
            r.disabled_args@.len() == 0,
            r.working_dir is None,
            r.env@.len() == 0,
            r.env_file is None,
            r.ports@.len() == 0,
            r.kill_on_app_exit,
            r.surface is None,
    {
        ProjectOverrides {
            commands: Vec::new(),
            args: Vec::new(),
            disabled_args: Vec::new(),
            working_dir: None,
            env: Vec::new(),
            env_file: None,
            ports: Vec::new(),
            kill_on_app_exit: default_true(),
            surface: None,
        }
    }

    /// The user's command for a step, if they set one.
    pub fn command(&self, step: Lifecycle) -> (r: Option<&CommandSpec>)
        ensures
            match command_for(self.commands@, step) {
                None => r is None,
                Some(c) => r matches Some(x) && *x == c,
            },
    {
        let mut i: usize = 0;
        while i < self.commands.len()
            invariant
                i <= self.commands.len(),
                forall|m: int| 0 <= m < i ==> (#[trigger] self.commands@[m]).0 != step,
            decreases self.commands.len() - i,
        {
            if self.commands[i].0 == step {
                proof {
                    crate::manifest::lemma_command_for_index(self.commands@, step, i as int);
                }
                return Some(&self.commands[i].1);
            }
            i += 1;
        }
        proof {
            crate::manifest::lemma_command_for_none(self.commands@, step);
        }
        None
    }
}

/// What to do when a project's process exits.
#[derive(Debug, Clone, Copy, PartialEq, Eq, Structural)]
pub enum RestartPolicy {
    /// Never restart automatically. The default.
    Never,
    /// Restart only on a non-zero (or missing) exit code.
    OnFailure { max_attempts: u32 },
    /// Restart on any exit.
    Always { max_attempts: u32 },
}

/// `2^n`.
pub open spec fn two_pow(n: nat) -> nat
    decreases n,
{
    if n == 0 {
        1
    } else {
        2 * two_pow((n - 1) as nat)
    }
}

/// The delay before restart attempt `attempt` (1-based): 500 ms doubled per
/// attempt, capped at 30 s.
pub open spec fn backoff_spec(attempt: u32) -> nat {
    let shift: nat = if attempt > 6 { 6 } else if attempt == 0 { 0 } else { (attempt - 1) as nat };
    let delay = 500 * two_pow(shift);
    if delay > 30_000 { 30_000 } else { delay }
}

impl RestartPolicy {
    /// The default policy.
    pub fn default() -> (r: RestartPolicy)
        ensures
            r == RestartPolicy::Never,
    {
        RestartPolicy::Never
    }

    /// Whether an exit with this code should trigger a restart. A missing
    /// code counts as a failure.
    pub fn should_restart(self, exit_code: Option<i32>) -> (r: bool)
        ensures
            r == match self {
                RestartPolicy::Never => false,
                RestartPolicy::Always { .. } => true,
                RestartPolicy::OnFailure { .. } => exit_code != Some(0i32),
            },
    {
        match self {
            RestartPolicy::Never => false,
            RestartPolicy::Always { .. } => true,
            RestartPolicy::OnFailure { .. } => match exit_code {
                Some(0) => false,
                _ => true,
            },
        }
    }

    /// The consecutive-failure ceiling, if this policy restarts at all.
    pub fn max_attempts(self) -> (r: Option<u32>)
        ensures
            r == match self {
                RestartPolicy::Never => None,
                RestartPolicy::OnFailure { max_attempts } => Some(max_attempts),
                RestartPolicy::Always { max_attempts } => Some(max_attempts),
            },
    {
        match self {
            RestartPolicy::Never => None,
            RestartPolicy::OnFailure { max_attempts } | RestartPolicy::Always { max_attempts } => Some(
                max_attempts,
            ),
        }
    }

    /// Delay before restart attempt `attempt` (1-based), in milliseconds.
    pub fn backoff_ms(attempt: u32) -> (r: u64)
        ensures
            r == backoff_spec(attempt),
    {
        let shift: u32 = if attempt > 6 {
            6
        } else if attempt == 0 {
            0
        } else {
            attempt - 1
        };
        let mut delay: u64 = 500;
        let mut k: u32 = 0;
        while k < shift
            invariant
                k <= shift <= 6,
                delay == 500 * two_pow(k as nat),
                delay <= 32_000,
            decreases shift - k,
        {
            proof {
                assert(two_pow((k + 1) as nat) == 2 * two_pow(k as nat));
                if k < 6 {
                    reveal_with_fuel(two_pow, 7);
                    assert(two_pow(6) == 64);
                    lemma_two_pow_mono(k as nat + 1, 6);
                }
            }
            delay = delay * 2;
            k += 1;
        }
        if delay > 30_000 {
            30_000
        } else {
            delay
        }
    }
}

proof fn lemma_two_pow_mono(a: nat, b: nat)
    requires
        a <= b,
    ensures
        two_pow(a) <= two_pow(b),
    decreases b,
{
    if a < b {
        lemma_two_pow_mono(a, (b - 1) as nat);
    }
}

/// The backoff never exceeds 30 s and never shrinks from one attempt to the
/// next.
pub proof fn backoff_is_bounded_and_monotone(a: u32, b: u32)
    requires
        a <= b,
    ensures
        backoff_spec(a) <= 30_000,
        backoff_spec(a) <= backoff_spec(b),
{
    let sa: nat = if a > 6 { 6 } else if a == 0 { 0 } else { (a - 1) as nat };
    let sb: nat = if b > 6 { 6 } else if b == 0 { 0 } else { (b - 1) as nat };
    lemma_two_pow_mono(sa, sb);
}


// ---------------------------------------------------------------------------
// Identity
// ---------------------------------------------------------------------------

/// The lower-case hex digit for a value below 16.
pub open spec fn hex_digit(k: int) -> char {
    if k < 10 {
        (('0' as int) + k) as char
    } else {
        (('a' as int) + k - 10) as char
    }
}

/// The value of a lower-case hex digit, or -1 for any other character.
pub open spec fn hex_value(c: char) -> int {
    if '0' <= c && c <= '9' {
        (c as int) - ('0' as int)
    } else if 'a' <= c && c <= 'f' {
        (c as int) - ('a' as int) + 10
    } else {
        -1
    }
}

/// The low `n` hex digits of `v`, most significant first.
pub open spec fn hex_digits(v: nat, n: nat) -> Seq<char>
    decreases n,
{
    if n == 0 {
        Seq::empty()
    } else {
        hex_digits(v / 16, (n - 1) as nat).push(hex_digit((v % 16) as int))
    }
}

/// The value of a run of lower-case hex digits; `None` when a character is
/// not one.
pub open spec fn hex_number(d: Seq<char>) -> Option<nat>
    decreases d.len(),
{
    if d.len() == 0 {
        Some(0)
    } else {
        let high = hex_number(d.drop_last());
        let low = hex_value(d.last());
        if high is Some && low >= 0 {
            Some(high.unwrap() * 16 + low as nat)
        } else {
            None
        }
    }
}

/// Sixteen to the power `n`.
pub open spec fn p16(n: nat) -> nat
    decreases n,
{
    if n == 0 {
        1
    } else {
        16 * p16((n - 1) as nat)
    }
}

/// The hyphenated lower-case text of a UUID, as `Uuid`'s `Display` writes
/// it: thirty-two hex digits grouped 8-4-4-4-12.
pub open spec fn hyphenated(v: u128) -> Seq<char> {
    let d = hex_digits(v as nat, 32);
    d.subrange(0, 8) + seq!['-'] + d.subrange(8, 12) + seq!['-'] + d.subrange(12, 16) + seq!['-']
        + d.subrange(16, 20) + seq!['-'] + d.subrange(20, 32)
}

/// The UUID a hyphenated text of lower-case hex digits names; `None` for
/// any other text.
pub open spec fn hyphenated_value(t: Seq<char>) -> Option<u128> {
    if t.len() == 36 && t[8] == '-' && t[13] == '-' && t[18] == '-' && t[23] == '-' {
        let d = t.subrange(0, 8) + t.subrange(9, 13) + t.subrange(14, 18) + t.subrange(19, 23) + t.subrange(24, 36);
        match hex_number(d) {
            Some(n) => if n < p16(32) {
                Some(n as u128)
            } else {
                None
            },
            None => None,
        }
    } else {
        None
    }
}

/// The UUID a text names, as `Uuid::parse_str` reads it (any of the forms
/// it accepts).
pub uninterp spec fn uuid_parsed(text: Seq<char>) -> Option<u128>;

proof fn lemma_hex_digits(v: nat, n: nat)
    ensures
        hex_digits(v, n).len() == n,
        p16(n) > 0,
        hex_number(hex_digits(v, n)) == Some(v % p16(n)),
    decreases n,
{
    if n > 0 {
        lemma_hex_digits(v / 16, (n - 1) as nat);
        let k = (v % 16) as int;
        assert(hex_value(hex_digit(k)) == k);
        assert(hex_digits(v, n).drop_last() =~= hex_digits(v / 16, (n - 1) as nat));
        vstd::arithmetic::div_mod::lemma_mod_breakdown(v as int, 16, p16((n - 1) as nat) as int);
    }
}

/// An identifier's text reads back as the same identifier: the hyphenated
/// form of any UUID value names that value.
pub proof fn an_id_reads_back_from_its_text(v: u128)
    ensures
        hyphenated_value(hyphenated(v)) == Some(v),
{
    let d = hex_digits(v as nat, 32);
    lemma_hex_digits(v as nat, 32);
    let t = hyphenated(v);
    assert(t.subrange(0, 8) + t.subrange(9, 13) + t.subrange(14, 18) + t.subrange(19, 23) + t.subrange(24, 36) =~= d);
    assert(p16(32) == 0x1_0000_0000_0000_0000_0000_0000_0000_0000) by {
        reveal_with_fuel(p16, 33);
    }
    vstd::arithmetic::div_mod::lemma_small_mod(v as nat, p16(32));
}

/// Whether a 128-bit value is a version-4 UUID: version nibble 4 and the
/// RFC 9562 variant bits `10`.
pub open spec fn is_v4(v: u128) -> bool {
    (v >> 76u128) & 0xFu128 == 4u128 && (v >> 62u128) & 0x3u128 == 2u128
}

/// Draws a random version-4 UUID with `uuid::Uuid::new_v4` and hands back its
/// 128-bit value. The crate masks random bits into the version and variant
/// fields, so that much holds of every outcome; the rest is chance.
#[verifier::external_body]
pub(crate) fn random_uuid() -> (r: u128)
    ensures
        is_v4(r),
{
    uuid::Uuid::new_v4().as_u128()
}

/// Writes a UUID with `uuid::Uuid::from_u128` and its `Display`, which the
/// crate defines as the hyphenated lower-case form.
#[verifier::external_body]
pub(crate) fn uuid_to_text(id: u128) -> (r: String)
    ensures
        r@ == hyphenated(id),
{
    uuid::Uuid::from_u128(id).to_string()
}

/// Reads a UUID with `uuid::Uuid::parse_str`; the contract names the result
/// `uuid_parsed`, and claims only that a hyphenated text of lower-case hex
/// digits, one of the forms the crate documents, reads as the value it
/// spells.
#[verifier::external_body]
pub(crate) fn uuid_from_text(text: &str) -> (r: Option<u128>)
    ensures
        r == uuid_parsed(text@),
        hyphenated_value(text@) is Some ==> r == hyphenated_value(text@),
{
    uuid::Uuid::parse_str(text).ok().map(|u| u.as_u128())
}

/// Stable identity for a registered project.
#[derive(Debug, Clone, Copy, PartialEq, Eq, Structural)]
pub struct ProjectId {
    /// The UUID's 128-bit value.
    pub value: u128,
}

impl ProjectId {
    /// A fresh random identifier.
    pub fn new() -> (r: ProjectId)
        ensures
            is_v4(r.value),
    {
        ProjectId { value: random_uuid() }
    }

    /// The identifier with a given UUID value.
    pub fn from_uuid(value: u128) -> (r: ProjectId)
        ensures
            r.value == value,
    {
        ProjectId { value }
    }

    /// The UUID value.
    pub fn as_uuid(&self) -> (r: u128)
        ensures
            r == self.value,
    {
        self.value
    }

    /// Canonical hyphenated form, as stored.
    pub fn to_hyphenated(&self) -> (r: String)
        ensures
            r@ == hyphenated(self.value),
    {
        uuid_to_text(self.value)
    }

    /// Reads a hyphenated (or any form `uuid` accepts) identifier.
    pub fn parse(text: &str) -> (r: Option<ProjectId>)
        ensures
            match uuid_parsed(text@) {
                None => r is None,
                Some(v) => r == Some(ProjectId { value: v }),
            },
            hyphenated_value(text@) is Some ==> r == Some(ProjectId { value: hyphenated_value(text@).unwrap() }),
    {
        match uuid_from_text(text) {
            None => None,
            Some(v) => Some(ProjectId { value: v }),
        }
    }
}

// ---------------------------------------------------------------------------
// The project record
// ---------------------------------------------------------------------------

/// What the detector learned about a directory when it was added.
#[derive(Debug, Clone)]
pub struct DetectedFacts {
    /// Which runner claimed the directory.
    pub runner_id: String,
    /// Primary language, as the runner reports it.
    pub language: String,
    /// Framework, if the runner identified one.
    pub framework: Option<String>,
    /// Package manager in use, where relevant.
    pub package_manager: Option<String>,
    /// The project's own declared version.
    pub version: Option<String>,
    /// When detection ran, in milliseconds since the Unix epoch.
    pub detected_at: i64,
}

/// A registered project. Timestamps are milliseconds since the Unix epoch.
#[derive(Debug)]
pub struct Project {
    /// Stable identity.
    pub id: ProjectId,
    /// Display name.
    pub name: String,
    /// Optional one-line description.
    pub description: Option<String>,
    /// Absolute path to the project directory.
    pub root: String,
    /// Facts from detection.
    pub detected: DetectedFacts,
    /// User customisation.
    pub overrides: ProjectOverrides,
    /// Free-form labels.
    pub tags: Vec<String>,
    /// Optional grouping.
    pub category: Option<String>,
    /// Pinned to the favourites row.
    pub favorite: bool,
    /// Kept at the top of its group.
    pub pinned: bool,
    /// Hidden from the main list but not deleted.
    pub archived: bool,
    /// What to do when the project exits.
    pub restart_policy: RestartPolicy,
    /// Free-form notes.
    pub notes: Option<String>,
    /// When the project was registered.
    pub created_at: i64,
    /// When the record last changed.
    pub updated_at: i64,
    /// When the project was last launched, if ever.
    pub last_launched_at: Option<i64>,
}

/// A candidate project proposed by detection, before the user confirms it.
#[derive(Debug)]
pub struct ProjectDraft {
    /// Suggested name: the directory's name.
    pub name: String,
    /// Directory path.
    pub root: String,
    /// What detection found, if any runner claimed the directory.
    pub detected: Option<DetectedFacts>,
    /// The run command that would execute, as the user is shown it.
    pub proposed_run: Option<String>,
}

/// Whether the ASCII-lower-cased form of `hay` contains `needle`.
pub open spec fn hay_has(hay: Seq<char>, needle: Seq<char>) -> bool {
    contains_seq(lower_ascii_seq(hay), needle)
}

/// Whether a project matches a search: an empty (or blank) query matches
/// everything; otherwise the trimmed, lower-cased query must occur in the
/// lower-cased name, description, language, framework, category, a tag, or
/// the path.
pub open spec fn query_matches(p: Project, query: Seq<char>) -> bool {
    let needle = lower_ascii_seq(trim(query));
    ||| needle.len() == 0
    ||| hay_has(p.name@, needle)
    ||| (p.description matches Some(d) && hay_has(d@, needle))
    ||| hay_has(p.detected.language@, needle)
    ||| (p.detected.framework matches Some(f) && hay_has(f@, needle))
    ||| (p.category matches Some(c) && hay_has(c@, needle))
    ||| (exists|i: int| 0 <= i < p.tags@.len() && hay_has(#[trigger] p.tags@[i]@, needle))
    ||| hay_has(p.root@, needle)
}

/// Whether the lower-cased `hay` contains `needle`.
fn hay_contains(hay: &str, needle: &Vec<char>) -> (r: bool)
    ensures
        r == hay_has(hay@, needle@),
{
    let low = lower_chars(&chars_of(hay));
    chars_contain(&low, needle)
}

impl Project {
    /// The directory a command runs in: the override, else the root.
    pub fn effective_working_dir(&self) -> (r: &str)
        ensures
            r@ == match self.overrides.working_dir {
                Some(d) => d@,
                None => self.root@,
            },
    {
        match &self.overrides.working_dir {
            Some(d) => d.as_str(),
            None => self.root.as_str(),
        }
    }

    /// Ports to check before launch.
    pub fn effective_ports(&self) -> (r: &[u16])
        ensures
            r@ == self.overrides.ports@,
    {
        self.overrides.ports.as_slice()
    }

    /// The framework if one was detected, else the language: what a card
    /// shows on its single metadata line.
    pub fn kind_label(&self) -> (r: &str)
        ensures
            r@ == match self.detected.framework {
                Some(f) => f@,
                None => self.detected.language@,
            },
    {
        match &self.detected.framework {
            Some(f) => f.as_str(),
            None => self.detected.language.as_str(),
        }
    }

    /// Whether `needle` matches this project, for global search.
    pub fn matches_query(&self, needle: &str) -> (r: bool)
        ensures
            r == query_matches(*self, needle@),
    {
        let n = lower_chars(&trim_chars(&chars_of(needle)));
        if n.len() == 0 {
            return true;
        }
        if hay_contains(self.name.as_str(), &n) {
            return true;
        }
        if let Some(d) = &self.description {
            if hay_contains(d.as_str(), &n) {
                return true;
            }
        }
        if hay_contains(self.detected.language.as_str(), &n) {
            return true;
        }
        if let Some(f) = &self.detected.framework {
            if hay_contains(f.as_str(), &n) {
                return true;
            }
        }
        if let Some(c) = &self.category {
            if hay_contains(c.as_str(), &n) {
                return true;
            }
        }
        let mut i: usize = 0;
        while i < self.tags.len()
            invariant
                i <= self.tags.len(),
                n@ == lower_ascii_seq(trim(needle@)),
                forall|k: int| 0 <= k < i ==> !hay_has(#[trigger] self.tags@[k]@, n@),
            decreases self.tags.len() - i,
        {
            if hay_contains(self.tags[i].as_str(), &n) {
                return true;
            }
            i += 1;
        }
        hay_contains(self.root.as_str(), &n)
    }
}

} // verus!
