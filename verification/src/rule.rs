//! Evaluation of manifest detection rules against a project directory.
//!
//! Every rule is a read-only predicate; a rule naming a path outside the
//! project root is simply false.
use vstd::prelude::*;

use crate::glob::{fold_case, glob_spec, split_dir, split_dir_spec};
use crate::manifest::{DetectionRule, ValueSource};
use crate::probe::{
    inside, json_lookup, json_pointer, read_text, stays_inside, text_inside, toml_lookup, toml_path,
    opt_opt_view, opt_str, is_listed_file, listed_file, ProjectProbe,
};
use crate::text::{contains_seq, str_contains, str_equal};

verus! {

broadcast use vstd::string::group_string_axioms;

/// Whether `rel` exists inside the root.
pub open spec fn present_inside<P: ProjectProbe>(p: &P, rel: Seq<char>) -> bool {
    inside(rel) && p.present(rel)
}

/// Whether `rel` is a directory inside the root.
pub open spec fn dir_inside<P: ProjectProbe>(p: &P, rel: Seq<char>) -> bool {
    inside(rel) && p.has_dir(rel)
}

/// Whether some entry listed where `pattern` points matches its file-name
/// part, ignoring case; in a subdirectory only files count.
pub open spec fn glob_holds<P: ProjectProbe>(p: &P, pattern: Seq<char>) -> bool {
    let dir = split_dir_spec(pattern).0;
    let names = p.listing(dir);
    exists|i: int|
        0 <= i < names.len() && glob_spec(fold_case(#[trigger] names[i]), fold_case(split_dir_spec(pattern).1))
            && listed_file(p, dir, names[i])
}

/// Whether a detection rule holds for the project `p`.
pub open spec fn rule_holds<P: ProjectProbe>(rule: DetectionRule, p: &P) -> bool
    decreases rule,
{
    match rule {
        DetectionRule::FileExists(path) => present_inside(p, path@) && !dir_inside(p, path@),
        DetectionRule::DirExists(path) => dir_inside(p, path@),
        DetectionRule::GlobMatches(pattern) => glob_holds(p, pattern@),
        DetectionRule::JsonKeyExists { file, pointer } => json_lookup(p, file@, pointer@) is Some,
        DetectionRule::JsonKeyEquals { file, pointer, value } => json_lookup(p, file@, pointer@) matches Some(
            (k, s),
        ) && k <= 2 && s == value@,
        DetectionRule::TomlKeyExists { file, path } => toml_lookup(p, file@, path@) is Some,
        DetectionRule::FileContains { file, text } => match text_inside(p, file@) {
            None => false,
            Some(t) => contains_seq(t, text@),
        },
        DetectionRule::Not(inner) => !rule_holds(*inner, p),
        DetectionRule::AllOf(rules) => all_hold(rules@, p),
        DetectionRule::AnyOf(rules) => any_holds(rules@, p),
    }
}

/// Whether every rule of `rules` holds.
pub open spec fn all_hold<P: ProjectProbe>(rules: Seq<DetectionRule>, p: &P) -> bool
    decreases rules,
{
    if rules.len() == 0 {
        true
    } else {
        rule_holds(rules[0], p) && all_hold(rules.subrange(1, rules.len() as int), p)
    }
}

/// Whether some rule of `rules` holds.
pub open spec fn any_holds<P: ProjectProbe>(rules: Seq<DetectionRule>, p: &P) -> bool
    decreases rules,
{
    if rules.len() == 0 {
        false
    } else {
        rule_holds(rules[0], p) || any_holds(rules.subrange(1, rules.len() as int), p)
    }
}


/// `all_hold` is "every rule holds".
pub proof fn lemma_all_hold<P: ProjectProbe>(rules: Seq<DetectionRule>, p: &P)
    ensures
        all_hold(rules, p) <==> forall|k: int| 0 <= k < rules.len() ==> rule_holds(#[trigger] rules[k], p),
    decreases rules.len(),
{
    if rules.len() > 0 {
        let rest = rules.subrange(1, rules.len() as int);
        lemma_all_hold(rest, p);
        if all_hold(rules, p) {
            assert forall|k: int| 0 <= k < rules.len() implies rule_holds(#[trigger] rules[k], p) by {
                if k > 0 {
                    assert(rules[k] == rest[k - 1]);
                }
            }
        }
        if forall|k: int| 0 <= k < rules.len() ==> rule_holds(#[trigger] rules[k], p) {
            assert forall|k: int| 0 <= k < rest.len() implies rule_holds(#[trigger] rest[k], p) by {
                assert(rest[k] == rules[k + 1]);
            }
        }
    }
}

/// `any_holds` is "some rule holds".
pub proof fn lemma_any_holds<P: ProjectProbe>(rules: Seq<DetectionRule>, p: &P)
    ensures
        any_holds(rules, p) <==> exists|k: int| 0 <= k < rules.len() && rule_holds(#[trigger] rules[k], p),
    decreases rules.len(),
{
    if rules.len() > 0 {
        let rest = rules.subrange(1, rules.len() as int);
        lemma_any_holds(rest, p);
        if any_holds(rules, p) {
            if !rule_holds(rules[0], p) {
                let k = choose|k: int| 0 <= k < rest.len() && rule_holds(#[trigger] rest[k], p);
                assert(rules[k + 1] == rest[k]);
            }
        }
        if exists|k: int| 0 <= k < rules.len() && rule_holds(#[trigger] rules[k], p) {
            let k = choose|k: int| 0 <= k < rules.len() && rule_holds(#[trigger] rules[k], p);
            if k > 0 {
                assert(rest[k - 1] == rules[k]);
            }
        }
    }
}

/// A rule that names a path outside the project root never holds: an
/// absolute path, a drive path, or one whose `..` climbs above the root
/// reads nothing, whatever is on the machine there.
pub proof fn rules_never_read_outside_the_root<P: ProjectProbe>(
    p: &P,
    path: String,
    pointer: String,
    value: String,
    text: String,
)
    requires
        !inside(path@),
    ensures
        !rule_holds(DetectionRule::FileExists(path), p),
        !rule_holds(DetectionRule::DirExists(path), p),
        !rule_holds(DetectionRule::JsonKeyExists { file: path, pointer }, p),
        !rule_holds(DetectionRule::JsonKeyEquals { file: path, pointer, value }, p),
        !rule_holds(DetectionRule::TomlKeyExists { file: path, path: pointer }, p),
        !rule_holds(DetectionRule::FileContains { file: path, text }, p),
{
}

/// Whether some name listed where `pattern` points matches it.
fn glob_rule<P: ProjectProbe>(probe: &P, pattern: &str) -> (r: bool)
    ensures
        r == glob_holds(probe, pattern@),
{
    let (dir, name_pat) = split_dir(pattern);
    let names = match &dir {
        None => probe.root_entries(),
        Some(d) => probe.entries_in(d.as_str()),
    };
    let ghost listed = probe.listing(split_dir_spec(pattern@).0);
    assert(crate::command::views(names@) == listed);
    assert(opt_str(dir) == split_dir_spec(pattern@).0);
    let mut i: usize = 0;
    while i < names.len()
        invariant
            i <= names.len(),
            crate::command::views(names@) == listed,
            listed == probe.listing(split_dir_spec(pattern@).0),
            name_pat@ == split_dir_spec(pattern@).1,
            opt_str(dir) == split_dir_spec(pattern@).0,
            forall|k: int|
                0 <= k < i ==> !(glob_spec(fold_case(#[trigger] listed[k]), fold_case(name_pat@)) && listed_file(
                    probe,
                    opt_str(dir),
                    listed[k],
                )),
        decreases names.len() - i,
    {
        assert(listed[i as int] == names@[i as int]@);
        if crate::glob::matches(names[i].as_str(), name_pat.as_str()) && is_listed_file(probe, &dir, names[i].as_str()) {
            return true;
        }
        i += 1;
    }
    false
}

/// Evaluates one detection rule against a project.
pub fn evaluate<P: ProjectProbe>(rule: &DetectionRule, probe: &P) -> (r: bool)
    ensures
        r == rule_holds(*rule, probe),
    decreases rule,
{
    match rule {
        DetectionRule::FileExists(path) => stays_inside(path.as_str()) && probe.has_path(path.as_str())
            && !probe.is_dir(path.as_str()),
        DetectionRule::DirExists(path) => stays_inside(path.as_str()) && probe.is_dir(path.as_str()),
        DetectionRule::GlobMatches(pattern) => glob_rule(probe, pattern.as_str()),
        DetectionRule::JsonKeyExists { file, pointer } => json_pointer(
            probe,
            file.as_str(),
            pointer.as_str(),
        ).is_some(),
        DetectionRule::JsonKeyEquals { file, pointer, value } => {
            match json_pointer(probe, file.as_str(), pointer.as_str()) {
                Some((k, found)) => k <= 2 && str_equal(found.as_str(), value.as_str()),
                None => false,
            }
        },
        DetectionRule::TomlKeyExists { file, path } => toml_path(
            probe,
            file.as_str(),
            path.as_str(),
        ).is_some(),
        DetectionRule::FileContains { file, text } => match read_text(probe, file.as_str()) {
            None => false,
            Some(body) => str_contains(body.as_str(), text.as_str()),
        },
        DetectionRule::Not(inner) => !evaluate(inner, probe),
        DetectionRule::AllOf(rules) => {
            proof {
                lemma_all_hold(rules@, probe);
            }
            let mut i: usize = 0;
            while i < rules.len()
                invariant
                    i <= rules.len(),
                    *rule == DetectionRule::AllOf(*rules),
                    rule_holds(*rule, probe) == all_hold(rules@, probe),
                    all_hold(rules@, probe) <==> forall|k: int| 0 <= k < rules.len() ==> rule_holds(#[trigger] rules@[k], probe),
                    forall|k: int| 0 <= k < i ==> rule_holds(#[trigger] rules@[k], probe),
                decreases rules.len() - i,
            {
                proof {
                    assert(decreases_to!(*rule => *rules));
                    assert(decreases_to!(*rules => rules@));
                    assert(decreases_to!(rules@ => rules@[i as int]));
                }
                if !evaluate(&rules[i], probe) {
                    return false;
                }
                i += 1;
            }
            true
        },
        DetectionRule::AnyOf(rules) => {
            proof {
                lemma_any_holds(rules@, probe);
            }
            let mut i: usize = 0;
            while i < rules.len()
                invariant
                    i <= rules.len(),
                    *rule == DetectionRule::AnyOf(*rules),
                    rule_holds(*rule, probe) == any_holds(rules@, probe),
                    any_holds(rules@, probe) <==> exists|k: int| 0 <= k < rules.len() && rule_holds(#[trigger] rules@[k], probe),
                    forall|k: int| 0 <= k < i ==> !rule_holds(#[trigger] rules@[k], probe),
                decreases rules.len() - i,
            {
                proof {
                    assert(decreases_to!(*rule => *rules));
                    assert(decreases_to!(*rules => rules@));
                    assert(decreases_to!(rules@ => rules@[i as int]));
                }
                if evaluate(&rules[i], probe) {
                    return true;
                }
                i += 1;
            }
            false
        },
    }
}

/// Whether a manifest's top-level detection rules all hold. An empty list
/// never matches: a runner that claimed every directory would make detection
/// meaningless.
pub open spec fn detects<P: ProjectProbe>(rules: Seq<DetectionRule>, p: &P) -> bool {
    rules.len() > 0 && all_hold(rules, p)
}

/// Evaluates a manifest's top-level detection rules.
pub fn evaluate_all<P: ProjectProbe>(rules: &[DetectionRule], probe: &P) -> (r: bool)
    ensures
        r == detects(rules@, probe),
{
    proof {
        lemma_all_hold(rules@, probe);
    }
    if rules.len() == 0 {
        return false;
    }
    let mut i: usize = 0;
    while i < rules.len()
        invariant
            i <= rules.len(),
            all_hold(rules@, probe) <==> forall|k: int| 0 <= k < rules.len() ==> rule_holds(#[trigger] rules@[k], probe),
            forall|k: int| 0 <= k < i ==> rule_holds(#[trigger] rules@[k], probe),
        decreases rules.len() - i,
    {
        if !evaluate(&rules[i], probe) {
            return false;
        }
        i += 1;
    }
    true
}

/// The string value a source names, if the file has a scalar there.
pub open spec fn value_of<P: ProjectProbe>(source: ValueSource, p: &P) -> Option<Seq<char>> {
    match source {
        ValueSource::Json { file, pointer } => match json_lookup(p, file@, pointer@) {
            Some((k, s)) => if k <= 2 { Some(s) } else { None },
            None => None,
        },
        ValueSource::Toml { file, path } => match toml_lookup(p, file@, path@) {
            Some(Some(s)) => Some(s),
            _ => None,
        },
    }
}

/// Reads a string value out of a project's own metadata.
pub fn read_value<P: ProjectProbe>(source: &ValueSource, probe: &P) -> (r: Option<String>)
    ensures
        match value_of(*source, probe) {
            None => r is None,
            Some(s) => r matches Some(x) && x@ == s,
        },
{
    match source {
        ValueSource::Json { file, pointer } => match json_pointer(probe, file.as_str(), pointer.as_str()) {
            Some((k, s)) => if k <= 2 { Some(s) } else { None },
            None => None,
        },
        ValueSource::Toml { file, path } => match toml_path(probe, file.as_str(), path.as_str()) {
            Some(Some(s)) => Some(s),
            _ => None,
        },
    }
}

} // verus!
