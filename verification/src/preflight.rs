//! Can this project actually start, without starting it?
//!
//! Run history showed launches failing for reasons knowable beforehand: the
//! entry file the command names does not exist, or `cargo run` cannot tell
//! which binary to run. Every check here is a read of the project, never an
//! execution.
use vstd::prelude::*;

use crate::command::views;
use crate::manifest::{ask, is_path_oracle, says};
use crate::path::{extension, extension_spec, name_ext, name_extension, name_stem, name_stem_of};
use crate::probe::{
    opt_views, toml_at, toml_field_strs, toml_field_strs_of, toml_str_at, toml_str_of, toml_strs, toml_strs_of,
    toml_value_at, ProjectProbe,
};
use crate::text::{lex_less, lemma_lex_order, str_less};
use crate::runner::{join_path, join_spec};
use crate::text::{chars_of, lower_ascii_seq, lower_chars, str_equal, string_of};

verus! {

broadcast use vstd::string::group_string_axioms;

/// Whether an extension makes an argument a script rather than a word:
/// `npm run dev` takes words, `python main.py` takes a file.
pub open spec fn script_extension(e: Seq<char>) -> bool {
    let l = lower_ascii_seq(e);
    ||| l == "py"@
    ||| l == "js"@
    ||| l == "mjs"@
    ||| l == "cjs"@
    ||| l == "ts"@
    ||| l == "tsx"@
    ||| l == "ps1"@
    ||| l == "bat"@
    ||| l == "cmd"@
    ||| l == "exe"@
    ||| l == "jar"@
    ||| l == "rb"@
    ||| l == "php"@
    ||| l == "lua"@
    ||| l == "sh"@
    ||| l == "pl"@
    ||| l == "r"@
}

/// Whether an argument names a script the project does not have: not a
/// flag, a script extension, and nothing at the path (rooted as given, else
/// under the root).
pub open spec fn names_missing_file<F: Fn(&str) -> bool>(f: F, root: Seq<char>, a: Seq<char>) -> bool {
    &&& !(a.len() > 0 && a[0] == '-')
    &&& extension_spec(a) matches Some(e) && script_extension(e)
    &&& !says(f, join_spec(root, a))
}

/// The first argument that names a missing file.
pub open spec fn first_missing<F: Fn(&str) -> bool>(f: F, root: Seq<char>, args: Seq<Seq<char>>) -> Option<Seq<char>>
    decreases args.len(),
{
    if args.len() == 0 {
        None
    } else if names_missing_file(f, root, args[0]) {
        Some(args[0])
    } else {
        first_missing(f, root, args.drop_first())
    }
}

/// The extensions that mark an argument as a script, in any case: `py`,
/// `js`, `mjs`, `cjs`, `ts`, `tsx`, `ps1`, `bat`, `cmd`, `exe`, `jar`, `rb`,
/// `php`, `lua`, `sh`, `pl` and `R`; no other does.
pub proof fn these_extensions_mark_a_script(e: Seq<char>)
    ensures
        script_extension(e) <==> set![
            "py"@, "js"@, "mjs"@, "cjs"@, "ts"@, "tsx"@, "ps1"@, "bat"@, "cmd"@, "exe"@, "jar"@, "rb"@, "php"@,
            "lua"@, "sh"@, "pl"@, "r"@,
        ].contains(lower_ascii_seq(e)),
{
}

/// The entry file reported missing is the first argument that is not a
/// flag, has a script extension, and is not there under the root (or as
/// given, when rooted): every earlier argument is a flag, a word, or a file
/// that exists. When no argument is such a file, nothing is reported.
pub proof fn the_first_missing_entry_file_is_reported<F: Fn(&str) -> bool>(
    f: F,
    root: Seq<char>,
    args: Seq<Seq<char>>,
    i: int,
)
    ensures
        ({
            let a = args[i];
            &&& 0 <= i < args.len()
            &&& !(a.len() > 0 && a[0] == '-')
            &&& extension_spec(a) matches Some(e) && script_extension(e)
            &&& !says(f, join_spec(root, a))
            &&& forall|k: int| 0 <= k < i ==> !names_missing_file(f, root, #[trigger] args[k])
        }) ==> first_missing(f, root, args) == Some(args[i]),
        (forall|k: int| 0 <= k < args.len() ==> !names_missing_file(f, root, #[trigger] args[k])) ==> first_missing(
            f,
            root,
            args,
        ) is None,
        first_missing(f, root, args) matches Some(a) ==> exists|k: int|
            0 <= k < args.len() && #[trigger] args[k] == a && names_missing_file(f, root, a),
    decreases args.len(),
{
    if args.len() > 0 {
        let rest = args.drop_first();
        assert forall|k: int| 0 <= k < rest.len() implies rest[k] == args[k + 1] by {}
        the_first_missing_entry_file_is_reported(f, root, rest, i - 1);
        if first_missing(f, root, args) is Some && !names_missing_file(f, root, args[0]) {
            let k = choose|k: int| 0 <= k < rest.len() && #[trigger] rest[k] == first_missing(f, root, rest)->Some_0
                && names_missing_file(f, root, rest[k]);
            assert(args[k + 1] == rest[k]);
        }
        if 0 < i < args.len() && forall|k: int| 0 <= k < i ==> !names_missing_file(f, root, #[trigger] args[k]) {
            assert(!names_missing_file(f, root, args[0]));
            assert forall|k: int| 0 <= k < i - 1 implies !names_missing_file(f, root, #[trigger] rest[k]) by {
                assert(rest[k] == args[k + 1]);
            }
        }
        if forall|k: int| 0 <= k < args.len() ==> !names_missing_file(f, root, #[trigger] args[k]) {
            assert(!names_missing_file(f, root, args[0]));
            assert forall|k: int| 0 <= k < rest.len() implies !names_missing_file(f, root, #[trigger] rest[k]) by {
                assert(rest[k] == args[k + 1]);
            }
        }
    }
}

/// Whether an extension is a script extension.
fn is_script_extension(e: &str) -> (r: bool)
    ensures
        r == script_extension(e@),
{
    let l = string_of(&lower_chars(&chars_of(e)));
    let l = l.as_str();
    str_equal(l, "py") || str_equal(l, "js") || str_equal(l, "mjs") || str_equal(l, "cjs") || str_equal(l, "ts")
        || str_equal(l, "tsx") || str_equal(l, "ps1") || str_equal(l, "bat") || str_equal(l, "cmd")
        || str_equal(l, "exe") || str_equal(l, "jar") || str_equal(l, "rb") || str_equal(l, "php")
        || str_equal(l, "lua") || str_equal(l, "sh") || str_equal(l, "pl") || str_equal(l, "r")
}

/// Whether an argument names a script the project does not have.
fn missing_file<F: Fn(&str) -> bool>(root: &str, a: &str, exists: &F) -> (r: bool)
    requires
        is_path_oracle(*exists),
    ensures
        r == names_missing_file(*exists, root@, a@),
{
    let v = chars_of(a);
    if v.len() > 0 && v[0] == '-' {
        return false;
    }
    let e = match extension(a) {
        None => {
            return false;
        },
        Some(e) => e,
    };
    if !is_script_extension(e.as_str()) {
        return false;
    }
    let full = join_path(root, a);
    !ask(exists, full.as_str())
}

/// An argument that names a file the project does not have, so the caller
/// can say which one. Flags, and words without a script extension, are left
/// alone: a false "missing file" would block a Run that works.
pub fn missing_entry<F: Fn(&str) -> bool>(root: &str, args: &[String], exists: &F) -> (r: Option<String>)
    requires
        is_path_oracle(*exists),
    ensures
        match first_missing(*exists, root@, views(args@)) {
            None => r is None,
            Some(a) => r matches Some(s) && s@ == a,
        },
{
    let ghost av = views(args@);
    let mut i: usize = 0;
    assert(av.skip(0) =~= av);
    while i < args.len()
        invariant
            i <= args.len(),
            av == views(args@),
            is_path_oracle(*exists),
            first_missing(*exists, root@, av) == first_missing(*exists, root@, av.skip(i as int)),
        decreases args.len() - i,
    {
        assert(av.skip(i as int)[0] == args@[i as int]@);
        assert(av.skip(i as int).drop_first() =~= av.skip(i + 1));
        if missing_file(root, args[i].as_str(), exists) {
            return Some(args[i].clone());
        }
        i += 1;
    }
    None
}

// ---------------------------------------------------------------------------
// Which binary `cargo run` would run
// ---------------------------------------------------------------------------

/// The strings among a list of optional strings, in order.
pub open spec fn somes(v: Seq<Option<Seq<char>>>) -> Seq<Seq<char>>
    decreases v.len(),
{
    if v.len() == 0 {
        Seq::empty()
    } else {
        somes(v.drop_last()) + match v.last() {
            Some(t) => seq![t],
            None => Seq::<Seq<char>>::empty(),
        }
    }
}

/// `rel` under the project directory `dir` (the root when empty).
pub open spec fn under(dir: Seq<char>, rel: Seq<char>) -> Seq<char> {
    if dir.len() == 0 {
        rel
    } else {
        dir + seq!['/'] + rel
    }
}

/// Whether a file (not a directory) is at `rel`.
pub open spec fn file_at<P: ProjectProbe>(p: &P, rel: Seq<char>) -> bool {
    p.present(rel) && !p.has_dir(rel)
}

/// The stems of the `.rs` names, in order.
pub open spec fn rs_stems(names: Seq<Seq<char>>) -> Seq<Seq<char>>
    decreases names.len(),
{
    if names.len() == 0 {
        Seq::empty()
    } else {
        rs_stems(names.drop_last()) + if name_extension(names.last()) == Some("rs"@) {
            seq![name_stem(names.last())]
        } else {
            Seq::<Seq<char>>::empty()
        }
    }
}

/// Whether a TOML text parses.
pub open spec fn toml_parses(text: Seq<char>) -> bool {
    toml_value_at(text, Seq::empty()) is Some
}

/// The package name a manifest declares, when it is a string.
pub open spec fn package_name(text: Seq<char>) -> Option<Seq<char>> {
    toml_str_of(text, seq!["package"@, "name"@])
}

/// The binary targets of the package in `dir` with manifest `text`, counted
/// as cargo does: declared `[[bin]]` names win; otherwise `src/main.rs` is
/// the package (or `main`) and each `src/bin/*.rs` is its stem.
pub open spec fn bin_targets_spec<P: ProjectProbe>(p: &P, dir: Seq<char>, text: Seq<char>) -> Seq<Seq<char>> {
    let declared = match toml_field_strs_of(text, seq!["bin"@], "name"@) {
        Some(v) => somes(v),
        None => Seq::empty(),
    };
    if declared.len() > 0 {
        declared
    } else {
        (if file_at(p, under(dir, "src/main.rs"@)) {
            seq![
                match package_name(text) {
                    Some(n) => n,
                    None => "main"@,
                },
            ]
        } else {
            Seq::empty()
        }) + rs_stems(p.listing(Some(under(dir, "src/bin"@))))
    }
}

/// The directories among `names` inside `prefix`, as paths, in order.
pub open spec fn dirs_among<P: ProjectProbe>(p: &P, prefix: Seq<char>, names: Seq<Seq<char>>) -> Seq<Seq<char>>
    decreases names.len(),
{
    if names.len() == 0 {
        Seq::empty()
    } else {
        let path = prefix + seq!['/'] + names.last();
        dirs_among(p, prefix, names.drop_last()) + if p.has_dir(path) {
            seq![path]
        } else {
            Seq::<Seq<char>>::empty()
        }
    }
}

/// The directories one `members` entry names: a trailing `/*` (or `\*`)
/// means every directory under the prefix.
pub open spec fn member_dirs_spec<P: ProjectProbe>(p: &P, member: Seq<char>) -> Seq<Seq<char>> {
    if member.len() >= 2 && member.last() == '*' && (member[member.len() - 2] == '/' || member[member.len()
        - 2] == '\\') {
        let prefix = member.take(member.len() - 2);
        dirs_among(p, prefix, p.listing(Some(prefix)))
    } else {
        seq![member]
    }
}

/// The binary targets of the member packages in `dirs`; a member without a
/// readable, parseable manifest contributes none.
pub open spec fn dirs_targets<P: ProjectProbe>(p: &P, dirs: Seq<Seq<char>>) -> Seq<Seq<char>>
    decreases dirs.len(),
{
    if dirs.len() == 0 {
        Seq::empty()
    } else {
        dirs_targets(p, dirs.drop_last()) + match p.contents(under(dirs.last(), "Cargo.toml"@)) {
            Some(t) => if toml_parses(t) {
                bin_targets_spec(p, dirs.last(), t)
            } else {
                Seq::empty()
            },
            None => Seq::empty(),
        }
    }
}

/// The binary targets of every member of a workspace.
pub open spec fn members_targets<P: ProjectProbe>(p: &P, members: Seq<Seq<char>>) -> Seq<Seq<char>>
    decreases members.len(),
{
    if members.len() == 0 {
        Seq::empty()
    } else {
        members_targets(p, members.drop_last()) + dirs_targets(p, member_dirs_spec(p, members.last()))
    }
}

/// The targets `cargo run` chooses among for the root manifest `text`, or
/// `None` when the manifest settles it or cannot be read: a package with a
/// `default-run` is settled; a package offers its own targets; a manifest
/// with no package is a virtual workspace offering its members' targets.
pub open spec fn cargo_targets_spec<P: ProjectProbe>(p: &P, text: Seq<char>) -> Option<Seq<Seq<char>>> {
    if !toml_parses(text) {
        None
    } else if toml_value_at(text, seq!["package"@]) is Some {
        if toml_value_at(text, seq!["package"@, "default-run"@]) is Some {
            None
        } else {
            Some(bin_targets_spec(p, Seq::empty(), text))
        }
    } else {
        match toml_strs_of(text, seq!["workspace"@, "members"@]) {
            None => None,
            Some(ms) => Some(members_targets(p, somes(ms))),
        }
    }
}

/// Whether the names are in strictly increasing string order.
pub open spec fn strictly_sorted(s: Seq<Seq<char>>) -> bool {
    forall|i: int, j: int| 0 <= i < j < s.len() ==> lex_less(s[i], s[j])
}

/// The targets a bare `cargo run` would refuse to choose among, as a set;
/// `None` when the command is fine: not cargo, not `run`, an explicit
/// `--bin` or `--example`, no readable manifest, a settled default, or at
/// most one distinct target.
pub open spec fn cargo_choices<P: ProjectProbe>(p: &P, program: Seq<char>, args: Seq<Seq<char>>) -> Option<Set<Seq<char>>> {
    if lower_ascii_seq(program) != "cargo"@ || !args.contains("run"@) || args.contains("--bin"@) || args.contains(
        "--example"@,
    ) {
        None
    } else {
        match p.contents("Cargo.toml"@) {
            None => None,
            Some(t) => match cargo_targets_spec(p, t) {
                None => None,
                Some(names) => if names.to_set().len() > 1 {
                    Some(names.to_set())
                } else {
                    None
                },
            },
        }
    }
}

/// The strings among `v`, in order.
pub(crate) fn somes_of(v: Vec<Option<String>>) -> (r: Vec<String>)
    ensures
        views(r@) == somes(opt_views(v@)),
{
    let mut out: Vec<String> = Vec::new();
    let mut i: usize = 0;
    assert(opt_views(v@).take(0) =~= Seq::<Option<Seq<char>>>::empty());
    while i < v.len()
        invariant
            i <= v.len(),
            views(out@) == somes(opt_views(v@).take(i as int)),
        decreases v.len() - i,
    {
        let ghost before = views(out@);
        assert(opt_views(v@).take(i + 1).drop_last() =~= opt_views(v@).take(i as int));
        match &v[i] {
            Some(t) => {
                out.push(t.clone());
                assert(views(out@) =~= before + seq![t@]);
            },
            None => {
                assert(before + Seq::<Seq<char>>::empty() =~= before);
            },
        }
        i += 1;
    }
    assert(opt_views(v@).take(v.len() as int) =~= opt_views(v@));
    out
}

/// `rel` under `dir`.
pub(crate) fn under_dir(dir: &str, rel: &str) -> (r: String)
    ensures
        r@ == under(dir@, rel@),
{
    let d = chars_of(dir);
    if d.len() == 0 {
        return rel.to_owned();
    }
    let mut out = d;
    out.push('/');
    let mut rv = chars_of(rel);
    out.append(&mut rv);
    string_of(&out)
}

/// Keys from literal words.
pub(crate) fn keys_of(words: &[&str]) -> (r: Vec<String>)
    ensures
        views(r@) == words@.map_values(|w: &str| w@),
{
    let mut out: Vec<String> = Vec::new();
    let mut i: usize = 0;
    while i < words.len()
        invariant
            i <= words.len(),
            views(out@) == words@.map_values(|w: &str| w@).take(i as int),
        decreases words.len() - i,
    {
        let ghost before = views(out@);
        out.push(words[i].to_owned());
        assert(views(out@) =~= before.push(words@[i as int]@));
        assert(words@.map_values(|w: &str| w@).take(i + 1) =~= before.push(words@[i as int]@));
        i += 1;
    }
    assert(words@.map_values(|w: &str| w@).take(words.len() as int) =~= words@.map_values(|w: &str| w@));
    out
}

/// The stems of the `.rs` names.
fn rs_stems_of(names: &Vec<String>) -> (r: Vec<String>)
    ensures
        views(r@) == rs_stems(views(names@)),
{
    let mut out: Vec<String> = Vec::new();
    let mut i: usize = 0;
    assert(views(names@).take(0) =~= Seq::<Seq<char>>::empty());
    while i < names.len()
        invariant
            i <= names.len(),
            views(out@) == rs_stems(views(names@).take(i as int)),
        decreases names.len() - i,
    {
        let ghost before = views(out@);
        let ghost n = names@[i as int]@;
        assert(views(names@).take(i + 1).drop_last() =~= views(names@).take(i as int));
        assert(views(names@).take(i + 1).last() == n);
        let v = chars_of(names[i].as_str());
        let is_rs = match name_ext(&v) {
            Some(e) => e.len() == 2 && e[0] == 'r' && e[1] == 's',
            None => false,
        };
        proof {
            reveal_strlit("rs");
        }
        if is_rs {
            assert(name_extension(n) == Some("rs"@));
            let stem = name_stem_of(&v);
            out.push(string_of(&stem));
            assert(views(out@) =~= before + seq![name_stem(n)]);
        } else {
            assert(name_extension(n) != Some("rs"@));
            assert(before + Seq::<Seq<char>>::empty() =~= before);
        }
        i += 1;
    }
    assert(views(names@).take(names.len() as int) =~= views(names@));
    out
}

/// The package name a manifest declares.
fn declared_name(text: &str) -> (r: Option<String>)
    ensures
        match package_name(text@) {
            None => r is None,
            Some(n) => r matches Some(s) && s@ == n,
        },
{
    let keys = keys_of(&["package", "name"]);
    assert(views(keys@) =~= seq!["package"@, "name"@]);
    toml_str_at(text, &keys)
}

/// Whether a TOML text parses.
fn parses(text: &str) -> (r: bool)
    ensures
        r == toml_parses(text@),
{
    let keys: Vec<String> = Vec::new();
    assert(views(keys@) =~= Seq::<Seq<char>>::empty());
    toml_at(text, &keys).is_some()
}

/// The binary targets of the package in `dir` with manifest `text`.
fn bin_targets<P: ProjectProbe>(p: &P, dir: &str, text: &str) -> (r: Vec<String>)
    ensures
        views(r@) == bin_targets_spec(p, dir@, text@),
{
    let keys = keys_of(&["bin"]);
    assert(views(keys@) =~= seq!["bin"@]);
    let declared = match toml_field_strs(text, &keys, "name") {
        Some(v) => somes_of(v),
        None => Vec::new(),
    };
    if declared.len() > 0 {
        return declared;
    }
    let mut names: Vec<String> = Vec::new();
    let main = under_dir(dir, "src/main.rs");
    if p.has_path(main.as_str()) && !p.is_dir(main.as_str()) {
        match declared_name(text) {
            Some(n) => names.push(n),
            None => names.push("main".to_owned()),
        }
    }
    let ghost head = views(names@);
    let bin = under_dir(dir, "src/bin");
    let listed = p.entries_in(bin.as_str());
    let mut stems = rs_stems_of(&listed);
    names.append(&mut stems);
    assert(views(names@) =~= head + rs_stems(p.listing(Some(under(dir@, "src/bin"@)))));
    names
}

/// The directories among `names` inside `prefix`, as paths.
fn dirs_in<P: ProjectProbe>(p: &P, prefix: &str, names: &Vec<String>) -> (r: Vec<String>)
    ensures
        views(r@) == dirs_among(p, prefix@, views(names@)),
{
    let mut out: Vec<String> = Vec::new();
    let mut i: usize = 0;
    assert(views(names@).take(0) =~= Seq::<Seq<char>>::empty());
    while i < names.len()
        invariant
            i <= names.len(),
            views(out@) == dirs_among(p, prefix@, views(names@).take(i as int)),
        decreases names.len() - i,
    {
        let ghost before = views(out@);
        assert(views(names@).take(i + 1).drop_last() =~= views(names@).take(i as int));
        assert(views(names@).take(i + 1).last() == names@[i as int]@);
        let mut pv = chars_of(prefix);
        pv.push('/');
        let mut n = chars_of(names[i].as_str());
        pv.append(&mut n);
        assert(pv@ =~= prefix@ + seq!['/'] + names@[i as int]@);
        let path = string_of(&pv);
        if p.is_dir(path.as_str()) {
            out.push(path);
            assert(views(out@) =~= before + seq![prefix@ + seq!['/'] + names@[i as int]@]);
        } else {
            assert(before + Seq::<Seq<char>>::empty() =~= before);
        }
        i += 1;
    }
    assert(views(names@).take(names.len() as int) =~= views(names@));
    out
}

/// The directories one `members` entry names.
fn member_dirs<P: ProjectProbe>(p: &P, member: &str) -> (r: Vec<String>)
    ensures
        views(r@) == member_dirs_spec(p, member@),
{
    let v = chars_of(member);
    let n = v.len();
    if n >= 2 && v[n - 1] == '*' && (v[n - 2] == '/' || v[n - 2] == '\\') {
        let prefix = string_of(&crate::text::slice_chars(&v, 0, n - 2));
        assert(prefix@ =~= member@.take(member@.len() - 2));
        let listed = p.entries_in(prefix.as_str());
        dirs_in(p, prefix.as_str(), &listed)
    } else {
        let mut out: Vec<String> = Vec::new();
        out.push(member.to_owned());
        assert(views(out@) =~= seq![member@]);
        out
    }
}

/// The binary targets of the member packages in `dirs`.
fn targets_in_dirs<P: ProjectProbe>(p: &P, dirs: &Vec<String>) -> (r: Vec<String>)
    ensures
        views(r@) == dirs_targets(p, views(dirs@)),
{
    let mut out: Vec<String> = Vec::new();
    let mut i: usize = 0;
    assert(views(dirs@).take(0) =~= Seq::<Seq<char>>::empty());
    while i < dirs.len()
        invariant
            i <= dirs.len(),
            views(out@) == dirs_targets(p, views(dirs@).take(i as int)),
        decreases dirs.len() - i,
    {
        let ghost before = views(out@);
        assert(views(dirs@).take(i + 1).drop_last() =~= views(dirs@).take(i as int));
        assert(views(dirs@).take(i + 1).last() == dirs@[i as int]@);
        let manifest = under_dir(dirs[i].as_str(), "Cargo.toml");
        match p.text(manifest.as_str()) {
            Some(t) => {
                if parses(t.as_str()) {
                    let mut more = bin_targets(p, dirs[i].as_str(), t.as_str());
                    out.append(&mut more);
                } else {
                    assert(before + Seq::<Seq<char>>::empty() =~= before);
                }
            },
            None => {
                assert(before + Seq::<Seq<char>>::empty() =~= before);
            },
        }
        i += 1;
    }
    assert(views(dirs@).take(dirs.len() as int) =~= views(dirs@));
    out
}

/// The binary targets of every member of a workspace.
fn targets_of_members<P: ProjectProbe>(p: &P, members: &Vec<String>) -> (r: Vec<String>)
    ensures
        views(r@) == members_targets(p, views(members@)),
{
    let mut out: Vec<String> = Vec::new();
    let mut i: usize = 0;
    assert(views(members@).take(0) =~= Seq::<Seq<char>>::empty());
    while i < members.len()
        invariant
            i <= members.len(),
            views(out@) == members_targets(p, views(members@).take(i as int)),
        decreases members.len() - i,
    {
        assert(views(members@).take(i + 1).drop_last() =~= views(members@).take(i as int));
        assert(views(members@).take(i + 1).last() == members@[i as int]@);
        let dirs = member_dirs(p, members[i].as_str());
        let mut more = targets_in_dirs(p, &dirs);
        out.append(&mut more);
        i += 1;
    }
    assert(views(members@).take(members.len() as int) =~= views(members@));
    out
}

/// The targets `cargo run` chooses among for the root manifest `text`.
fn cargo_targets<P: ProjectProbe>(p: &P, text: &str) -> (r: Option<Vec<String>>)
    ensures
        match cargo_targets_spec(p, text@) {
            None => r is None,
            Some(v) => r matches Some(x) && views(x@) == v,
        },
{
    if !parses(text) {
        return None;
    }
    let package = keys_of(&["package"]);
    assert(views(package@) =~= seq!["package"@]);
    if toml_at(text, &package).is_some() {
        let default_run = keys_of(&["package", "default-run"]);
        assert(views(default_run@) =~= seq!["package"@, "default-run"@]);
        if toml_at(text, &default_run).is_some() {
            return None;
        }
        proof {
            reveal_strlit("");
        }
        assert(""@ =~= Seq::<char>::empty());
        return Some(bin_targets(p, "", text));
    }
    let members = keys_of(&["workspace", "members"]);
    assert(views(members@) =~= seq!["workspace"@, "members"@]);
    match toml_strs(text, &members) {
        None => None,
        Some(ms) => {
            let names = somes_of(ms);
            Some(targets_of_members(p, &names))
        },
    }
}

/// Adds `x` to a strictly sorted list of names, keeping it so.
pub(crate) fn insert_name(v: &mut Vec<String>, x: String)
    requires
        strictly_sorted(views(old(v)@)),
    ensures
        strictly_sorted(views(final(v)@)),
        views(final(v)@).to_set() == views(old(v)@).to_set().insert(x@),
{
    let ghost xs = x@;
    let mut i: usize = 0;
    while i < v.len() && str_less(v[i].as_str(), x.as_str())
        invariant
            i <= v.len(),
            v@ == old(v)@,
            xs == x@,
            forall|k: int| 0 <= k < i ==> lex_less(views(v@)[k], xs),
        decreases v.len() - i,
    {
        assert(views(v@)[i as int] == v@[i as int]@);
        i += 1;
    }
    let ghost before = views(v@);
    if i < v.len() && crate::text::str_equal(v[i].as_str(), x.as_str()) {
        assert(before.to_set() =~= before.to_set().insert(xs)) by {
            assert(before[i as int] == xs);
        }
        return;
    }
    proof {
        if i < before.len() {
            lemma_lex_order(xs, before[i as int], xs);
            assert(lex_less(xs, before[i as int]));
        }
    }
    v.insert(i, x);
    proof {
        let after = views(v@);
        assert(after =~= before.insert(i as int, xs));
        assert forall|a: int, b: int| 0 <= a < b < after.len() implies lex_less(after[a], after[b]) by {
            if b < i {
            } else if a < i && b == i {
            } else if a < i {
                lemma_lex_order(after[a], xs, after[b]);
                if i < before.len() {
                    lemma_lex_order(xs, before[i as int], after[b]);
                }
            } else if a == i {
                if b - 1 > i {
                    lemma_lex_order(xs, before[i as int], after[b]);
                }
            }
        }
        assert forall|y: Seq<char>| after.to_set().contains(y) == before.to_set().insert(xs).contains(y) by {
            if after.contains(y) {
                let k = choose|k: int| 0 <= k < after.len() && after[k] == y;
                if k < i {
                    assert(before[k] == y);
                } else if k > i {
                    assert(before[k - 1] == y);
                }
            }
            if before.contains(y) {
                let k = choose|k: int| 0 <= k < before.len() && before[k] == y;
                if k < i {
                    assert(after[k] == y);
                } else {
                    assert(after[k + 1] == y);
                }
            }
            if y == xs {
                assert(after[i as int] == xs);
            }
        }
        assert(after.to_set() =~= before.to_set().insert(xs));
    }
}

/// Whether `args` holds `word`.
fn has_arg(args: &[String], word: &str) -> (r: bool)
    ensures
        r == views(args@).contains(word@),
{
    let mut i: usize = 0;
    while i < args.len()
        invariant
            i <= args.len(),
            forall|k: int| 0 <= k < i ==> views(args@)[k] != word@,
        decreases args.len() - i,
    {
        if crate::text::str_equal(args[i].as_str(), word) {
            assert(views(args@)[i as int] == word@);
            return true;
        }
        i += 1;
    }
    false
}

/// The binary targets a Cargo project offers when a bare `cargo run` would
/// be ambiguous, in string order; `None` when the command is fine. `probe`
/// looks at the project root.
pub fn cargo_ambiguity<P: ProjectProbe>(probe: &P, program: &str, args: &[String]) -> (r: Option<Vec<String>>)
    ensures
        match cargo_choices(probe, program@, views(args@)) {
            None => r is None,
            Some(set) => r matches Some(v) && strictly_sorted(views(v@)) && views(v@).to_set() == set,
        },
{
    let low = string_of(&lower_chars(&chars_of(program)));
    if !str_equal(low.as_str(), "cargo") || !has_arg(args, "run") || has_arg(args, "--bin") || has_arg(
        args,
        "--example",
    ) {
        return None;
    }
    let text = match probe.text("Cargo.toml") {
        None => {
            return None;
        },
        Some(t) => t,
    };
    let names = match cargo_targets(probe, text.as_str()) {
        None => {
            return None;
        },
        Some(n) => n,
    };
    let ghost all = views(names@);
    let mut sorted: Vec<String> = Vec::new();
    let mut i: usize = 0;
    assert(views(sorted@).to_set() =~= all.take(0).to_set());
    while i < names.len()
        invariant
            i <= names.len(),
            all == views(names@),
            strictly_sorted(views(sorted@)),
            views(sorted@).to_set() == all.take(i as int).to_set(),
        decreases names.len() - i,
    {
        insert_name(&mut sorted, names[i].clone());
        assert(all.take(i + 1).to_set() =~= all.take(i as int).to_set().insert(all[i as int])) by {
            let t = all.take(i + 1);
            let u = all.take(i as int);
            assert(t =~= u.push(all[i as int]));
            assert forall|y: Seq<char>| t.contains(y) == u.to_set().insert(all[i as int]).contains(y) by {
                if t.contains(y) {
                    let k = choose|k: int| 0 <= k < t.len() && t[k] == y;
                    if k < u.len() {
                        assert(u[k] == y);
                    }
                }
                if u.contains(y) {
                    let k = choose|k: int| 0 <= k < u.len() && u[k] == y;
                    assert(t[k] == y);
                }
                if y == all[i as int] {
                    assert(t[i as int] == y);
                }
            }
        }
        i += 1;
    }
    assert(all.take(names.len() as int) =~= all);
    proof {
        assert(views(sorted@).no_duplicates()) by {
            assert forall|a: int, b: int| 0 <= a < b < views(sorted@).len() implies views(sorted@)[a] != views(sorted@)[b] by {
                lemma_lex_order(views(sorted@)[a], views(sorted@)[b], views(sorted@)[a]);
            }
        }
        views(sorted@).unique_seq_to_set();
    }
    if sorted.len() > 1 {
        Some(sorted)
    } else {
        None
    }
}

} // verus!
