//! Resolving a program name to something Windows can execute.
//!
//! `npm`, `pnpm`, `yarn` and most of the Node and JVM tool surface on Windows
//! are `.cmd` or `.bat` shims, not executables: process creation resolves only
//! real images from `PATH`, and a batch file has to be handed to `cmd.exe /c`
//! even given its full path. So a program is resolved the way a shell would:
//! each `PATH` directory in order, completed with the `PATHEXT` extensions in
//! order, and the result says whether it runs directly or through the shell.
//!
//! Whether a file exists is asked of an oracle; the directories and the
//! extension list are handed in, so everything here is a function of them.
use vstd::prelude::*;

use crate::command::views;
use crate::manifest::{ask, is_path_oracle, says};
use crate::path::{extension, extension_spec};
use crate::runner::{join_path, join_spec};
use crate::text::{chars_of, lower_ascii_seq, lower_chars, str_equal, string_of};

verus! {

broadcast use vstd::string::group_string_axioms;

/// How a resolved program must be invoked.
#[derive(Debug, Clone, PartialEq, Eq)]
pub enum Invocation {
    /// A real executable image: run it directly.
    Direct(String),
    /// A batch script: run it via `cmd.exe /c`.
    ViaShell(String),
}

/// Whether an invocation goes through the shell, and its path.
pub open spec fn inv_view(i: Invocation) -> (bool, Seq<char>) {
    match i {
        Invocation::Direct(p) => (false, p@),
        Invocation::ViaShell(p) => (true, p@),
    }
}

/// The view of an optional invocation.
pub open spec fn opt_inv(i: Option<Invocation>) -> Option<(bool, Seq<char>)> {
    match i {
        Some(x) => Some(inv_view(x)),
        None => None,
    }
}

impl Invocation {
    /// The same invocation.
    pub fn copy(&self) -> (r: Invocation)
        ensures
            inv_view(r) == inv_view(*self),
    {
        match self {
            Invocation::Direct(p) => Invocation::Direct(p.clone()),
            Invocation::ViaShell(p) => Invocation::ViaShell(p.clone()),
        }
    }

    /// The resolved path, however it is invoked.
    pub fn path(&self) -> (r: &str)
        ensures
            r@ == inv_view(*self).1,
    {
        match self {
            Invocation::Direct(p) => p.as_str(),
            Invocation::ViaShell(p) => p.as_str(),
        }
    }
}

/// The search order used when `PATHEXT` is unset.
pub const DEFAULT_PATHEXT: &'static str = ".COM;.EXE;.BAT;.CMD";

// ---------------------------------------------------------------------------
// The extension list
// ---------------------------------------------------------------------------

/// The pieces of `s` between the separators `c`, empty pieces included.
pub open spec fn split_on(s: Seq<char>, c: char) -> Seq<Seq<char>>
    decreases s.len(),
{
    if s.len() == 0 {
        seq![Seq::empty()]
    } else {
        let rest = split_on(s.drop_last(), c);
        if s.last() == c {
            rest.push(Seq::empty())
        } else {
            rest.update(rest.len() - 1, rest.last().push(s.last()))
        }
    }
}

pub proof fn lemma_split_nonempty(s: Seq<char>, c: char)
    ensures
        split_on(s, c).len() >= 1,
    decreases s.len(),
{
    if s.len() > 0 {
        lemma_split_nonempty(s.drop_last(), c);
    }
}

/// `s` without its leading dots.
pub open spec fn strip_dots(s: Seq<char>) -> Seq<char>
    decreases s.len(),
{
    if s.len() > 0 && s[0] == '.' {
        strip_dots(s.drop_first())
    } else {
        s
    }
}

/// The extensions named by a list of pieces: the non-empty ones, in order,
/// each without its leading dots.
pub open spec fn ext_list(pieces: Seq<Seq<char>>) -> Seq<Seq<char>>
    decreases pieces.len(),
{
    if pieces.len() == 0 {
        Seq::empty()
    } else {
        ext_list(pieces.drop_last()) + if pieces.last().len() == 0 {
            Seq::<Seq<char>>::empty()
        } else {
            seq![strip_dots(pieces.last())]
        }
    }
}

/// The extensions a `PATHEXT` value lists, in order.
pub open spec fn pathext_spec(pathext: Seq<char>) -> Seq<Seq<char>> {
    ext_list(split_on(pathext, ';'))
}

/// `s` without its leading dots.
fn without_dots(s: &Vec<char>) -> (r: Vec<char>)
    ensures
        r@ == strip_dots(s@),
{
    let mut i: usize = 0;
    assert(s@.skip(0) =~= s@);
    while i < s.len() && s[i] == '.'
        invariant
            i <= s.len(),
            strip_dots(s@) == strip_dots(s@.skip(i as int)),
        decreases s.len() - i,
    {
        assert(s@.skip(i as int).drop_first() =~= s@.skip(i + 1));
        i += 1;
    }
    let r = crate::text::slice_chars(s, i, s.len());
    assert(r@ =~= s@.skip(i as int));
    r
}

/// The extensions a `PATHEXT` value lists, in order.
pub fn extension_list(pathext: &str) -> (r: Vec<String>)
    ensures
        views(r@) == pathext_spec(pathext@),
{
    let v = chars_of(pathext);
    let mut out: Vec<String> = Vec::new();
    let mut cur: Vec<char> = Vec::new();
    let ghost mut done: Seq<Seq<char>> = Seq::empty();
    let mut i: usize = 0;
    assert(v@.take(0) =~= Seq::<char>::empty());
    assert(views(out@) =~= Seq::<Seq<char>>::empty());
    while i < v.len()
        invariant
            i <= v.len(),
            v@ == pathext@,
            split_on(v@.take(i as int), ';') == done.push(cur@),
            views(out@) == ext_list(done),
        decreases v.len() - i,
    {
        assert(v@.take(i + 1).drop_last() =~= v@.take(i as int));
        assert(v@.take(i + 1).last() == v@[i as int]);
        if v[i] == ';' {
            let ghost piece = cur@;
            if cur.len() > 0 {
                let e = without_dots(&cur);
                let ghost before = views(out@);
                out.push(string_of(&e));
                assert(views(out@) =~= before.push(strip_dots(piece)));
            }
            proof {
                assert(done.push(piece).drop_last() =~= done);
                assert(done.push(piece).last() == piece);
                if piece.len() == 0 {
                    assert(ext_list(done) + Seq::<Seq<char>>::empty() =~= ext_list(done));
                } else {
                    assert(ext_list(done) + seq![strip_dots(piece)] =~= ext_list(done).push(strip_dots(piece)));
                }
                done = done.push(piece);
            }
            cur = Vec::new();
            assert(done.push(cur@) =~= split_on(v@.take(i as int), ';').push(Seq::empty()));
        } else {
            let ghost before = cur@;
            cur.push(v[i]);
            assert(done.push(cur@) =~= done.push(before).update(done.len() as int, before.push(v@[i as int])));
        }
        i += 1;
    }
    assert(v@.take(v.len() as int) =~= v@);
    if cur.len() > 0 {
        let e = without_dots(&cur);
        let ghost before = views(out@);
        out.push(string_of(&e));
        assert(views(out@) =~= before.push(strip_dots(cur@)));
    }
    proof {
        let all = done.push(cur@);
        assert(all.drop_last() =~= done);
        if cur@.len() == 0 {
            assert(ext_list(done) + Seq::<Seq<char>>::empty() =~= ext_list(done));
        } else {
            assert(ext_list(done) + seq![strip_dots(cur@)] =~= ext_list(done).push(strip_dots(cur@)));
        }
    }
    out
}

// ---------------------------------------------------------------------------
// Resolution
// ---------------------------------------------------------------------------

/// Whether a file at `p` runs through the shell (`.cmd`, `.bat`) or directly;
/// `None` when it has no extension, which Windows will not execute.
pub open spec fn kind_of(p: Seq<char>) -> Option<bool> {
    match extension_spec(p) {
        None => None,
        Some(e) => if e.len() == 0 {
            None
        } else {
            Some(lower_ascii_seq(e) == "cmd"@ || lower_ascii_seq(e) == "bat"@)
        },
    }
}

/// The invocation for exactly the path `p`, if a file is there.
pub open spec fn probe_spec<F: Fn(&str) -> bool>(f: F, p: Seq<char>) -> Option<(bool, Seq<char>)> {
    if says(f, p) {
        match kind_of(p) {
            None => None,
            Some(shell) => Some((shell, p)),
        }
    } else {
        None
    }
}

/// The first of `base.ext` over `exts`, in order, that a file is at.
pub open spec fn complete_spec<F: Fn(&str) -> bool>(f: F, base: Seq<char>, exts: Seq<Seq<char>>) -> Option<(bool, Seq<char>)>
    decreases exts.len(),
{
    if exts.len() == 0 {
        None
    } else {
        match probe_spec(f, base + seq!['.'] + exts[0]) {
            Some(x) => Some(x),
            None => complete_spec(f, base, exts.drop_first()),
        }
    }
}

/// A path as given, else completed with an extension.
pub open spec fn at_path_spec<F: Fn(&str) -> bool>(f: F, p: Seq<char>, exts: Seq<Seq<char>>) -> Option<(bool, Seq<char>)> {
    match probe_spec(f, p) {
        Some(x) => Some(x),
        None => complete_spec(f, p, exts),
    }
}

/// The first directory of `dirs`, in order, holding the program.
pub open spec fn search_spec<F: Fn(&str) -> bool>(
    f: F,
    dirs: Seq<Seq<char>>,
    program: Seq<char>,
    exts: Seq<Seq<char>>,
) -> Option<(bool, Seq<char>)>
    decreases dirs.len(),
{
    if dirs.len() == 0 {
        None
    } else {
        match at_path_spec(f, join_spec(dirs[0], program), exts) {
            Some(x) => Some(x),
            None => search_spec(f, dirs.drop_first(), program, exts),
        }
    }
}

/// Whether a program is given as a path rather than a bare name.
pub open spec fn path_like(p: Seq<char>) -> bool {
    exists|i: int| 0 <= i < p.len() && (p[i] == '\\' || p[i] == '/' || p[i] == ':')
}

/// The extensions to complete with: those of `PATHEXT`, else the default.
pub open spec fn exts_for(pathext: Option<Seq<char>>) -> Seq<Seq<char>> {
    match pathext {
        Some(t) => pathext_spec(t),
        None => pathext_spec(DEFAULT_PATHEXT@),
    }
}

/// What resolving a program gives: nothing for an empty name; a path probed
/// as given; a bare name searched for along `dirs`.
pub open spec fn resolve_spec<F: Fn(&str) -> bool>(
    f: F,
    program: Seq<char>,
    dirs: Seq<Seq<char>>,
    exts: Seq<Seq<char>>,
) -> Option<(bool, Seq<char>)> {
    if program.len() == 0 {
        None
    } else if path_like(program) {
        at_path_spec(f, program, exts)
    } else {
        search_spec(f, dirs, program, exts)
    }
}

/// The invocation for exactly the path `p`.
fn probe_at<F: Fn(&str) -> bool>(p: &str, is_file: &F) -> (r: Option<Invocation>)
    requires
        is_path_oracle(*is_file),
    ensures
        opt_inv(r) == probe_spec(*is_file, p@),
{
    if !ask(is_file, p) {
        return None;
    }
    let e = match extension(p) {
        None => {
            return None;
        },
        Some(e) => e,
    };
    let ev = chars_of(e.as_str());
    if ev.len() == 0 {
        return None;
    }
    let low = string_of(&lower_chars(&ev));
    if str_equal(low.as_str(), "cmd") || str_equal(low.as_str(), "bat") {
        Some(Invocation::ViaShell(p.to_owned()))
    } else {
        Some(Invocation::Direct(p.to_owned()))
    }
}

/// `base.ext`.
fn with_ext(base: &str, ext: &str) -> (r: String)
    ensures
        r@ == base@ + seq!['.'] + ext@,
{
    let mut v = chars_of(base);
    v.push('.');
    let mut e = chars_of(ext);
    v.append(&mut e);
    string_of(&v)
}

/// The first completion of `base` with an extension that a file is at.
fn complete<F: Fn(&str) -> bool>(base: &str, exts: &Vec<String>, is_file: &F) -> (r: Option<Invocation>)
    requires
        is_path_oracle(*is_file),
    ensures
        opt_inv(r) == complete_spec(*is_file, base@, views(exts@)),
{
    let ghost es = views(exts@);
    let mut i: usize = 0;
    assert(es.skip(0) =~= es);
    while i < exts.len()
        invariant
            i <= exts.len(),
            es == views(exts@),
            is_path_oracle(*is_file),
            complete_spec(*is_file, base@, es) == complete_spec(*is_file, base@, es.skip(i as int)),
        decreases exts.len() - i,
    {
        assert(es.skip(i as int)[0] == exts@[i as int]@);
        assert(es.skip(i as int).drop_first() =~= es.skip(i + 1));
        let candidate = with_ext(base, exts[i].as_str());
        match probe_at(candidate.as_str(), is_file) {
            Some(found) => {
                return Some(found);
            },
            None => {},
        }
        i += 1;
    }
    None
}

/// A path probed as given, else completed with an extension.
fn at_path<F: Fn(&str) -> bool>(p: &str, exts: &Vec<String>, is_file: &F) -> (r: Option<Invocation>)
    requires
        is_path_oracle(*is_file),
    ensures
        opt_inv(r) == at_path_spec(*is_file, p@, views(exts@)),
{
    match probe_at(p, is_file) {
        Some(found) => Some(found),
        None => complete(p, exts, is_file),
    }
}

/// Whether a program is given as a path.
fn is_path_like(p: &str) -> (r: bool)
    ensures
        r == path_like(p@),
{
    let v = chars_of(p);
    let mut i: usize = 0;
    while i < v.len()
        invariant
            i <= v.len(),
            v@ == p@,
            forall|m: int| 0 <= m < i ==> !(v@[m] == '\\' || v@[m] == '/' || v@[m] == ':'),
        decreases v.len() - i,
    {
        if v[i] == '\\' || v[i] == '/' || v[i] == ':' {
            return true;
        }
        i += 1;
    }
    false
}

/// The extensions to complete with.
fn extensions(pathext: Option<&str>) -> (r: Vec<String>)
    ensures
        views(r@) == exts_for(match pathext {
            Some(t) => Some(t@),
            None => None,
        }),
{
    match pathext {
        Some(t) => extension_list(t),
        None => extension_list(DEFAULT_PATHEXT),
    }
}

/// Searches `dirs` in order for a bare program name.
fn search<F: Fn(&str) -> bool>(program: &str, dirs: &[String], exts: &Vec<String>, is_file: &F) -> (r: Option<Invocation>)
    requires
        is_path_oracle(*is_file),
    ensures
        opt_inv(r) == search_spec(*is_file, views(dirs@), program@, views(exts@)),
{
    let ghost ds = views(dirs@);
    let mut i: usize = 0;
    assert(ds.skip(0) =~= ds);
    while i < dirs.len()
        invariant
            i <= dirs.len(),
            ds == views(dirs@),
            is_path_oracle(*is_file),
            search_spec(*is_file, ds, program@, views(exts@)) == search_spec(*is_file, ds.skip(i as int), program@, views(exts@)),
        decreases dirs.len() - i,
    {
        assert(ds.skip(i as int)[0] == dirs@[i as int]@);
        assert(ds.skip(i as int).drop_first() =~= ds.skip(i + 1));
        let candidate = join_path(dirs[i].as_str(), program);
        match at_path(candidate.as_str(), exts, is_file) {
            Some(found) => {
                return Some(found);
            },
            None => {},
        }
        i += 1;
    }
    None
}

/// Resolves a program name or path, the way a shell would.
///
/// `dirs` are the `PATH` entries in order, `pathext` the `PATHEXT` value if
/// set, and `is_file` answers whether a regular file is at a path. A value
/// with a path separator or a colon is probed as given, completed with each
/// extension if there is nothing there; a bare name is looked for in each
/// directory in turn.
pub fn find_program<F: Fn(&str) -> bool>(program: &str, dirs: &[String], pathext: Option<&str>, is_file: &F) -> (r: Option<Invocation>)
    requires
        is_path_oracle(*is_file),
    ensures
        opt_inv(r) == resolve_spec(
            *is_file,
            program@,
            views(dirs@),
            exts_for(match pathext {
                Some(t) => Some(t@),
                None => None,
            }),
        ),
{
    if chars_of(program).len() == 0 {
        return None;
    }
    let exts = extensions(pathext);
    if is_path_like(program) {
        at_path(program, &exts, is_file)
    } else {
        search(program, dirs, &exts, is_file)
    }
}

// ---------------------------------------------------------------------------
// Remembering bare names
// ---------------------------------------------------------------------------

/// The entry recorded last for `name`.
pub open spec fn cached_in(entries: Seq<(String, Invocation)>, name: Seq<char>) -> Option<(bool, Seq<char>)>
    decreases entries.len(),
{
    if entries.len() == 0 {
        None
    } else if entries.last().0@ == name {
        Some(inv_view(entries.last().1))
    } else {
        cached_in(entries.drop_last(), name)
    }
}

/// The map an entry list stands for.
pub open spec fn cache_map(entries: Seq<(String, Invocation)>) -> Map<Seq<char>, (bool, Seq<char>)> {
    Map::new(|k: Seq<char>| cached_in(entries, k) is Some, |k: Seq<char>| cached_in(entries, k)->0)
}

proof fn lemma_cached_at(entries: Seq<(String, Invocation)>, name: Seq<char>, i: int)
    requires
        0 <= i < entries.len(),
        entries[i].0@ == name,
        forall|m: int| i < m < entries.len() ==> (#[trigger] entries[m]).0@ != name,
    ensures
        cached_in(entries, name) == Some(inv_view(entries[i].1)),
    decreases entries.len(),
{
    if i < entries.len() - 1 {
        lemma_cached_at(entries.drop_last(), name, i);
    }
}

proof fn lemma_cached_none(entries: Seq<(String, Invocation)>, name: Seq<char>)
    requires
        forall|m: int| 0 <= m < entries.len() ==> (#[trigger] entries[m]).0@ != name,
    ensures
        cached_in(entries, name) is None,
    decreases entries.len(),
{
    if entries.len() > 0 {
        lemma_cached_none(entries.drop_last(), name);
    }
}

proof fn lemma_cached_update(entries: Seq<(String, Invocation)>, i: int, e: (String, Invocation), k: Seq<char>)
    requires
        0 <= i < entries.len(),
        entries[i].0@ == e.0@,
        forall|m: int| i < m < entries.len() ==> (#[trigger] entries[m]).0@ != e.0@,
    ensures
        cached_in(entries.update(i, e), k) == (if k == e.0@ {
            Some(inv_view(e.1))
        } else {
            cached_in(entries, k)
        }),
    decreases entries.len(),
{
    if i < entries.len() - 1 {
        assert(entries.update(i, e).drop_last() =~= entries.drop_last().update(i, e));
        lemma_cached_update(entries.drop_last(), i, e, k);
    } else {
        assert(entries.update(i, e).drop_last() =~= entries.drop_last());
    }
}

proof fn lemma_map_insert(
    before: Seq<(String, Invocation)>,
    after: Seq<(String, Invocation)>,
    key: Seq<char>,
    value: (bool, Seq<char>),
)
    requires
        forall|k: Seq<char>| #[trigger] cached_in(after, k) == (if k == key {
            Some(value)
        } else {
            cached_in(before, k)
        }),
    ensures
        cache_map(after) == cache_map(before).insert(key, value),
{
    assert forall|k: Seq<char>| #[trigger] cache_map(after).contains_key(k) == cache_map(before).insert(key, value).contains_key(k) by {
        assert(cached_in(after, k) == (if k == key { Some(value) } else { cached_in(before, k) }));
    }
    assert forall|k: Seq<char>| #[trigger] cache_map(after).contains_key(k) implies cache_map(after)[k] == cache_map(before).insert(key, value)[k] by {
        assert(cached_in(after, k) == (if k == key { Some(value) } else { cached_in(before, k) }));
    }
    assert(cache_map(after) =~= cache_map(before).insert(key, value));
}

/// Bare program names already found, with where they were found.
///
/// Searching every `PATH` directory with every extension is the expensive
/// part of a launch and gives the same answer every time, so a found name is
/// remembered. A remembered path is still checked on every use, so a tool
/// uninstalled since falls back to a fresh search; a miss is never
/// remembered, so a tool installed since is found on the next try.
#[derive(Debug)]
pub struct ProgramCache {
    entries: Vec<(String, Invocation)>,
}

impl View for ProgramCache {
    type V = Map<Seq<char>, (bool, Seq<char>)>;

    closed spec fn view(&self) -> Map<Seq<char>, (bool, Seq<char>)> {
        cache_map(self.entries@)
    }
}

/// What a resolution through the cache gives: an empty name or a path as
/// [`find_program`] does, untouched by the cache; a bare name from the cache
/// when a file is still at the remembered path; else a fresh search, whose
/// hit (never its miss) is remembered.
pub open spec fn cache_outcome<F: Fn(&str) -> bool>(
    r: Option<Invocation>,
    before: Map<Seq<char>, (bool, Seq<char>)>,
    after: Map<Seq<char>, (bool, Seq<char>)>,
    f: F,
    program: Seq<char>,
    dirs: Seq<Seq<char>>,
    exts: Seq<Seq<char>>,
) -> bool {
    if program.len() == 0 || path_like(program) {
        opt_inv(r) == resolve_spec(f, program, dirs, exts) && after == before
    } else if before.contains_key(program) && says(f, before[program].1) {
        opt_inv(r) == Some(before[program]) && after == before
    } else {
        &&& opt_inv(r) == search_spec(f, dirs, program, exts)
        &&& after == match r {
            Some(x) => before.insert(program, inv_view(x)),
            None => before,
        }
    }
}

impl ProgramCache {
    /// A cache that remembers nothing.
    pub fn new() -> (r: ProgramCache)
        ensures
            r@ == Map::<Seq<char>, (bool, Seq<char>)>::empty(),
    {
        let r = ProgramCache { entries: Vec::new() };
        assert(r@ =~= Map::<Seq<char>, (bool, Seq<char>)>::empty());
        r
    }

    /// The position of the entry recorded last for `name`.
    fn position(&self, name: &str) -> (r: Option<usize>)
        ensures
            match r {
                Some(i) => i < self.entries.len() && self.entries@[i as int].0@ == name@ && forall|m: int|
                    i < m < self.entries@.len() ==> (#[trigger] self.entries@[m]).0@ != name@,
                None => forall|m: int| 0 <= m < self.entries@.len() ==> (#[trigger] self.entries@[m]).0@ != name@,
            },
    {
        let mut i: usize = self.entries.len();
        while i > 0
            invariant
                i <= self.entries.len(),
                forall|m: int| i <= m < self.entries@.len() ==> (#[trigger] self.entries@[m]).0@ != name@,
            decreases i,
        {
            if str_equal(self.entries[i - 1].0.as_str(), name) {
                return Some(i - 1);
            }
            i -= 1;
        }
        None
    }

    /// Where `name` was found, if it is remembered.
    pub fn cached(&self, name: &str) -> (r: Option<Invocation>)
        ensures
            opt_inv(r) == (if self@.contains_key(name@) {
                Some(self@[name@])
            } else {
                None
            }),
    {
        match self.position(name) {
            Some(i) => {
                proof {
                    lemma_cached_at(self.entries@, name@, i as int);
                }
                Some(self.entries[i].1.copy())
            },
            None => {
                proof {
                    lemma_cached_none(self.entries@, name@);
                }
                None
            },
        }
    }

    /// Remembers where `name` was found.
    pub fn remember(&mut self, name: &str, found: Invocation)
        ensures
            final(self)@ == old(self)@.insert(name@, inv_view(found)),
    {
        let ghost before = self.entries@;
        let ghost fv = inv_view(found);
        match self.position(name) {
            Some(i) => {
                self.entries.set(i, (name.to_owned(), found));
                proof {
                    assert forall|k: Seq<char>| #[trigger] cached_in(self.entries@, k) == (if k == name@ {
                        Some(fv)
                    } else {
                        cached_in(before, k)
                    }) by {
                        lemma_cached_update(before, i as int, self.entries@[i as int], k);
                    }
                }
            },
            None => {
                self.entries.push((name.to_owned(), found));
                proof {
                    assert forall|k: Seq<char>| #[trigger] cached_in(self.entries@, k) == (if k == name@ {
                        Some(fv)
                    } else {
                        cached_in(before, k)
                    }) by {
                        assert(self.entries@.drop_last() =~= before);
                    }
                }
            },
        }
        proof {
            lemma_map_insert(before, self.entries@, name@, fv);
        }
    }

    /// Resolves a program as [`find_program`] does, remembering bare names.
    pub fn resolve<F: Fn(&str) -> bool>(
        &mut self,
        program: &str,
        dirs: &[String],
        pathext: Option<&str>,
        is_file: &F,
    ) -> (r: Option<Invocation>)
        requires
            is_path_oracle(*is_file),
        ensures
            cache_outcome(
                r,
                old(self)@,
                final(self)@,
                *is_file,
                program@,
                views(dirs@),
                exts_for(match pathext {
                    Some(t) => Some(t@),
                    None => None,
                }),
            ),
    {
        if chars_of(program).len() == 0 || is_path_like(program) {
            return find_program(program, dirs, pathext, is_file);
        }
        match self.cached(program) {
            Some(hit) => {
                if ask(is_file, hit.path()) {
                    return Some(hit);
                }
            },
            None => {},
        }
        let exts = extensions(pathext);
        let found = search(program, dirs, &exts, is_file);
        match &found {
            Some(x) => self.remember(program, x.copy()),
            None => {},
        }
        found
    }
}

} // verus!
