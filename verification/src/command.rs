//! Lifecycle commands and the tiny template language that produces them.
//!
//! Templates support `{var}` substitution and nothing else; `{{` and `}}` are
//! literal braces and an unterminated `{` is kept verbatim.
use vstd::prelude::*;

use crate::error::DeckError;
use crate::path::{extension, extension_spec, file_name, file_name_spec};
use crate::text::{
    chars_of, trim_end, trim_start, is_whitespace, is_ws, lower_ascii_seq, lower_chars, slice_chars, str_equal, string_of,
    trim, trim_chars,
};

verus! {

broadcast use vstd::string::group_string_axioms;

/// The lifecycle steps a runner may implement.
#[derive(Debug, Clone, Copy, PartialEq, Eq, Structural)]
pub enum Lifecycle {
    /// Fetch dependencies.
    Install,
    /// Produce build artefacts.
    Build,
    /// Start the project.
    Run,
    /// Start the project with debug flags.
    Debug,
    /// Remove build artefacts.
    Clean,
    /// Run the project's tests.
    Test,
}

/// Every lifecycle step, in presentation order.
pub open spec fn all_steps() -> Seq<Lifecycle> {
    seq![
        Lifecycle::Install,
        Lifecycle::Build,
        Lifecycle::Run,
        Lifecycle::Debug,
        Lifecycle::Clean,
        Lifecycle::Test,
    ]
}

/// The lower-case name of a step.
pub open spec fn step_name(s: Lifecycle) -> Seq<char> {
    match s {
        Lifecycle::Install => "install"@,
        Lifecycle::Build => "build"@,
        Lifecycle::Run => "run"@,
        Lifecycle::Debug => "debug"@,
        Lifecycle::Clean => "clean"@,
        Lifecycle::Test => "test"@,
    }
}

impl Lifecycle {
    /// Every lifecycle step, in the order a UI should present them.
    pub fn all() -> (r: Vec<Lifecycle>)
        ensures
            r@ == all_steps(),
    {
        let r = vec![
            Lifecycle::Install,
            Lifecycle::Build,
            Lifecycle::Run,
            Lifecycle::Debug,
            Lifecycle::Clean,
            Lifecycle::Test,
        ];
        assert(r@ =~= all_steps());
        r
    }

    /// Whether this step holds a process open rather than completing.
    pub fn is_long_running(self) -> (r: bool)
        ensures
            r <==> (self == Lifecycle::Run || self == Lifecycle::Debug),
    {
        match self {
            Lifecycle::Run | Lifecycle::Debug => true,
            _ => false,
        }
    }

    /// The lower-case name of the step, as displayed and stored.
    pub fn as_str(self) -> (r: &'static str)
        ensures
            r@ == step_name(self),
    {
        match self {
            Lifecycle::Install => "install",
            Lifecycle::Build => "build",
            Lifecycle::Run => "run",
            Lifecycle::Debug => "debug",
            Lifecycle::Clean => "clean",
            Lifecycle::Test => "test",
        }
    }
}

// ---------------------------------------------------------------------------
// Template variables
// ---------------------------------------------------------------------------

/// The value stored for `key` in an entry list: the first entry that names it.
pub open spec fn lookup(entries: Seq<(String, String)>, key: Seq<char>) -> Option<Seq<char>>
    decreases entries.len(),
{
    if entries.len() == 0 {
        None
    } else if entries[0].0@ == key {
        Some(entries[0].1@)
    } else {
        lookup(entries.drop_first(), key)
    }
}

/// The map an entry list stands for.
pub open spec fn entries_view(entries: Seq<(String, String)>) -> Map<Seq<char>, Seq<char>> {
    Map::new(|k: Seq<char>| lookup(entries, k) is Some, |k: Seq<char>| lookup(entries, k)->0)
}

/// Variables available to command templates.
#[derive(Debug, Clone)]
pub struct TemplateVars {
    entries: Vec<(String, String)>,
}

impl View for TemplateVars {
    type V = Map<Seq<char>, Seq<char>>;

    closed spec fn view(&self) -> Map<Seq<char>, Seq<char>> {
        entries_view(self.entries@)
    }
}

pub proof fn lemma_lookup_index(entries: Seq<(String, String)>, key: Seq<char>, i: int)
    requires
        0 <= i < entries.len(),
        entries[i].0@ == key,
        forall|m: int| 0 <= m < i ==> (#[trigger] entries[m]).0@ != key,
    ensures
        lookup(entries, key) == Some(entries[i].1@),
    decreases i,
{
    if i > 0 {
        lemma_lookup_index(entries.drop_first(), key, i - 1);
    }
}

proof fn lemma_lookup_same(a: Seq<(String, String)>, b: Seq<(String, String)>, key: Seq<char>)
    requires
        a.len() == b.len(),
        forall|m: int| 0 <= m < a.len() ==> (#[trigger] a[m]).0@ == b[m].0@ && a[m].1@ == b[m].1@,
    ensures
        lookup(a, key) == lookup(b, key),
    decreases a.len(),
{
    if a.len() > 0 {
        assert forall|m: int| 0 <= m < a.drop_first().len() implies (#[trigger] a.drop_first()[m]).0@
            == b.drop_first()[m].0@ && a.drop_first()[m].1@ == b.drop_first()[m].1@ by {
            assert(a.drop_first()[m] == a[m + 1]);
            assert(b.drop_first()[m] == b[m + 1]);
        }
        lemma_lookup_same(a.drop_first(), b.drop_first(), key);
    }
}

pub proof fn lemma_lookup_none(entries: Seq<(String, String)>, key: Seq<char>)
    requires
        forall|m: int| 0 <= m < entries.len() ==> (#[trigger] entries[m]).0@ != key,
    ensures
        lookup(entries, key) is None,
    decreases entries.len(),
{
    if entries.len() > 0 {
        lemma_lookup_none(entries.drop_first(), key);
    }
}

proof fn lemma_lookup_update(
    entries: Seq<(String, String)>,
    i: int,
    e: (String, String),
    k: Seq<char>,
)
    requires
        0 <= i < entries.len(),
        e.0@ == entries[i].0@,
        forall|m: int| 0 <= m < i ==> (#[trigger] entries[m]).0@ != e.0@,
    ensures
        lookup(entries.update(i, e), k) == (if k == e.0@ {
            Some(e.1@)
        } else {
            lookup(entries, k)
        }),
    decreases i,
{
    if i > 0 {
        assert(entries.update(i, e).drop_first() =~= entries.drop_first().update(i - 1, e));
        assert forall|m: int| 0 <= m < i - 1 implies (#[trigger] entries.drop_first()[m]).0@
            != e.0@ by {
            assert(entries.drop_first()[m] == entries[m + 1]);
        }
        lemma_lookup_update(entries.drop_first(), i - 1, e, k);
        assert(entries[0].0@ != e.0@);
    } else {
        assert(entries.update(i, e).drop_first() =~= entries.drop_first());
    }
}

proof fn lemma_view_insert(
    before: Seq<(String, String)>,
    after: Seq<(String, String)>,
    key: Seq<char>,
    value: Seq<char>,
)
    requires
        forall|k: Seq<char>| #[trigger] lookup(after, k) == (if k == key {
            Some(value)
        } else {
            lookup(before, k)
        }),
    ensures
        entries_view(after) == entries_view(before).insert(key, value),
{
    assert(entries_view(after).dom() =~= entries_view(before).insert(key, value).dom()) by {
        assert forall|k: Seq<char>| entries_view(after).dom().contains(k) == entries_view(before).insert(key, value).dom().contains(k) by {
            assert(lookup(after, k) == (if k == key { Some(value) } else { lookup(before, k) }));
        }
    }
    assert forall|k: Seq<char>| #[trigger] entries_view(after).dom().contains(k) implies entries_view(after)[k] == entries_view(before).insert(key, value)[k] by {
        assert(lookup(after, k) == (if k == key { Some(value) } else { lookup(before, k) }));
    }
    assert(entries_view(after) =~= entries_view(before).insert(key, value));
}

proof fn lemma_lookup_push(entries: Seq<(String, String)>, e: (String, String), key: Seq<char>)
    requires
        lookup(entries, e.0@) is None,
    ensures
        lookup(entries.push(e), key) == (if key == e.0@ {
            Some(e.1@)
        } else {
            lookup(entries, key)
        }),
    decreases entries.len(),
{
    if entries.len() > 0 {
        assert(entries.push(e).drop_first() =~= entries.drop_first().push(e));
        assert(entries[0].0@ != e.0@);
        lemma_lookup_push(entries.drop_first(), e, key);
    } else {
        assert(entries.push(e).drop_first() =~= entries);
        assert(lookup(entries, key) is None);
    }
}

impl TemplateVars {
    /// An empty variable set.
    pub fn new() -> (r: TemplateVars)
        ensures
            r@ == Map::<Seq<char>, Seq<char>>::empty(),
    {
        let r = TemplateVars { entries: Vec::new() };
        assert(r@ =~= Map::<Seq<char>, Seq<char>>::empty());
        r
    }

    /// Inserts or replaces a variable.
    pub fn set(&mut self, key: String, value: String)
        ensures
            final(self)@ == old(self)@.insert(key@, value@),
    {
        let ghost old_entries = self.entries@;
        let mut i: usize = 0;
        while i < self.entries.len()
            invariant
                i <= self.entries.len(),
                self.entries@ == old_entries,
                old(self).entries@ == old_entries,
                forall|m: int| 0 <= m < i ==> (#[trigger] old_entries[m]).0@ != key@,
            decreases self.entries.len() - i,
        {
            if self.entries[i].0 == key {
                let ghost e = (key, value);
                self.entries.set(i, (key, value));
                proof {
                    assert forall|k: Seq<char>| #[trigger] lookup(self.entries@, k) == (if k == key@ {
                        Some(value@)
                    } else {
                        lookup(old_entries, k)
                    }) by {
                        lemma_lookup_update(old_entries, i as int, e, k);
                    }
                    lemma_view_insert(old_entries, self.entries@, key@, value@);
                    assert(old(self)@ == entries_view(old_entries));
                    assert(self@ == entries_view(self.entries@));
                }
                return;
            }
            i += 1;
        }
        proof {
            lemma_lookup_none(old_entries, key@);
        }
        let ghost e = (key, value);
        self.entries.push((key, value));
        proof {
            assert forall|k: Seq<char>| #[trigger] lookup(self.entries@, k) == (if k == key@ {
                Some(value@)
            } else {
                lookup(old_entries, k)
            }) by {
                lemma_lookup_push(old_entries, e, k);
            }
            lemma_view_insert(old_entries, self.entries@, key@, value@);
        }
    }

    /// The same variables.
    pub fn copy(&self) -> (r: TemplateVars)
        ensures
            r@ == self@,
    {
        let mut entries: Vec<(String, String)> = Vec::new();
        let mut i: usize = 0;
        while i < self.entries.len()
            invariant
                i <= self.entries.len(),
                entries@.len() == i,
                forall|m: int| 0 <= m < i ==> (#[trigger] entries@[m]).0@ == self.entries@[m].0@ && entries@[m].1@
                    == self.entries@[m].1@,
            decreases self.entries.len() - i,
        {
            entries.push((self.entries[i].0.clone(), self.entries[i].1.clone()));
            i += 1;
        }
        let r = TemplateVars { entries };
        proof {
            assert forall|k: Seq<char>| #[trigger] lookup(r.entries@, k) == lookup(self.entries@, k) by {
                lemma_lookup_same(r.entries@, self.entries@, k);
            }
            assert(r@ =~= self@);
        }
        r
    }

    /// Looks up a variable.
    pub fn get(&self, key: &str) -> (r: Option<&str>)
        ensures
            r is Some <==> self@.contains_key(key@),
            r matches Some(v) ==> v@ == self@[key@],
    {
        let mut i: usize = 0;
        while i < self.entries.len()
            invariant
                i <= self.entries.len(),
                forall|m: int| 0 <= m < i ==> (#[trigger] self.entries@[m]).0@ != key@,
            decreases self.entries.len() - i,
        {
            if str_equal(self.entries[i].0.as_str(), key) {
                proof {
                    lemma_lookup_index(self.entries@, key@, i as int);
                }
                return Some(self.entries[i].1.as_str());
            }
            i += 1;
        }
        proof {
            lemma_lookup_none(self.entries@, key@);
        }
        None
    }
}


// ---------------------------------------------------------------------------
// Expansion
// ---------------------------------------------------------------------------

/// Position of the first `c` in `s`, or -1 when there is none.
pub open spec fn first_pos(s: Seq<char>, c: char) -> int
    decreases s.len(),
{
    if s.len() == 0 {
        -1
    } else if s[0] == c {
        0
    } else {
        let r = first_pos(s.drop_first(), c);
        if r < 0 {
            -1
        } else {
            r + 1
        }
    }
}

pub proof fn lemma_first_pos(s: Seq<char>, c: char, k: int)
    requires
        0 <= k <= s.len(),
        forall|m: int| 0 <= m < k ==> s[m] != c,
        k < s.len() ==> s[k] == c,
    ensures
        first_pos(s, c) == (if k < s.len() {
            k
        } else {
            -1
        }),
    decreases k,
{
    if k > 0 {
        lemma_first_pos(s.drop_first(), c, k - 1);
    }
}

pub proof fn lemma_first_pos_bounds(s: Seq<char>, c: char)
    ensures
        -1 <= first_pos(s, c) < s.len(),
    decreases s.len(),
{
    if s.len() > 0 {
        lemma_first_pos_bounds(s.drop_first(), c);
    }
}

/// `p` put in front of a successful expansion; an error passes through.
pub open spec fn prefixed(p: Seq<char>, r: Result<Seq<char>, Seq<char>>) -> Result<Seq<char>, Seq<char>> {
    match r {
        Ok(a) => Ok(p + a),
        Err(e) => Err(e),
    }
}

/// What expanding `t` against `vars` yields: the text, or the unknown name.
pub open spec fn expand_spec(vars: Map<Seq<char>, Seq<char>>, t: Seq<char>) -> Result<Seq<char>, Seq<char>>
    decreases t.len(),
{
    if t.len() == 0 {
        Ok(Seq::empty())
    } else if t[0] == '{' && t.len() >= 2 && t[1] == '{' {
        prefixed(seq!['{'], expand_spec(vars, t.skip(2)))
    } else if t[0] == '}' && t.len() >= 2 && t[1] == '}' {
        prefixed(seq!['}'], expand_spec(vars, t.skip(2)))
    } else if t[0] == '{' {
        let rest = t.skip(1);
        let k = first_pos(rest, '}');
        if k < 0 {
            Ok(t)
        } else {
            let key = trim(rest.take(k));
            if vars.contains_key(key) {
                proof {
                    lemma_first_pos_bounds(rest, '}');
                }
                prefixed(vars[key], expand_spec(vars, rest.skip(k + 1)))
            } else {
                Err(key)
            }
        }
    } else {
        prefixed(seq![t[0]], expand_spec(vars, t.skip(1)))
    }
}

/// Whether `s` holds no brace.
pub open spec fn brace_free(s: Seq<char>) -> bool {
    forall|i: int| 0 <= i < s.len() ==> s[i] != '{' && s[i] != '}'
}

proof fn lemma_plain_prefix(vars: Map<Seq<char>, Seq<char>>, x: Seq<char>, rest: Seq<char>)
    requires
        brace_free(x),
    ensures
        expand_spec(vars, x + rest) == prefixed(x, expand_spec(vars, rest)),
    decreases x.len(),
{
    if x.len() > 0 {
        let t = x + rest;
        assert(t[0] == x[0]);
        assert(t.skip(1) =~= x.drop_first() + rest);
        lemma_plain_prefix(vars, x.drop_first(), rest);
        lemma_prefixed_concat(seq![x[0]], x.drop_first(), expand_spec(vars, rest));
        assert(seq![x[0]] + x.drop_first() =~= x);
    } else {
        assert(x + rest =~= rest);
        match expand_spec(vars, rest) {
            Ok(a) => {
                assert(x + a =~= a);
            },
            Err(_) => {},
        }
    }
}

/// A template value goes in verbatim: text without braces around one
/// placeholder expands to that text around the variable's value (the name
/// inside the braces taken trimmed), and text without braces alone expands to
/// itself.
pub proof fn a_value_is_inserted_verbatim(
    vars: Map<Seq<char>, Seq<char>>,
    before: Seq<char>,
    name: Seq<char>,
    after: Seq<char>,
)
    requires
        brace_free(before),
        brace_free(name),
        brace_free(after),
    ensures
        expand_spec(vars, before + after) == Ok::<Seq<char>, Seq<char>>(before + after),
        vars.contains_key(trim(name)) ==> expand_spec(vars, before + seq!['{'] + name + seq!['}'] + after) == Ok::<
            Seq<char>,
            Seq<char>,
        >(before + vars[trim(name)] + after),
        !vars.contains_key(trim(name)) ==> expand_spec(vars, before + seq!['{'] + name + seq!['}'] + after) == Err::<
            Seq<char>,
            Seq<char>,
        >(trim(name)),
{
    assert(brace_free(before + after));
    lemma_plain_prefix(vars, before + after, Seq::empty());
    assert(before + after + Seq::<char>::empty() =~= before + after);
    assert(expand_spec(vars, Seq::<char>::empty()) == Ok::<Seq<char>, Seq<char>>(Seq::empty()));
    assert((before + after) + Seq::<char>::empty() =~= before + after);
    let t = seq!['{'] + name + seq!['}'] + after;
    assert(before + seq!['{'] + name + seq!['}'] + after =~= before + t);
    lemma_plain_prefix(vars, before, t);
    let rest = t.skip(1);
    assert(rest =~= name + seq!['}'] + after);
    assert(t[0] == '{');
    if t.len() >= 2 {
        assert(t[1] != '{') by {
            if name.len() > 0 {
                assert(t[1] == name[0]);
            } else {
                assert(t[1] == '}');
            }
        }
    }
    assert forall|m: int| 0 <= m < name.len() implies rest[m] != '}' by {
        assert(rest[m] == name[m]);
    }
    assert(rest[name.len() as int] == '}');
    lemma_first_pos(rest, '}', name.len() as int);
    assert(rest.take(name.len() as int) =~= name);
    assert(rest.skip(name.len() as int + 1) =~= after);
    lemma_plain_prefix(vars, after, Seq::empty());
    assert(after + Seq::<char>::empty() =~= after);
    if vars.contains_key(trim(name)) {
        lemma_prefixed_concat(before, vars[trim(name)], expand_spec(vars, after));
        assert(before + (vars[trim(name)] + after) =~= before + vars[trim(name)] + after);
        assert(vars[trim(name)] + (after + Seq::<char>::empty()) =~= vars[trim(name)] + after);
    }
}

proof fn lemma_prefixed_concat(p: Seq<char>, q: Seq<char>, r: Result<Seq<char>, Seq<char>>)
    ensures
        prefixed(p, prefixed(q, r)) == prefixed(p + q, r),
{
    match r {
        Ok(a) => {
            assert(p + (q + a) =~= (p + q) + a);
        },
        Err(_) => {},
    }
}

/// Appends the characters of a string to a character buffer.
fn extend_chars(out: &mut Vec<char>, s: &str)
    ensures
        final(out)@ == old(out)@ + s@,
{
    let v = chars_of(s);
    let mut i: usize = 0;
    while i < v.len()
        invariant
            i <= v.len(),
            v@ == s@,
            out@ == old(out)@ + v@.take(i as int),
        decreases v.len() - i,
    {
        out.push(v[i]);
        assert(old(out)@ + v@.take(i + 1) =~= (old(out)@ + v@.take(i as int)).push(v[i as int]));
        i += 1;
    }
    assert(v@.take(v.len() as int) =~= v@);
}

impl TemplateVars {
    /// Expands every `{name}` occurrence in `template`.
    ///
    /// `{{` and `}}` are literal braces, an unterminated `{` is kept verbatim,
    /// and whitespace inside the braces is ignored.
    pub fn expand(&self, template: &str) -> (r: Result<String, DeckError>)
        ensures
            match expand_spec(self@, template@) {
                Ok(text) => r matches Ok(s) && s@ == text,
                Err(name) => r matches Err(DeckError::UnknownTemplateVar { variable }) && variable@ == name,
            },
    {
        let t = chars_of(template);
        let n = t.len();
        let mut out: Vec<char> = Vec::new();
        let mut i: usize = 0;
        proof {
            assert(t@.skip(0) =~= t@);
            match expand_spec(self@, t@) {
                Ok(a) => { assert(Seq::<char>::empty() + a =~= a); },
                Err(_) => {},
            }
        }
        while i < n
            invariant
                n == t.len(),
                t@ == template@,
                i <= n,
                prefixed(out@, expand_spec(self@, t@.skip(i as int))) == expand_spec(self@, t@),
            decreases n - i,
        {
            let ghost rest_i = t@.skip(i as int);
            assert(rest_i[0] == t@[i as int]);
            if t[i] == '{' && i + 1 < n && t[i + 1] == '{' {
                assert(rest_i[1] == t@[i + 1]);
                assert(rest_i.skip(2) =~= t@.skip(i + 2));
                proof { lemma_prefixed_concat(out@, seq!['{'], expand_spec(self@, t@.skip(i + 2))); }
                let ghost o = out@;
                out.push('{');
                assert(out@ =~= o + seq!['{']);
                i += 2;
            } else if t[i] == '}' && i + 1 < n && t[i + 1] == '}' {
                assert(rest_i[1] == t@[i + 1]);
                assert(rest_i.skip(2) =~= t@.skip(i + 2));
                proof { lemma_prefixed_concat(out@, seq!['}'], expand_spec(self@, t@.skip(i + 2))); }
                let ghost o = out@;
                out.push('}');
                assert(out@ =~= o + seq!['}']);
                i += 2;
            } else if t[i] == '{' {
                let ghost inner = rest_i.skip(1);
                let mut j: usize = i + 1;
                while j < n && t[j] != '}'
                    invariant
                        i < j <= n,
                        n == t.len(),
                        inner == t@.skip(i + 1),
                        forall|m: int| i + 1 <= m < j ==> t@[m] != '}',
                    decreases n - j,
                {
                    j += 1;
                }
                proof {
                    assert(rest_i.skip(1) =~= t@.skip(i + 1));
                    assert forall|m: int| 0 <= m < j - (i + 1) implies inner[m] != '}' by {
                        assert(inner[m] == t@[m + i + 1]);
                    }
                    if j < n {
                        assert(inner[j - (i + 1)] == t@[j as int]);
                    }
                    lemma_first_pos(inner, '}', j - (i + 1));
                }
                if j >= n {
                    // Unterminated: the rest is emitted verbatim.
                    let ghost out0 = out@;
                    let mut m: usize = i;
                    while m < n
                        invariant
                            i <= m <= n,
                            n == t.len(),
                            out@ == out0 + t@.subrange(i as int, m as int),
                        decreases n - m,
                    {
                        out.push(t[m]);
                        assert(out0 + t@.subrange(i as int, m + 1) =~= (out0 + t@.subrange(i as int, m as int)).push(t@[m as int]));
                        m += 1;
                    }
                    assert(t@.subrange(i as int, n as int) =~= rest_i);
                    assert(t@.skip(n as int) =~= Seq::<char>::empty());
                    assert(out@ + Seq::<char>::empty() =~= out@);
                    i = n;
                } else {
                    let name = slice_chars(&t, i + 1, j);
                    let key_chars = trim_chars(&name);
                    let key = string_of(&key_chars);
                    proof {
                        assert(name@ =~= inner.take(j - (i + 1)));
                    }
                    match self.get(key.as_str()) {
                        None => {
                            return Err(DeckError::UnknownTemplateVar { variable: key });
                        },
                        Some(value) => {
                            proof {
                                assert(inner.skip(j - i) =~= t@.skip(j + 1));
                                lemma_prefixed_concat(out@, value@, expand_spec(self@, t@.skip(j + 1)));
                            }
                            extend_chars(&mut out, value);
                            i = j + 1;
                        },
                    }
                }
            } else {
                assert(rest_i.skip(1) =~= t@.skip(i + 1));
                proof { lemma_prefixed_concat(out@, seq![t@[i as int]], expand_spec(self@, t@.skip(i + 1))); }
                let ghost o = out@;
                out.push(t[i]);
                assert(out@ =~= o + seq![t@[i as int]]);
                i += 1;
            }
        }
        assert(t@.skip(n as int) =~= Seq::<char>::empty());
        assert(out@ + Seq::<char>::empty() =~= out@);
        Ok(string_of(&out))
    }
}


// ---------------------------------------------------------------------------
// Command specs
// ---------------------------------------------------------------------------

/// The views of a list of strings.
pub open spec fn views(v: Seq<String>) -> Seq<Seq<char>> {
    v.map_values(|s: String| s@)
}

/// How a lifecycle step is invoked: always a program plus an argument
/// vector, never a string handed to a shell.
#[derive(Debug, Clone)]
pub enum CommandSpec {
    /// Run a program directly with the given arguments.
    Exec { program: String, args: Vec<String> },
    /// Delegate to a script, run by the interpreter its extension names.
    Script { path: String, args: Vec<String> },
}

/// A command with every template resolved.
#[derive(Debug, Clone)]
pub struct ResolvedCommand {
    /// Program to launch.
    pub program: String,
    /// Fully-resolved arguments.
    pub args: Vec<String>,
}

/// Every template in `args` expanded in order; the first failure wins.
pub open spec fn expand_all(vars: Map<Seq<char>, Seq<char>>, args: Seq<Seq<char>>) -> Result<Seq<Seq<char>>, Seq<char>>
    decreases args.len(),
{
    if args.len() == 0 {
        Ok(Seq::empty())
    } else {
        match expand_spec(vars, args[0]) {
            Err(e) => Err(e),
            Ok(a) => match expand_all(vars, args.drop_first()) {
                Err(e) => Err(e),
                Ok(rest) => Ok(seq![a] + rest),
            },
        }
    }
}

/// The interpreter for a script and the arguments that precede its path.
pub open spec fn script_host_spec(script: Seq<char>) -> (Seq<char>, Seq<Seq<char>>) {
    let ext = match extension_spec(script) {
        Some(e) => lower_ascii_seq(e),
        None => Seq::empty(),
    };
    if ext == "ps1"@ {
        (
            "powershell.exe"@,
            seq!["-NoProfile"@, "-NonInteractive"@, "-ExecutionPolicy"@, "Bypass"@, "-File"@],
        )
    } else if ext == "cmd"@ || ext == "bat"@ {
        ("cmd.exe"@, seq!["/c"@])
    } else if ext == "sh"@ || ext == "bash"@ {
        ("bash"@, Seq::empty())
    } else if ext == "py"@ {
        ("python"@, Seq::empty())
    } else if ext == "js"@ || ext == "mjs"@ || ext == "cjs"@ {
        ("node"@, Seq::empty())
    } else {
        (script, Seq::empty())
    }
}

/// What resolving a spec gives: program and arguments, or the unknown name.
pub open spec fn resolve_spec(spec: CommandSpec, vars: Map<Seq<char>, Seq<char>>) -> Result<(Seq<char>, Seq<Seq<char>>), Seq<char>> {
    match spec {
        CommandSpec::Exec { program, args } => match expand_spec(vars, program@) {
            Err(e) => Err(e),
            Ok(p) => match expand_all(vars, views(args@)) {
                Err(e) => Err(e),
                Ok(a) => Ok((p, a)),
            },
        },
        CommandSpec::Script { path, args } => match expand_spec(vars, path@) {
            Err(e) => Err(e),
            Ok(s) => match expand_all(vars, views(args@)) {
                Err(e) => Err(e),
                Ok(a) => Ok((script_host_spec(s).0, script_host_spec(s).1.push(s) + a)),
            },
        },
    }
}

/// Whether the file name of `path` has the extension `ext`, in any case.
pub open spec fn extension_is(path: Seq<char>, ext: Seq<char>) -> bool {
    extension_spec(path) matches Some(e) && lower_ascii_seq(e) == ext
}

/// A script runs under the interpreter its extension names, whatever the
/// case of the extension, with the expanded path as the first argument after
/// the interpreter's own flags and before the expanded arguments: `ps1` under
/// `powershell.exe -NoProfile -NonInteractive -ExecutionPolicy Bypass -File`,
/// `cmd` and `bat` under `cmd.exe /c`, `sh` and `bash` under `bash`, `py`
/// under `python`, `js`, `mjs` and `cjs` under `node`. A script with no
/// extension runs as a program of its own.
pub proof fn a_script_runs_under_the_interpreter_its_extension_names(
    path: String,
    args: Vec<String>,
    vars: Map<Seq<char>, Seq<char>>,
)
    ensures
        expand_spec(vars, path@) matches Ok(s) ==> expand_all(vars, views(args@)) matches Ok(a) ==> {
            let r = resolve_spec(CommandSpec::Script { path, args }, vars);
            &&& extension_is(s, "ps1"@) ==> r == Ok::<(Seq<char>, Seq<Seq<char>>), Seq<char>>((
                "powershell.exe"@,
                seq!["-NoProfile"@, "-NonInteractive"@, "-ExecutionPolicy"@, "Bypass"@, "-File"@, s] + a,
            ))
            &&& extension_is(s, "cmd"@) || extension_is(s, "bat"@) ==> r == Ok::<
                (Seq<char>, Seq<Seq<char>>),
                Seq<char>,
            >(("cmd.exe"@, seq!["/c"@, s] + a))
            &&& extension_is(s, "sh"@) || extension_is(s, "bash"@) ==> r == Ok::<
                (Seq<char>, Seq<Seq<char>>),
                Seq<char>,
            >(("bash"@, seq![s] + a))
            &&& extension_is(s, "py"@) ==> r == Ok::<(Seq<char>, Seq<Seq<char>>), Seq<char>>(("python"@, seq![s] + a))
            &&& extension_is(s, "js"@) || extension_is(s, "mjs"@) || extension_is(s, "cjs"@) ==> r == Ok::<
                (Seq<char>, Seq<Seq<char>>),
                Seq<char>,
            >(("node"@, seq![s] + a))
            &&& extension_spec(s) is None ==> r == Ok::<(Seq<char>, Seq<Seq<char>>), Seq<char>>((s, seq![s] + a))
        },
{
    reveal_strlit("ps1");
    reveal_strlit("cmd");
    reveal_strlit("bat");
    reveal_strlit("sh");
    reveal_strlit("bash");
    reveal_strlit("py");
    reveal_strlit("js");
    reveal_strlit("mjs");
    reveal_strlit("cjs");
    assert("ps1"@.len() == 3 && "ps1"@[0] == 'p' && "ps1"@[1] == 's');
    assert("cmd"@.len() == 3 && "cmd"@[0] == 'c' && "cmd"@[1] == 'm');
    assert("bat"@.len() == 3 && "bat"@[0] == 'b' && "bat"@[1] == 'a');
    assert("sh"@.len() == 2 && "sh"@[0] == 's' && "sh"@[1] == 'h');
    assert("bash"@.len() == 4 && "bash"@[0] == 'b' && "bash"@[1] == 'a');
    assert("py"@.len() == 2 && "py"@[0] == 'p' && "py"@[1] == 'y');
    assert("js"@.len() == 2 && "js"@[0] == 'j' && "js"@[1] == 's');
    assert("mjs"@.len() == 3 && "mjs"@[0] == 'm' && "mjs"@[1] == 'j');
    assert("cjs"@.len() == 3 && "cjs"@[0] == 'c' && "cjs"@[1] == 'j');
    if expand_spec(vars, path@) is Ok && expand_all(vars, views(args@)) is Ok {
        let s = expand_spec(vars, path@)->Ok_0;
        let a = expand_all(vars, views(args@))->Ok_0;
        let pre = script_host_spec(s).1;
        assert(pre.push(s) + a =~= pre + (seq![s] + a));
        assert(seq!["-NoProfile"@, "-NonInteractive"@, "-ExecutionPolicy"@, "Bypass"@, "-File"@] + (seq![s] + a)
            =~= seq!["-NoProfile"@, "-NonInteractive"@, "-ExecutionPolicy"@, "Bypass"@, "-File"@, s] + a);
        assert(seq!["/c"@] + (seq![s] + a) =~= seq!["/c"@, s] + a);
        assert(Seq::<Seq<char>>::empty() + (seq![s] + a) =~= seq![s] + a);
    }
}

fn strs(list: &[&str]) -> (r: Vec<String>)
    ensures
        views(r@) == list@.map_values(|s: &str| s@),
{
    let mut r: Vec<String> = Vec::new();
    let mut i: usize = 0;
    while i < list.len()
        invariant
            i <= list.len(),
            views(r@) == list@.take(i as int).map_values(|s: &str| s@),
        decreases list.len() - i,
    {
        let ghost before = views(r@);
        let item = list[i].to_owned();
        r.push(item);
        assert(views(r@) =~= before.push(list@[i as int]@));
        assert(list@.take(i + 1).map_values(|s: &str| s@) =~= list@.take(i as int).map_values(|s: &str| s@).push(list@[i as int]@));
        i += 1;
    }
    assert(list@.take(list.len() as int) =~= list@);
    r
}

/// Chooses an interpreter for a script based on its extension.
fn script_host(script: &str) -> (r: (String, Vec<String>))
    ensures
        r.0@ == script_host_spec(script@).0,
        views(r.1@) == script_host_spec(script@).1,
{
    let ext: String = match extension(script) {
        Some(e) => {
            let v = chars_of(e.as_str());
            string_of(&lower_chars(&v))
        },
        None => String::new(),
    };
    let e = ext.as_str();
    if str_equal(e, "ps1") {
        let pre = strs(&["-NoProfile", "-NonInteractive", "-ExecutionPolicy", "Bypass", "-File"]);
        proof {
            assert(views(pre@) =~= seq!["-NoProfile"@, "-NonInteractive"@, "-ExecutionPolicy"@, "Bypass"@, "-File"@]);
        }
        ("powershell.exe".to_owned(), pre)
    } else if str_equal(e, "cmd") || str_equal(e, "bat") {
        let pre = strs(&["/c"]);
        assert(views(pre@) =~= seq!["/c"@]);
        ("cmd.exe".to_owned(), pre)
    } else if str_equal(e, "sh") || str_equal(e, "bash") {
        let pre: Vec<String> = Vec::new();
        assert(views(pre@) =~= Seq::<Seq<char>>::empty());
        ("bash".to_owned(), pre)
    } else if str_equal(e, "py") {
        let pre: Vec<String> = Vec::new();
        assert(views(pre@) =~= Seq::<Seq<char>>::empty());
        ("python".to_owned(), pre)
    } else if str_equal(e, "js") || str_equal(e, "mjs") || str_equal(e, "cjs") {
        let pre: Vec<String> = Vec::new();
        assert(views(pre@) =~= Seq::<Seq<char>>::empty());
        ("node".to_owned(), pre)
    } else {
        let pre: Vec<String> = Vec::new();
        assert(views(pre@) =~= Seq::<Seq<char>>::empty());
        (script.to_owned(), pre)
    }
}

impl TemplateVars {
    /// Expands each template in `args` and appends the results to `out`.
    fn expand_into(&self, args: &Vec<String>, out: &mut Vec<String>) -> (r: Result<(), DeckError>)
        ensures
            match expand_all(self@, views(args@)) {
                Ok(a) => r is Ok && views(final(out)@) == views(old(out)@) + a,
                Err(name) => r matches Err(DeckError::UnknownTemplateVar { variable }) && variable@ == name,
            },
    {
        let ghost start = views(out@);
        let ghost all = views(args@);
        let mut i: usize = 0;
        assert(all.skip(0) =~= all);
        proof {
            match expand_all(self@, all) {
                Ok(a) => { assert(start + a =~= start + a); },
                Err(_) => {},
            }
        }
        while i < args.len()
            invariant
                i <= args.len(),
                all == views(args@),
                match expand_all(self@, all) {
                    Ok(a) => expand_all(self@, all.skip(i as int)) matches Ok(b) && start + a == views(out@) + b,
                    Err(e) => expand_all(self@, all.skip(i as int)) == Err::<Seq<Seq<char>>, Seq<char>>(e),
                },
            decreases args.len() - i,
        {
            let ghost rest = all.skip(i as int);
            assert(rest[0] == args@[i as int]@);
            assert(rest.drop_first() =~= all.skip(i + 1));
            let x = self.expand(args[i].as_str())?;
            let ghost o = views(out@);
            out.push(x);
            proof {
                assert(views(out@) =~= o.push(x@));
                match expand_all(self@, all) {
                    Ok(a) => {
                        let b = expand_all(self@, rest)->Ok_0;
                        let b2 = expand_all(self@, all.skip(i + 1))->Ok_0;
                        assert(b == seq![x@] + b2);
                        assert(o + b =~= o.push(x@) + b2);
                    },
                    Err(_) => {},
                }
            }
            i += 1;
        }
        assert(all.skip(args.len() as int) =~= Seq::<Seq<char>>::empty());
        proof {
            match expand_all(self@, all) {
                Ok(a) => { assert(views(out@) + Seq::<Seq<char>>::empty() =~= views(out@)); },
                Err(_) => {},
            }
        }
        Ok(())
    }
}

impl CommandSpec {
    /// Builds an `Exec` spec from a program and an argument list.
    pub fn exec(program: &str, args: &[&str]) -> (r: CommandSpec)
        ensures
            r matches CommandSpec::Exec { program: p, args: a } && p@ == program@ && views(a@)
                == args@.map_values(|s: &str| s@),
    {
        CommandSpec::Exec { program: program.to_owned(), args: strs(args) }
    }

    /// Resolves every template in the spec against `vars`.
    ///
    /// Fails with `UnknownTemplateVar` naming the first variable (program or
    /// path first, then the arguments in order) that `vars` lacks.
    pub fn resolve(&self, vars: &TemplateVars) -> (r: Result<ResolvedCommand, DeckError>)
        ensures
            match resolve_spec(*self, vars@) {
                Ok((p, a)) => r matches Ok(c) && c.program@ == p && views(c.args@) == a,
                Err(name) => r matches Err(DeckError::UnknownTemplateVar { variable }) && variable@ == name,
            },
    {
        match self {
            CommandSpec::Exec { program, args } => {
                let p = vars.expand(program.as_str())?;
                let mut out: Vec<String> = Vec::new();
                assert(views(out@) =~= Seq::<Seq<char>>::empty());
                vars.expand_into(args, &mut out)?;
                proof {
                    match expand_all(vars@, views(args@)) {
                        Ok(a) => { assert(Seq::<Seq<char>>::empty() + a =~= a); },
                        Err(_) => {},
                    }
                }
                Ok(ResolvedCommand { program: p, args: out })
            },
            CommandSpec::Script { path, args } => {
                let script = vars.expand(path.as_str())?;
                let (program, mut prefix) = script_host(script.as_str());
                let ghost pre = views(prefix@);
                prefix.push(script);
                assert(views(prefix@) =~= pre.push(script@));
                vars.expand_into(args, &mut prefix)?;
                Ok(ResolvedCommand { program, args: prefix })
            },
        }
    }
}


// ---------------------------------------------------------------------------
// Display and parsing
// ---------------------------------------------------------------------------

/// Whether `s` holds a whitespace character.
pub open spec fn has_ws(s: Seq<char>) -> bool {
    exists|i: int| 0 <= i < s.len() && is_ws(#[trigger] s[i])
}

/// `s` as the display form writes it: quoted when empty or when it holds
/// whitespace, verbatim otherwise.
pub open spec fn quoted(s: Seq<char>) -> Seq<char> {
    if s.len() == 0 {
        seq!['"', '"']
    } else if has_ws(s) {
        seq!['"'] + s + seq!['"']
    } else {
        s
    }
}

/// Each argument preceded by a space, in its display form.
pub open spec fn joined(args: Seq<Seq<char>>) -> Seq<char>
    decreases args.len(),
{
    if args.len() == 0 {
        Seq::empty()
    } else {
        seq![' '] + quoted(args[0]) + joined(args.drop_first())
    }
}

/// The display form of a command.
pub open spec fn display_spec(program: Seq<char>, args: Seq<Seq<char>>) -> Seq<char> {
    quoted(program) + joined(args)
}

fn quote_if_needed(s: &str) -> (r: Vec<char>)
    ensures
        r@ == quoted(s@),
{
    let v = chars_of(s);
    if v.len() == 0 {
        let r = vec!['"', '"'];
        assert(r@ =~= seq!['"', '"']);
        return r;
    }
    let mut i: usize = 0;
    while i < v.len()
        invariant
            i <= v.len(),
            v@ == s@,
            forall|k: int| 0 <= k < i ==> !is_ws(#[trigger] v@[k]),
        decreases v.len() - i,
    {
        if is_whitespace(v[i]) {
            let mut r: Vec<char> = vec!['"'];
            let mut k: usize = 0;
            while k < v.len()
                invariant
                    k <= v.len(),
                    r@ == seq!['"'] + v@.take(k as int),
                decreases v.len() - k,
            {
                r.push(v[k]);
                assert(seq!['"'] + v@.take(k + 1) =~= (seq!['"'] + v@.take(k as int)).push(v@[k as int]));
                k += 1;
            }
            r.push('"');
            assert(v@.take(v.len() as int) =~= v@);
            assert(r@ =~= seq!['"'] + s@ + seq!['"']);
            return r;
        }
        i += 1;
    }
    v
}

fn push_all(out: &mut Vec<char>, v: &[char])
    ensures
        final(out)@ == old(out)@ + v@,
{
    let mut i: usize = 0;
    while i < v.len()
        invariant
            i <= v.len(),
            out@ == old(out)@ + v@.take(i as int),
        decreases v.len() - i,
    {
        out.push(v[i]);
        assert(old(out)@ + v@.take(i + 1) =~= (old(out)@ + v@.take(i as int)).push(v@[i as int]));
        i += 1;
    }
    assert(v@.take(v.len() as int) =~= v@);
}

impl ResolvedCommand {
    /// The command the way a user would type it, quoting only what needs
    /// quoting. Display only: [`parse_command_line`] reads it back.
    pub fn to_string(&self) -> (r: String)
        ensures
            r@ == display_spec(self.program@, views(self.args@)),
    {
        let mut out = quote_if_needed(self.program.as_str());
        let ghost all = views(self.args@);
        let mut i: usize = 0;
        assert(all.skip(0) =~= all);
        while i < self.args.len()
            invariant
                i <= self.args.len(),
                all == views(self.args@),
                out@ + joined(all.skip(i as int)) == display_spec(self.program@, all),
            decreases self.args.len() - i,
        {
            let ghost o = out@;
            let q = quote_if_needed(self.args[i].as_str());
            out.push(' ');
            push_all(&mut out, &q);
            proof {
                let rest = all.skip(i as int);
                assert(rest[0] == self.args@[i as int]@);
                assert(rest.drop_first() =~= all.skip(i + 1));
                assert(o + joined(rest) =~= o + seq![' '] + q@ + joined(all.skip(i + 1)));
                assert(out@ =~= o + seq![' '] + q@);
            }
            i += 1;
        }
        assert(all.skip(self.args.len() as int) =~= Seq::<Seq<char>>::empty());
        assert(out@ + Seq::<char>::empty() =~= out@);
        string_of(&out)
    }
}

/// The tokenizer state: finished parts, the current token, whether inside
/// quotes, and whether a token has started.
pub type LexState = (Seq<Seq<char>>, Seq<char>, bool, bool);

/// One character of input fed to the tokenizer.
pub open spec fn lex_step(st: LexState, ch: char) -> LexState {
    if ch == '"' {
        (st.0, st.1, !st.2, true)
    } else if is_ws(ch) && !st.2 {
        if st.3 {
            (st.0.push(st.1), Seq::empty(), st.2, false)
        } else {
            st
        }
    } else {
        (st.0, st.1.push(ch), st.2, true)
    }
}

/// The tokenizer run over `s` from `st`.
pub open spec fn lex_run(st: LexState, s: Seq<char>) -> LexState
    decreases s.len(),
{
    if s.len() == 0 {
        st
    } else {
        lex_run(lex_step(st, s[0]), s.drop_first())
    }
}

/// The starting state of the tokenizer.
pub open spec fn lex_init() -> LexState {
    (Seq::empty(), Seq::empty(), false, false)
}

/// The tokens of a line.
pub open spec fn lex_parts(s: Seq<char>) -> Seq<Seq<char>> {
    let st = lex_run(lex_init(), s);
    if st.3 {
        st.0.push(st.1)
    } else {
        st.0
    }
}

/// What parsing a line gives: program and arguments, or nothing for a line
/// with no program.
pub open spec fn parse_spec(input: Seq<char>) -> Option<(Seq<char>, Seq<Seq<char>>)> {
    let parts = lex_parts(trim(input));
    if parts.len() == 0 || parts[0].len() == 0 {
        None
    } else {
        Some((parts[0], parts.drop_first()))
    }
}

/// Parses a user-typed command line into a program and argument vector.
///
/// Double quotes group words; shell operators are ordinary characters.
/// Returns `None` for an empty or whitespace-only line.
pub fn parse_command_line(input: &str) -> (r: Option<ResolvedCommand>)
    ensures
        match parse_spec(input@) {
            None => r is None,
            Some((p, a)) => r matches Some(c) && c.program@ == p && views(c.args@) == a,
        },
{
    let raw = chars_of(input);
    let t = trim_chars(&raw);
    let mut parts: Vec<String> = Vec::new();
    let mut current: Vec<char> = Vec::new();
    let mut in_quotes = false;
    let mut saw_token = false;
    let mut i: usize = 0;
    assert(t@.skip(0) =~= t@);
    assert(views(parts@) =~= Seq::<Seq<char>>::empty());
    while i < t.len()
        invariant
            i <= t.len(),
            t@ == trim(input@),
            lex_run((views(parts@), current@, in_quotes, saw_token), t@.skip(i as int)) == lex_run(lex_init(), t@),
        decreases t.len() - i,
    {
        let ch = t[i];
        let ghost st = (views(parts@), current@, in_quotes, saw_token);
        proof {
            let rest = t@.skip(i as int);
            assert(rest[0] == ch);
            assert(rest.drop_first() =~= t@.skip(i + 1));
        }
        if ch == '"' {
            in_quotes = !in_quotes;
            saw_token = true;
        } else if is_whitespace(ch) && !in_quotes {
            if saw_token {
                let tok = string_of(&current);
                parts.push(tok);
                current = Vec::new();
                saw_token = false;
                assert(views(parts@) =~= st.0.push(st.1));
                assert(current@ =~= Seq::<char>::empty());
            }
        } else {
            current.push(ch);
            saw_token = true;
        }
        assert((views(parts@), current@, in_quotes, saw_token) == lex_step(st, ch));
        i += 1;
    }
    assert(t@.skip(t.len() as int) =~= Seq::<char>::empty());
    if saw_token {
        let ghost before = views(parts@);
        let tok = string_of(&current);
        parts.push(tok);
        assert(views(parts@) =~= before.push(current@));
    }
    if parts.len() == 0 {
        return None;
    }
    let program = parts.remove(0);
    assert(views(parts@) =~= lex_parts(t@).drop_first());
    if program.as_str().is_empty() {
        return None;
    }
    Some(ResolvedCommand { program, args: parts })
}


/// Whether `s` holds no double quote.
pub open spec fn no_quote(s: Seq<char>) -> bool {
    forall|k: int| 0 <= k < s.len() ==> s[k] != '"'
}

proof fn lemma_lex_concat(st: LexState, a: Seq<char>, b: Seq<char>)
    ensures
        lex_run(st, a + b) == lex_run(lex_run(st, a), b),
    decreases a.len(),
{
    if a.len() == 0 {
        assert(a + b =~= b);
    } else {
        assert((a + b).drop_first() =~= a.drop_first() + b);
        assert((a + b)[0] == a[0]);
        lemma_lex_concat(lex_step(st, a[0]), a.drop_first(), b);
    }
}

proof fn lemma_lex_one(st: LexState, c: char)
    ensures
        lex_run(st, seq![c]) == lex_step(st, c),
{
    assert(seq![c].drop_first() =~= Seq::<char>::empty());
    assert(seq![c][0] == c);
    assert(lex_run(lex_step(st, c), Seq::<char>::empty()) == lex_step(st, c));
}

proof fn lemma_lex_plain(st: LexState, s: Seq<char>)
    requires
        forall|k: int| 0 <= k < s.len() ==> s[k] != '"' && (st.2 || !is_ws(s[k])),
    ensures
        lex_run(st, s) == (st.0, st.1 + s, st.2, st.3 || s.len() > 0),
    decreases s.len(),
{
    if s.len() == 0 {
        assert(st.1 + s =~= st.1);
    } else {
        let st2 = lex_step(st, s[0]);
        assert(st2 == (st.0, st.1.push(s[0]), st.2, true));
        assert forall|k: int| 0 <= k < s.drop_first().len() implies s.drop_first()[k] != '"' && (
        st2.2 || !is_ws(s.drop_first()[k])) by {
            assert(s.drop_first()[k] == s[k + 1]);
        }
        lemma_lex_plain(st2, s.drop_first());
        assert(st.1.push(s[0]) + s.drop_first() =~= st.1 + s);
    }
}

proof fn lemma_lex_token(parts: Seq<Seq<char>>, x: Seq<char>)
    requires
        no_quote(x),
    ensures
        lex_run((parts, Seq::empty(), false, false), quoted(x)) == (parts, x, false, true),
{
    let st: LexState = (parts, Seq::empty(), false, false);
    if x.len() == 0 {
        let q = seq!['"', '"'];
        assert(q =~= seq!['"'] + seq!['"']);
        lemma_lex_concat(st, seq!['"'], seq!['"']);
        lemma_lex_one(st, '"');
        lemma_lex_one(lex_step(st, '"'), '"');
        assert(Seq::<char>::empty() =~= x);
    } else if has_ws(x) {
        let open = seq!['"'];
        lemma_lex_concat(st, open + x, seq!['"']);
        lemma_lex_concat(st, open, x);
        lemma_lex_one(st, '"');
        let st1 = lex_run(st, open);
        assert(st1 == (parts, Seq::<char>::empty(), true, true));
        lemma_lex_plain(st1, x);
        assert(Seq::<char>::empty() + x =~= x);
        lemma_lex_one(lex_run(st, open + x), '"');
    } else {
        assert forall|k: int| 0 <= k < x.len() implies x[k] != '"' && (st.2 || !is_ws(x[k])) by {
            if is_ws(x[k]) {
                assert(has_ws(x));
            }
        }
        lemma_lex_plain(st, x);
        assert(Seq::<char>::empty() + x =~= x);
    }
}

proof fn lemma_lex_args(parts: Seq<Seq<char>>, x: Seq<char>, args: Seq<Seq<char>>)
    requires
        forall|i: int| 0 <= i < args.len() ==> no_quote(#[trigger] args[i]),
    ensures
        lex_run((parts, x, false, true), joined(args)) == (
            parts + (seq![x] + args).drop_last(),
            (seq![x] + args).last(),
            false,
            true,
        ),
    decreases args.len(),
{
    let all = seq![x] + args;
    if args.len() == 0 {
        assert(all.drop_last() =~= Seq::<Seq<char>>::empty());
        assert(parts + all.drop_last() =~= parts);
    } else {
        let a0 = args[0];
        let rest = args.drop_first();
        let st: LexState = (parts, x, false, true);
        lemma_lex_concat(st, seq![' '] + quoted(a0), joined(rest));
        lemma_lex_concat(st, seq![' '], quoted(a0));
        lemma_lex_one(st, ' ');
        assert(is_ws(' '));
        let st1 = lex_run(st, seq![' ']);
        assert(st1 == (parts.push(x), Seq::<char>::empty(), false, false));
        lemma_lex_token(parts.push(x), a0);
        assert forall|i: int| 0 <= i < rest.len() implies no_quote(#[trigger] rest[i]) by {
            assert(rest[i] == args[i + 1]);
        }
        lemma_lex_args(parts.push(x), a0, rest);
        let all2 = seq![a0] + rest;
        assert(all =~= seq![x] + all2);
        assert(parts.push(x) + all2.drop_last() =~= parts + all.drop_last());
        assert(all2.last() == all.last());
    }
}

proof fn lemma_joined_last(args: Seq<Seq<char>>)
    requires
        args.len() > 0,
    ensures
        joined(args).len() > 0,
        !is_ws(joined(args).last()),
    decreases args.len(),
{
    let a0 = args[0];
    let rest = args.drop_first();
    if rest.len() == 0 {
        assert(joined(rest) =~= Seq::<char>::empty());
        assert(joined(args) =~= seq![' '] + quoted(a0));
        if a0.len() > 0 && !has_ws(a0) {
            assert(!is_ws(a0[a0.len() - 1]));
        }
    } else {
        lemma_joined_last(rest);
        assert(joined(args) =~= (seq![' '] + quoted(a0)) + joined(rest));
    }
}

/// Displaying a command and parsing the text back gives the same command,
/// for every command whose program is non-empty and whose program and
/// arguments hold no double quote.
pub proof fn display_then_parse_round_trips(program: Seq<char>, args: Seq<Seq<char>>)
    requires
        program.len() > 0,
        no_quote(program),
        forall|i: int| 0 <= i < args.len() ==> no_quote(#[trigger] args[i]),
    ensures
        parse_spec(display_spec(program, args)) == Some((program, args)),
{
    let d = display_spec(program, args);
    let q = quoted(program);
    // The display form begins and ends with non-whitespace, so trimming
    // leaves it unchanged.
    assert(q.len() > 0);
    if !has_ws(program) {
        assert(!is_ws(program[0]));
        assert(!is_ws(program[program.len() - 1]));
    }
    assert(d[0] == q[0]);
    assert(!is_ws(d[0]));
    assert(trim_start(d) == d);
    if args.len() == 0 {
        assert(joined(args) =~= Seq::<char>::empty());
        assert(d =~= q);
    } else {
        lemma_joined_last(args);
        assert(d.last() == joined(args).last());
    }
    assert(!is_ws(d.last()));
    assert(trim_end(d) == d);
    assert(trim(d) == d);
    // Tokenizing: the program, then each argument.
    lemma_lex_concat(lex_init(), q, joined(args));
    lemma_lex_token(Seq::empty(), program);
    lemma_lex_args(Seq::empty(), program, args);
    let all = seq![program] + args;
    assert(Seq::<Seq<char>>::empty() + all.drop_last() =~= all.drop_last());
    assert(all.drop_last().push(all.last()) =~= all);
    assert(lex_parts(d) == all);
    assert(all[0] == program);
    assert(all.drop_first() =~= args);
}


/// The standard variables every runner can rely on.
pub open spec fn project_vars(root: Seq<char>, name: Seq<char>) -> Map<Seq<char>, Seq<char>> {
    let base = Map::<Seq<char>, Seq<char>>::empty().insert("projectRoot"@, root).insert("projectName"@, name);
    match file_name_spec(root) {
        Some(dir) => base.insert("dirName"@, dir),
        None => base,
    }
}

impl TemplateVars {
    /// Seeds `projectRoot`, `projectName` and, when the root has a final
    /// component, `dirName`.
    pub fn with_project(root: &str, name: &str) -> (r: TemplateVars)
        ensures
            r@ == project_vars(root@, name@),
    {
        let mut vars = TemplateVars::new();
        vars.set("projectRoot".to_owned(), root.to_owned());
        vars.set("projectName".to_owned(), name.to_owned());
        let rv = chars_of(root);
        match file_name(&rv) {
            Some(dir) => vars.set("dirName".to_owned(), string_of(&dir)),
            None => {},
        }
        vars
    }
}

} // verus!
