//! What detection rules may read from a project directory.
//!
//! A [`ProjectProbe`] answers questions about one directory: which paths
//! exist, what a directory lists, what a file says. Structured files are
//! parsed here, from the text the probe hands back.
use vstd::prelude::*;

use crate::command::{lemma_lookup_index, lemma_lookup_none, lookup, views};
use crate::path::is_sep;
use crate::text::{chars_of, string_of};

verus! {

broadcast use vstd::string::group_string_axioms;

/// Most bytes of one file that a probe over a live directory reads: a
/// manifest pointing a rule at a multi-gigabyte artefact costs a bounded
/// read, not a stalled scan.
pub const MAX_READ_BYTES: usize = 262144;

/// Read access to one project directory. Paths are relative to its root.
pub trait ProjectProbe {
    /// Whether `rel` exists, as a file or a directory. These four describe
    /// the directory a probe reads; a probe that leaves them unspecified
    /// (one over a live directory) promises nothing through them.
    closed spec fn present(&self, rel: Seq<char>) -> bool {
        vstd::pervasive::arbitrary()
    }

    /// Whether `rel` exists and is a directory.
    closed spec fn has_dir(&self, rel: Seq<char>) -> bool {
        vstd::pervasive::arbitrary()
    }

    /// The file names listed in the root (`None`) or in a subdirectory.
    closed spec fn listing(&self, dir: Option<Seq<char>>) -> Seq<Seq<char>> {
        vstd::pervasive::arbitrary()
    }

    /// The text of a file, when it exists and can be read.
    closed spec fn contents(&self, rel: Seq<char>) -> Option<Seq<char>> {
        vstd::pervasive::arbitrary()
    }

    /// Whether `rel` exists.
    fn has_path(&self, rel: &str) -> (r: bool)
        ensures
            r == self.present(rel@),
    ;

    /// Whether `rel` is a directory.
    fn is_dir(&self, rel: &str) -> (r: bool)
        ensures
            r == self.has_dir(rel@),
    ;

    /// The names directly inside the root.
    fn root_entries(&self) -> (r: Vec<String>)
        ensures
            views(r@) == self.listing(None),
    ;

    /// The file names directly inside `dir`.
    fn entries_in(&self, dir: &str) -> (r: Vec<String>)
        ensures
            views(r@) == self.listing(Some(dir@)),
    ;

    /// The text of `rel`.
    fn text(&self, rel: &str) -> (r: Option<String>)
        ensures
            match self.contents(rel@) {
                None => r is None,
                Some(t) => r matches Some(s) && s@ == t,
            },
    ;
}

/// The view of an optional string.
pub open spec fn opt_str(o: Option<String>) -> Option<Seq<char>> {
    match o {
        Some(s) => Some(s@),
        None => None,
    }
}

/// Whether the entry `name`, listed in `dir` (the root when `None`), may be
/// offered as a file: in a subdirectory it must be one, since a folder named
/// like `app.exe` cannot be launched; root entries are taken as listed.
pub open spec fn listed_file<P: ProjectProbe>(p: &P, dir: Option<Seq<char>>, name: Seq<char>) -> bool {
    match dir {
        None => true,
        Some(d) => p.present(d + seq!['/'] + name) && !p.has_dir(d + seq!['/'] + name),
    }
}

/// Whether the entry `name` listed in `dir` may be offered as a file.
pub fn is_listed_file<P: ProjectProbe>(probe: &P, dir: &Option<String>, name: &str) -> (r: bool)
    ensures
        r == listed_file(probe, opt_str(*dir), name@),
{
    match dir {
        None => true,
        Some(d) => {
            let mut v = chars_of(d.as_str());
            v.push('/');
            let mut n = chars_of(name);
            v.append(&mut n);
            let path = string_of(&v);
            assert(path@ =~= d@ + seq!['/'] + name@);
            probe.has_path(path.as_str()) && !probe.is_dir(path.as_str())
        },
    }
}

// ---------------------------------------------------------------------------
// Staying inside the project
// ---------------------------------------------------------------------------

/// The non-empty components of `s[i..]` split at separators, given the
/// characters `cur` of the component being read.
pub open spec fn parts_from(s: Seq<char>, i: int, cur: Seq<char>) -> Seq<Seq<char>>
    decreases s.len() - i,
{
    if i < 0 || i >= s.len() {
        if cur.len() == 0 {
            Seq::empty()
        } else {
            seq![cur]
        }
    } else if is_sep(s[i]) {
        (if cur.len() == 0 {
            Seq::empty()
        } else {
            seq![cur]
        }) + parts_from(s, i + 1, Seq::empty())
    } else {
        parts_from(s, i + 1, cur.push(s[i]))
    }
}

/// Whether walking `parts` from `depth` levels below the root ever climbs
/// above it: `..` goes up, `.` stays, anything else goes down.
pub open spec fn climbs_out(parts: Seq<Seq<char>>, depth: int) -> bool
    decreases parts.len(),
{
    if parts.len() == 0 {
        false
    } else if parts[0] == ".."@ {
        depth - 1 < 0 || climbs_out(parts.drop_first(), depth - 1)
    } else if parts[0] == "."@ {
        climbs_out(parts.drop_first(), depth)
    } else {
        climbs_out(parts.drop_first(), depth + 1)
    }
}

/// Whether a path names a root or a drive: it starts with a separator, or
/// with an ASCII letter and a colon.
pub open spec fn rooted(p: Seq<char>) -> bool {
    ||| p.len() > 0 && is_sep(p[0])
    ||| p.len() >= 2 && p[1] == ':' && (('a' <= p[0] && p[0] <= 'z') || ('A' <= p[0] && p[0] <= 'Z'))
}

/// Whether a manifest-relative path stays inside the project root.
pub open spec fn inside(p: Seq<char>) -> bool {
    !rooted(p) && !climbs_out(parts_from(p, 0, Seq::empty()), 0)
}

/// The components of `v`.
fn parts_of(v: &[char]) -> (r: Vec<String>)
    ensures
        views(r@) == parts_from(v@, 0, Seq::empty()),
{
    let mut out: Vec<String> = Vec::new();
    let mut cur: Vec<char> = Vec::new();
    let mut i: usize = 0;
    while i < v.len()
        invariant
            i <= v.len(),
            parts_from(v@, 0, Seq::empty()) == views(out@) + parts_from(v@, i as int, cur@),
        decreases v.len() - i,
    {
        if v[i] == '/' || v[i] == '\\' {
            let ghost before = views(out@);
            if cur.len() > 0 {
                out.push(string_of(&cur));
                assert(views(out@) =~= before + seq![cur@]);
            } else {
                assert(views(out@) =~= before + Seq::<Seq<char>>::empty());
            }
            assert(before + ((if cur@.len() == 0 { Seq::empty() } else { seq![cur@] }) + parts_from(v@, i + 1, Seq::empty())) =~= views(out@) + parts_from(v@, i + 1, Seq::empty()));
            cur = Vec::new();
        } else {
            cur.push(v[i]);
        }
        i += 1;
    }
    let ghost before = views(out@);
    if cur.len() > 0 {
        out.push(string_of(&cur));
        assert(views(out@) =~= before + seq![cur@]);
    } else {
        assert(views(out@) =~= before + Seq::<Seq<char>>::empty());
    }
    out
}

/// Whether a manifest-relative path stays inside the project root.
///
/// A manifest is user-supplied data: `../../Windows/System32` in a rule must
/// not turn detection into a probe of the whole machine. Absolute paths,
/// drive-qualified paths and any `..` that climbs above the root are refused.
pub fn stays_inside(rel: &str) -> (r: bool)
    ensures
        r == inside(rel@),
{
    let v = chars_of(rel);
    if v.len() > 0 && (v[0] == '/' || v[0] == '\\') {
        return false;
    }
    if v.len() >= 2 && v[1] == ':' && (('a' <= v[0] && v[0] <= 'z') || ('A' <= v[0] && v[0] <= 'Z')) {
        return false;
    }
    let parts = parts_of(&v);
    let ghost ps = views(parts@);
    let mut depth: usize = 0;
    let mut i: usize = 0;
    assert(ps.skip(0) =~= ps);
    while i < parts.len()
        invariant
            i <= parts.len(),
            ps == views(parts@),
            ps == parts_from(rel@, 0, Seq::empty()),
            !rooted(rel@),
            depth <= i,
            climbs_out(ps, 0) == climbs_out(ps.skip(i as int), depth as int),
        decreases parts.len() - i,
    {
        let ghost rest = ps.skip(i as int);
        assert(rest[0] == parts@[i as int]@);
        assert(rest.drop_first() =~= ps.skip(i + 1));
        let p = parts[i].as_str();
        if crate::text::str_equal(p, "..") {
            if depth == 0 {
                return false;
            }
            depth -= 1;
        } else if !crate::text::str_equal(p, ".") {
            depth += 1;
        }
        i += 1;
    }
    assert(ps.skip(i as int) =~= Seq::<Seq<char>>::empty());
    true
}

// ---------------------------------------------------------------------------
// Structured files
// ---------------------------------------------------------------------------

/// What an RFC 6901 pointer finds in a JSON document: `None` when the text
/// does not parse or has no such key; otherwise the kind of value (0 a
/// string, 1 a number, 2 a boolean, 3 null, an array or an object) with the
/// string itself, or the number or boolean as text (empty for kind 3).
pub uninterp spec fn json_value_at(text: Seq<char>, pointer: Seq<char>) -> Option<(int, Seq<char>)>;

/// The scalar found along a key path in a TOML document, in the same shape as
/// [`json_value_at`].
pub uninterp spec fn toml_value_at(text: Seq<char>, keys: Seq<Seq<char>>) -> Option<Option<Seq<char>>>;

/// The views of an optional optional string.
pub open spec fn opt_opt_view(r: Option<Option<String>>) -> Option<Option<Seq<char>>> {
    match r {
        None => None,
        Some(None) => Some(None),
        Some(Some(s)) => Some(Some(s@)),
    }
}

/// Parses `text` with `serde_json::from_str` and looks `pointer` up with
/// `Value::pointer`, reporting the kind of value found with a string as is
/// and a number or boolean as its display text. The contract names the
/// result `json_value_at` and claims nothing of JSON's grammar.
#[verifier::external_body]
pub(crate) fn json_at(text: &str, pointer: &str) -> (r: Option<(u8, String)>)
    ensures
        match r {
            None => json_value_at(text@, pointer@) is None,
            Some((k, s)) => json_value_at(text@, pointer@) == Some((k as int, s@)),
        },
{
    let doc: serde_json::Value = serde_json::from_str(text).ok()?;
    doc.pointer(pointer).map(|v| match v {
        serde_json::Value::String(s) => (0, s.clone()),
        serde_json::Value::Number(n) => (1, n.to_string()),
        serde_json::Value::Bool(b) => (2, b.to_string()),
        serde_json::Value::Null | serde_json::Value::Array(_) | serde_json::Value::Object(_) => (3, String::new()),
    })
}

/// Parses `text` with `toml::from_str` into a `toml::Value` and follows `keys`
/// with `Value::get`; a string is returned as is, any other scalar as its
/// display text. The contract names the result `toml_value_at` and claims
/// nothing of TOML's grammar.
#[verifier::external_body]
pub(crate) fn toml_at(text: &str, keys: &Vec<String>) -> (r: Option<Option<String>>)
    ensures
        opt_opt_view(r) == toml_value_at(text@, views(keys@)),
{
    let doc: toml::Value = toml::from_str(text).ok()?;
    let found = keys.iter().try_fold(&doc, |cursor, key| cursor.get(key.as_str()))?;
    Some(match found {
        toml::Value::String(s) => Some(s.clone()),
        toml::Value::Integer(i) => Some(i.to_string()),
        toml::Value::Float(f) => Some(f.to_string()),
        toml::Value::Boolean(b) => Some(b.to_string()),
        toml::Value::Datetime(d) => Some(d.to_string()),
        toml::Value::Array(_) | toml::Value::Table(_) => None,
    })
}

/// The string a TOML document holds along `keys`, when the text parses and
/// the value there is a string.
pub uninterp spec fn toml_str_of(text: Seq<char>, keys: Seq<Seq<char>>) -> Option<Seq<char>>;

/// Parses `text` with `toml::from_str`, follows `keys` with `Value::get` and
/// reads what it finds with `Value::as_str`. The contract names the result
/// `toml_str_of`.
#[verifier::external_body]
pub(crate) fn toml_str_at(text: &str, keys: &Vec<String>) -> (r: Option<String>)
    ensures
        opt_str(r) == toml_str_of(text@, views(keys@)),
{
    let doc: toml::Value = toml::from_str(text).ok()?;
    let found = keys.iter().try_fold(&doc, |cursor, key| cursor.get(key.as_str()))?;
    found.as_str().map(str::to_owned)
}

/// The views of a list of optional strings.
pub open spec fn opt_views(v: Seq<Option<String>>) -> Seq<Option<Seq<char>>> {
    v.map_values(|o: Option<String>| match o {
        Some(s) => Some(s@),
        None => None,
    })
}

/// What a TOML document holds at `keys` when that is an array: each item's
/// text when it is a string. `None` when the text does not parse, a key is
/// missing, or the value is not an array.
pub uninterp spec fn toml_strs_of(text: Seq<char>, keys: Seq<Seq<char>>) -> Option<Seq<Option<Seq<char>>>>;

/// Parses `text` with `toml::from_str`, follows `keys` with `Value::get`,
/// and hands back each item of the array found there as `Value::as_str`
/// gives it. The contract names the result `toml_strs_of`.
#[verifier::external_body]
pub(crate) fn toml_strs(text: &str, keys: &Vec<String>) -> (r: Option<Vec<Option<String>>>)
    ensures
        match toml_strs_of(text@, views(keys@)) {
            None => r is None,
            Some(v) => r matches Some(x) && opt_views(x@) == v,
        },
{
    let doc: toml::Value = toml::from_str(text).ok()?;
    let found = keys.iter().try_fold(&doc, |cursor, key| cursor.get(key.as_str()))?;
    Some(found.as_array()?.iter().map(|item| item.as_str().map(str::to_owned)).collect())
}

/// What a TOML document holds at `keys` when that is an array: for each
/// item, the text of its `field` when that is a string. `None` when the text
/// does not parse, a key is missing, or the value is not an array.
pub uninterp spec fn toml_field_strs_of(text: Seq<char>, keys: Seq<Seq<char>>, field: Seq<char>) -> Option<Seq<Option<Seq<char>>>>;

/// Parses `text` with `toml::from_str`, follows `keys` with `Value::get`,
/// and hands back, for each item of the array found there, its `field` as
/// `Value::get` and `Value::as_str` give it. The contract names the result
/// `toml_field_strs_of`.
#[verifier::external_body]
pub(crate) fn toml_field_strs(text: &str, keys: &Vec<String>, field: &str) -> (r: Option<Vec<Option<String>>>)
    ensures
        match toml_field_strs_of(text@, views(keys@), field@) {
            None => r is None,
            Some(v) => r matches Some(x) && opt_views(x@) == v,
        },
{
    let doc: toml::Value = toml::from_str(text).ok()?;
    let found = keys.iter().try_fold(&doc, |cursor, key| cursor.get(key.as_str()))?;
    Some(found.as_array()?.iter().map(|item| item.get(field).and_then(|v| v.as_str()).map(str::to_owned)).collect())
}

/// The unsigned integer a JSON text holds at `pointer`, when it parses and
/// the value there is one that fits a `u64`.
pub uninterp spec fn json_u64_of(text: Seq<char>, pointer: Seq<char>) -> Option<u64>;

/// Parses `text` with `serde_json::from_str`, looks `pointer` up with
/// `Value::pointer` and reads it with `Value::as_u64`. The contract names
/// the result `json_u64_of`.
#[verifier::external_body]
pub(crate) fn json_u64_at(text: &str, pointer: &str) -> (r: Option<u64>)
    ensures
        r == json_u64_of(text@, pointer@),
{
    let doc: serde_json::Value = serde_json::from_str(text).ok()?;
    doc.pointer(pointer)?.as_u64()
}

/// The length of the array a JSON text holds at `pointer`, when it parses
/// and the value there is an array.
pub uninterp spec fn json_len_of(text: Seq<char>, pointer: Seq<char>) -> Option<usize>;

/// Parses `text` with `serde_json::from_str`, looks `pointer` up with
/// `Value::pointer` and takes the length of `Value::as_array`. The contract
/// names the result `json_len_of`.
#[verifier::external_body]
pub(crate) fn json_len_at(text: &str, pointer: &str) -> (r: Option<usize>)
    ensures
        r == json_len_of(text@, pointer@),
{
    let doc: serde_json::Value = serde_json::from_str(text).ok()?;
    Some(doc.pointer(pointer)?.as_array()?.len())
}

/// For a JSON text whose top level is an object: for each member, in the
/// order the parsed map keeps them, its `field` when that is an unsigned
/// integer that fits a `u64`.
pub uninterp spec fn json_member_u64s_of(text: Seq<char>, field: Seq<char>) -> Option<Seq<Option<u64>>>;

/// Parses `text` with `serde_json::from_str`, takes `Value::as_object`, and
/// reads each member's `field` with `Value::get` and `Value::as_u64`. The
/// contract names the result `json_member_u64s_of`.
#[verifier::external_body]
pub(crate) fn json_member_u64s(text: &str, field: &str) -> (r: Option<Vec<Option<u64>>>)
    ensures
        match json_member_u64s_of(text@, field@) {
            None => r is None,
            Some(v) => r matches Some(x) && x@ == v,
        },
{
    let doc: serde_json::Value = serde_json::from_str(text).ok()?;
    Some(doc.as_object()?.values().map(|member| member.get(field).and_then(|v| v.as_u64())).collect())
}

/// The views of a list of names with optional strings.
pub open spec fn member_views(v: Seq<(String, Option<String>)>) -> Seq<(Seq<char>, Option<Seq<char>>)> {
    v.map_values(|m: (String, Option<String>)| (m.0@, match m.1 {
        Some(s) => Some(s@),
        None => None,
    }))
}

/// For a JSON text whose top level holds an object under `field`: each
/// member's name, in the order the parsed map keeps them, with its value when
/// that is a string. `None` when the text does not parse or `field` does not
/// hold an object.
pub uninterp spec fn json_str_members_of(text: Seq<char>, field: Seq<char>) -> Option<Seq<(Seq<char>, Option<Seq<char>>)>>;

/// Parses `text` with `serde_json::from_str`, takes `field` with
/// `Value::get` and `Value::as_object`, and hands back each member's name
/// with its value as `Value::as_str` gives it. The contract names the result
/// `json_str_members_of`.
#[verifier::external_body]
pub(crate) fn json_str_members(text: &str, field: &str) -> (r: Option<Vec<(String, Option<String>)>>)
    ensures
        match json_str_members_of(text@, field@) {
            None => r is None,
            Some(v) => r matches Some(x) && member_views(x@) == v,
        },
{
    let doc: serde_json::Value = serde_json::from_str(text).ok()?;
    Some(doc.get(field)?.as_object()?.iter().map(|(k, v)| (k.clone(), v.as_str().map(str::to_owned))).collect())
}

/// Why a JSON text fails to parse, or `None` when it parses.
pub uninterp spec fn json_error_of(text: Seq<char>) -> Option<Seq<char>>;

/// Parses `text` with `serde_json::from_str` and hands back the error's
/// display text when parsing fails. The contract names the result
/// `json_error_of` and claims nothing of JSON's grammar.
#[verifier::external_body]
fn json_error(text: &str) -> (r: Option<String>)
    ensures
        match json_error_of(text@) {
            None => r is None,
            Some(m) => r matches Some(s) && s@ == m,
        },
{
    serde_json::from_str::<serde_json::Value>(text).err().map(|e| e.to_string())
}

/// Why the JSON file `rel` fails to parse, if it exists and does.
///
/// A syntactically broken `package.json` should not silently read as "not a
/// Node project"; this lets the caller report the real problem.
pub fn json_parse_error<P: ProjectProbe>(probe: &P, rel: &str) -> (r: Option<String>)
    ensures
        match text_inside(probe, rel@) {
            None => r is None,
            Some(t) => match json_error_of(t) {
                None => r is None,
                Some(m) => r matches Some(s) && s@ == m,
            },
        },
{
    match read_text(probe, rel) {
        None => None,
        Some(t) => json_error(t.as_str()),
    }
}

/// Why a TOML text fails to parse, or `None` when it parses.
pub uninterp spec fn toml_error_of(text: Seq<char>) -> Option<Seq<char>>;

/// Parses `text` with `toml::from_str` into a `toml::Value` and hands back
/// the error's display text when parsing fails. The contract names the
/// result `toml_error_of` and claims nothing of TOML's grammar.
#[verifier::external_body]
fn toml_error(text: &str) -> (r: Option<String>)
    ensures
        opt_str(r) == toml_error_of(text@),
{
    toml::from_str::<toml::Value>(text).err().map(|e| e.to_string())
}

/// Why the TOML file `rel` fails to parse, if it exists and does.
pub fn toml_parse_error<P: ProjectProbe>(probe: &P, rel: &str) -> (r: Option<String>)
    ensures
        opt_str(r) == match text_inside(probe, rel@) {
            None => None,
            Some(t) => toml_error_of(t),
        },
{
    match read_text(probe, rel) {
        None => None,
        Some(t) => toml_error(t.as_str()),
    }
}

/// Why a structured file failed to parse, for the forms it was read as:
/// the JSON error when it was read as JSON and does not parse as JSON;
/// otherwise the TOML error when it was read as TOML; otherwise none.
pub open spec fn parse_error_spec<P: ProjectProbe>(p: &P, rel: Seq<char>, as_json: bool, as_toml: bool) -> Option<
    Seq<char>,
> {
    match text_inside(p, rel) {
        None => None,
        Some(t) => if as_json && json_error_of(t) is Some {
            json_error_of(t)
        } else if as_toml {
            toml_error_of(t)
        } else {
            None
        },
    }
}

/// Why a structured file failed to parse, if it did, so the caller can say
/// "your package.json has a trailing comma on line 12" instead of "unknown
/// project type". `as_json` and `as_toml` say which forms detection read the
/// file as; a form it was not read as is not reported.
pub fn parse_error<P: ProjectProbe>(probe: &P, rel: &str, as_json: bool, as_toml: bool) -> (r: Option<String>)
    ensures
        opt_str(r) == parse_error_spec(probe, rel@, as_json, as_toml),
{
    if as_json {
        let j = json_parse_error(probe, rel);
        if j.is_some() {
            return j;
        }
    }
    if as_toml {
        toml_parse_error(probe, rel)
    } else {
        None
    }
}

/// A readable key path as an RFC 6901 pointer: a leading `/` is optional in
/// manifests, so one is added when missing.
pub open spec fn pointer_spec(p: Seq<char>) -> Seq<char> {
    if p.len() == 0 || p[0] == '/' {
        p
    } else {
        seq!['/'] + p
    }
}

/// Normalises a readable key path into an RFC 6901 pointer.
pub fn normalise_pointer(pointer: &str) -> (r: String)
    ensures
        r@ == pointer_spec(pointer@),
{
    let v = chars_of(pointer);
    if v.len() == 0 || v[0] == '/' {
        return string_of(&v);
    }
    let mut out: Vec<char> = vec!['/'];
    let mut i: usize = 0;
    while i < v.len()
        invariant
            i <= v.len(),
            out@ == seq!['/'] + v@.take(i as int),
        decreases v.len() - i,
    {
        out.push(v[i]);
        assert(seq!['/'] + v@.take(i + 1) =~= (seq!['/'] + v@.take(i as int)).push(v@[i as int]));
        i += 1;
    }
    assert(v@.take(v.len() as int) =~= v@);
    string_of(&out)
}

/// The dotted key path split into its non-empty keys.
pub open spec fn keys_from(s: Seq<char>, i: int, cur: Seq<char>) -> Seq<Seq<char>>
    decreases s.len() - i,
{
    if i < 0 || i >= s.len() {
        if cur.len() == 0 {
            Seq::empty()
        } else {
            seq![cur]
        }
    } else if s[i] == '.' {
        (if cur.len() == 0 {
            Seq::empty()
        } else {
            seq![cur]
        }) + keys_from(s, i + 1, Seq::empty())
    } else {
        keys_from(s, i + 1, cur.push(s[i]))
    }
}

/// The keys of a dotted TOML path, empty segments dropped.
fn dotted_keys(path: &str) -> (r: Vec<String>)
    ensures
        views(r@) == keys_from(path@, 0, Seq::empty()),
{
    let v = chars_of(path);
    let mut out: Vec<String> = Vec::new();
    let mut cur: Vec<char> = Vec::new();
    let mut i: usize = 0;
    while i < v.len()
        invariant
            i <= v.len(),
            v@ == path@,
            keys_from(v@, 0, Seq::empty()) == views(out@) + keys_from(v@, i as int, cur@),
        decreases v.len() - i,
    {
        if v[i] == '.' {
            let ghost before = views(out@);
            if cur.len() > 0 {
                out.push(string_of(&cur));
                assert(views(out@) =~= before + seq![cur@]);
            } else {
                assert(views(out@) =~= before + Seq::<Seq<char>>::empty());
            }
            assert(before + ((if cur@.len() == 0 { Seq::empty() } else { seq![cur@] }) + keys_from(v@, i + 1, Seq::empty())) =~= views(out@) + keys_from(v@, i + 1, Seq::empty()));
            cur = Vec::new();
        } else {
            cur.push(v[i]);
        }
        i += 1;
    }
    let ghost before = views(out@);
    if cur.len() > 0 {
        out.push(string_of(&cur));
        assert(views(out@) =~= before + seq![cur@]);
    } else {
        assert(views(out@) =~= before + Seq::<Seq<char>>::empty());
    }
    out
}

/// The text of `rel` when it stays inside the root.
pub open spec fn text_inside<P: ProjectProbe>(p: &P, rel: Seq<char>) -> Option<Seq<char>> {
    if inside(rel) {
        p.contents(rel)
    } else {
        None
    }
}

/// The value at `pointer` in the JSON file `rel`, in the shape of [`json_value_at`].
pub open spec fn json_lookup<P: ProjectProbe>(p: &P, rel: Seq<char>, pointer: Seq<char>) -> Option<(int, Seq<char>)> {
    match text_inside(p, rel) {
        None => None,
        Some(t) => json_value_at(t, pointer_spec(pointer)),
    }
}

/// The scalar at the dotted `path` in the TOML file `rel`.
pub open spec fn toml_lookup<P: ProjectProbe>(p: &P, rel: Seq<char>, path: Seq<char>) -> Option<Option<Seq<char>>> {
    match text_inside(p, rel) {
        None => None,
        Some(t) => toml_value_at(t, keys_from(path, 0, Seq::empty())),
    }
}

/// The text of `rel`, refusing paths that leave the root.
pub fn read_text<P: ProjectProbe>(probe: &P, rel: &str) -> (r: Option<String>)
    ensures
        match text_inside(probe, rel@) {
            None => r is None,
            Some(t) => r matches Some(s) && s@ == t,
        },
{
    if !stays_inside(rel) {
        return None;
    }
    probe.text(rel)
}

/// Looks up an RFC 6901 pointer (leading `/` optional) in a JSON file.
pub fn json_pointer<P: ProjectProbe>(probe: &P, rel: &str, pointer: &str) -> (r: Option<(u8, String)>)
    ensures
        match r {
            None => json_lookup(probe, rel@, pointer@) is None,
            Some((k, s)) => json_lookup(probe, rel@, pointer@) == Some((k as int, s@)),
        },
{
    match read_text(probe, rel) {
        None => None,
        Some(t) => {
            let p = normalise_pointer(pointer);
            json_at(t.as_str(), p.as_str())
        },
    }
}

/// Looks up a dotted key path in a TOML file.
pub fn toml_path<P: ProjectProbe>(probe: &P, rel: &str, path: &str) -> (r: Option<Option<String>>)
    ensures
        opt_opt_view(r) == toml_lookup(probe, rel@, path@),
{
    match read_text(probe, rel) {
        None => None,
        Some(t) => {
            let keys = dotted_keys(path);
            toml_at(t.as_str(), &keys)
        },
    }
}


// ---------------------------------------------------------------------------
// A project held in memory
// ---------------------------------------------------------------------------

/// A project directory held in memory: files with their text, directories,
/// and the names each directory lists (the root under the empty path).
#[derive(Debug, Clone)]
pub struct MemoryProject {
    /// Files, by path relative to the root, with their text.
    pub files: Vec<(String, String)>,
    /// Directories, by path relative to the root.
    pub dirs: Vec<String>,
    /// What each directory lists; the first entry for a path is used.
    pub listings: Vec<(String, Vec<String>)>,
}

/// The names listed for `dir` in `listings`: the first entry naming it.
pub open spec fn listed_under(listings: Seq<(String, Vec<String>)>, dir: Seq<char>) -> Seq<Seq<char>>
    decreases listings.len(),
{
    if listings.len() == 0 {
        Seq::empty()
    } else if listings[0].0@ == dir {
        views(listings[0].1@)
    } else {
        listed_under(listings.drop_first(), dir)
    }
}

/// Copies of the given strings.
pub(crate) fn copy_strings(v: &Vec<String>) -> (r: Vec<String>)
    ensures
        views(r@) == views(v@),
{
    let mut r: Vec<String> = Vec::new();
    let mut i: usize = 0;
    while i < v.len()
        invariant
            i <= v.len(),
            views(r@) == views(v@).take(i as int),
        decreases v.len() - i,
    {
        let ghost before = views(r@);
        r.push(v[i].clone());
        assert(views(r@) =~= before.push(v@[i as int]@));
        assert(views(v@).take(i + 1) =~= views(v@).take(i as int).push(v@[i as int]@));
        i += 1;
    }
    assert(views(v@).take(v.len() as int) =~= views(v@));
    r
}

impl MemoryProject {
    /// The names listed for `dir`.
    fn names_for(&self, dir: &str) -> (r: Vec<String>)
        ensures
            views(r@) == listed_under(self.listings@, dir@),
    {
        let mut i: usize = 0;
        assert(self.listings@.skip(0) =~= self.listings@);
        while i < self.listings.len()
            invariant
                i <= self.listings.len(),
                listed_under(self.listings@.skip(i as int), dir@) == listed_under(self.listings@, dir@),
            decreases self.listings.len() - i,
        {
            assert(self.listings@.skip(i as int)[0] == self.listings@[i as int]);
            assert(self.listings@.skip(i as int).drop_first() =~= self.listings@.skip(i + 1));
            if crate::text::str_equal(self.listings[i].0.as_str(), dir) {
                return copy_strings(&self.listings[i].1);
            }
            i += 1;
        }
        Vec::new()
    }
}

impl ProjectProbe for MemoryProject {
    open spec fn present(&self, rel: Seq<char>) -> bool {
        lookup(self.files@, rel) is Some || exists|i: int| 0 <= i < self.dirs@.len() && #[trigger] self.dirs@[i]@ == rel
    }

    open spec fn has_dir(&self, rel: Seq<char>) -> bool {
        exists|i: int| 0 <= i < self.dirs@.len() && #[trigger] self.dirs@[i]@ == rel
    }

    open spec fn listing(&self, dir: Option<Seq<char>>) -> Seq<Seq<char>> {
        listed_under(
            self.listings@,
            match dir {
                None => Seq::empty(),
                Some(d) => d,
            },
        )
    }

    open spec fn contents(&self, rel: Seq<char>) -> Option<Seq<char>> {
        lookup(self.files@, rel)
    }

    fn has_path(&self, rel: &str) -> (r: bool) {
        self.text(rel).is_some() || self.is_dir(rel)
    }

    fn is_dir(&self, rel: &str) -> (r: bool) {
        let mut i: usize = 0;
        while i < self.dirs.len()
            invariant
                i <= self.dirs.len(),
                forall|k: int| 0 <= k < i ==> #[trigger] self.dirs@[k]@ != rel@,
            decreases self.dirs.len() - i,
        {
            if crate::text::str_equal(self.dirs[i].as_str(), rel) {
                return true;
            }
            i += 1;
        }
        false
    }

    fn root_entries(&self) -> (r: Vec<String>) {
        let r = self.names_for("");
        proof {
            reveal_strlit("");
        }
        assert(""@ =~= Seq::<char>::empty());
        r
    }

    fn entries_in(&self, dir: &str) -> (r: Vec<String>) {
        self.names_for(dir)
    }

    fn text(&self, rel: &str) -> (r: Option<String>) {
        let mut i: usize = 0;
        while i < self.files.len()
            invariant
                i <= self.files.len(),
                forall|m: int| 0 <= m < i ==> (#[trigger] self.files@[m]).0@ != rel@,
            decreases self.files.len() - i,
        {
            if crate::text::str_equal(self.files[i].0.as_str(), rel) {
                proof {
                    lemma_lookup_index(self.files@, rel@, i as int);
                }
                return Some(self.files[i].1.clone());
            }
            i += 1;
        }
        proof {
            lemma_lookup_none(self.files@, rel@);
        }
        None
    }
}

} // verus!
